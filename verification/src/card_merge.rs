//! What accepting a knowledge card does to the story bible's characters and
//! settings: the fields of a new character, and how a card's fields join an
//! existing character or setting.
use vstd::prelude::*;
use crate::duplicates::{add_new_keys, opt_pairs, pair_views};
use crate::inbox::{
    add_name_as_alias, has_ignoring_case, merge_ignoring_case, merge_new, merged_ignoring_case,
    merged_new, texts,
};
use crate::segmentation::opt_view;
use crate::text::{chars_of, contains, contains_chars, lowercase, str_eq, string_of};

verus! {

/// What a knowledge card says of a character.
pub struct CharacterCard {
    pub title: String,
    /// The `name` of the card's content, where it is a string.
    pub name: Option<String>,
    pub description: Option<String>,
    /// The card's aliases that are strings.
    pub aliases: Vec<String>,
    /// The card's traits that are strings.
    pub traits: Vec<String>,
    pub role: Option<String>,
    pub evidence: Vec<String>,
}

/// The fields of a character that accepting a card sets.
pub struct CharacterFields {
    pub name: String,
    pub aliases: Vec<String>,
    pub description: Option<String>,
    pub traits: Vec<String>,
    pub role: String,
    pub evidence: Vec<String>,
}

/// What a knowledge card says of a setting.
pub struct SettingCard {
    pub title: String,
    pub name: Option<String>,
    pub description: Option<String>,
    /// The card's `type`, where it is a string.
    pub setting_type: Option<String>,
    /// The card's properties (key and value as JSON text), where they form an object.
    pub properties: Option<Vec<(String, String)>>,
    pub evidence: Vec<String>,
}

/// The fields of a setting that merging a card sets.
pub struct SettingFields {
    pub name: String,
    pub setting_type: String,
    pub description: Option<String>,
    /// The properties (key and value as JSON text), where they form an object.
    pub properties: Option<Vec<(String, String)>>,
    pub evidence: Vec<String>,
}

/// The name a card gives: its content's name, else its title.
pub open spec fn card_name(name: Option<String>, title: String) -> Seq<char> {
    match name {
        Some(n) => n@,
        None => title@,
    }
}

pub open spec fn or_else(a: Option<Seq<char>>, b: Option<Seq<char>>) -> Option<Seq<char>> {
    match a {
        Some(x) => Some(x),
        None => b,
    }
}

pub open spec fn or_default(a: Option<Seq<char>>, d: Seq<char>) -> Seq<char> {
    match a {
        Some(x) => x,
        None => d,
    }
}

pub type CharacterView = (Seq<char>, Seq<Seq<char>>, Option<Seq<char>>, Seq<Seq<char>>, Seq<char>, Seq<Seq<char>>);

pub open spec fn character_view(c: CharacterFields) -> CharacterView {
    (c.name@, texts(c.aliases@), opt_view(c.description), texts(c.traits@), c.role@, texts(c.evidence@))
}

/// A new character from a card: its name, aliases, description, traits and evidence,
/// and its role (supporting where the card gives none).
pub open spec fn new_character_view(card: CharacterCard) -> CharacterView {
    (
        card_name(card.name, card.title),
        texts(card.aliases@),
        opt_view(card.description),
        texts(card.traits@),
        or_default(opt_view(card.role), "supporting"@),
        texts(card.evidence@),
    )
}

/// A card joined to an existing character: the card's description where it has one,
/// the card's aliases and traits not held yet (case ignored), its evidence not held
/// yet. Joined as a duplicate (`by_dedup`), the card's name becomes an alias where
/// new and the role stays; joined by name, the card's role replaces it where given.
pub open spec fn merged_character_view(existing: CharacterFields, card: CharacterCard, by_dedup: bool) -> CharacterView {
    let name = card_name(card.name, card.title);
    let start = texts(existing.aliases@);
    let with_name = if by_dedup && lowercase(name) != lowercase(existing.name@) && !has_ignoring_case(
        start,
        name,
    ) {
        start.push(name)
    } else {
        start
    };
    (
        existing.name@,
        merged_ignoring_case(with_name, texts(card.aliases@)),
        or_else(opt_view(card.description), opt_view(existing.description)),
        merged_ignoring_case(texts(existing.traits@), texts(card.traits@)),
        if by_dedup {
            existing.role@
        } else {
            or_default(opt_view(card.role), existing.role@)
        },
        merged_new(texts(existing.evidence@), texts(card.evidence@)),
    )
}

/// The first position of key `k`.
pub open spec fn key_position(ps: Seq<(Seq<char>, Seq<char>)>, k: Seq<char>) -> Option<int>
    decreases ps.len(),
{
    if ps.len() == 0 {
        None
    } else if ps[0].0 == k {
        Some(0)
    } else {
        match key_position(ps.drop_first(), k) {
            Some(i) => Some(i + 1),
            None => None,
        }
    }
}

/// `ps` with each of `more` set: a held key takes the new value, a new key is added.
pub open spec fn set_all(ps: Seq<(Seq<char>, Seq<char>)>, more: Seq<(Seq<char>, Seq<char>)>) -> Seq<
    (Seq<char>, Seq<char>),
>
    decreases more.len(),
{
    if more.len() == 0 {
        ps
    } else {
        let a = set_all(ps, more.drop_last());
        let x = more.last();
        match key_position(a, x.0) {
            Some(i) => a.update(i, x),
            None => a.push(x),
        }
    }
}

pub type SettingView = (Seq<char>, Seq<char>, Option<Seq<char>>, Option<Seq<(Seq<char>, Seq<char>)>>, Seq<Seq<char>>);

pub open spec fn setting_view(s: SettingFields) -> SettingView {
    (s.name@, s.setting_type@, opt_view(s.description), opt_pairs(s.properties), texts(s.evidence@))
}

/// A card joined to an existing setting: the card's description and type where it
/// gives them, its properties set where both form objects, its evidence not held yet.
pub open spec fn merged_setting_view(existing: SettingFields, card: SettingCard) -> SettingView {
    (
        existing.name@,
        or_default(opt_view(card.setting_type), existing.setting_type@),
        or_else(opt_view(card.description), opt_view(existing.description)),
        match opt_pairs(existing.properties) {
            Some(ps) => match opt_pairs(card.properties) {
                Some(more) => Some(set_all(ps, more)),
                None => Some(ps),
            },
            None => None,
        },
        merged_new(texts(existing.evidence@), texts(card.evidence@)),
    )
}

fn copy_text(s: &str) -> (res: String)
    ensures
        res@ == s@,
{
    string_of(chars_of(s).as_slice())
}

fn copy_texts(v: &Vec<String>) -> (res: Vec<String>)
    ensures
        texts(res@) == texts(v@),
{
    let mut res: Vec<String> = Vec::new();
    let mut i: usize = 0;
    while i < v.len()
        invariant
            i <= v@.len(),
            texts(res@) == texts(v@).take(i as int),
        decreases v.len() - i,
    {
        let ghost before = res@;
        res.push(copy_text(v[i].as_str()));
        proof {
            assert(texts(res@) =~= texts(before).push(v@[i as int]@));
            assert(texts(v@).take(i + 1) =~= texts(v@).take(i as int).push(v@[i as int]@));
        }
        i = i + 1;
    }
    assert(texts(v@).take(i as int) =~= texts(v@));
    res
}

fn copy_opt(o: &Option<String>) -> (res: Option<String>)
    ensures
        opt_view(res) == opt_view(*o),
{
    match o {
        Some(s) => Some(copy_text(s.as_str())),
        None => None,
    }
}

/// The name a card gives: its content's name, else its title.
pub fn entity_name_of_card(name: &Option<String>, title: &str) -> (res: String)
    ensures
        res@ == match name {
            Some(n) => n@,
            None => title@,
        },
{
    match name {
        Some(n) => copy_text(n.as_str()),
        None => copy_text(title),
    }
}

/// The fields of a new character made from a card.
pub fn new_character(card: &CharacterCard) -> (res: CharacterFields)
    ensures
        character_view(res) == new_character_view(*card),
{
    CharacterFields {
        name: entity_name_of_card(&card.name, card.title.as_str()),
        aliases: copy_texts(&card.aliases),
        description: copy_opt(&card.description),
        traits: copy_texts(&card.traits),
        role: match &card.role {
            Some(r) => copy_text(r.as_str()),
            None => String::from_str("supporting"),
        },
        evidence: copy_texts(&card.evidence),
    }
}

/// The fields of an existing character once a card joins it (see
/// `merged_character_view`).
pub fn merge_character_card(existing: &CharacterFields, card: &CharacterCard, by_dedup: bool) -> (res:
    CharacterFields)
    ensures
        character_view(res) == merged_character_view(*existing, *card, by_dedup),
{
    let name = entity_name_of_card(&card.name, card.title.as_str());
    let mut aliases = copy_texts(&existing.aliases);
    if by_dedup {
        add_name_as_alias(&mut aliases, name.as_str(), existing.name.as_str());
    }
    merge_ignoring_case(&mut aliases, card.aliases.as_slice());
    let mut traits = copy_texts(&existing.traits);
    merge_ignoring_case(&mut traits, card.traits.as_slice());
    let mut evidence = copy_texts(&existing.evidence);
    merge_new(&mut evidence, card.evidence.as_slice());
    let description = match &card.description {
        Some(d) => Some(copy_text(d.as_str())),
        None => copy_opt(&existing.description),
    };
    let role = if by_dedup {
        copy_text(existing.role.as_str())
    } else {
        match &card.role {
            Some(r) => copy_text(r.as_str()),
            None => copy_text(existing.role.as_str()),
        }
    };
    CharacterFields { name: copy_text(existing.name.as_str()), aliases, description, traits, role, evidence }
}

fn key_position_of(ps: &Vec<(String, String)>, k: &str) -> (res: Option<usize>)
    ensures
        match res {
            Some(i) => key_position(pair_views(ps@), k@) == Some(i as int) && i < ps@.len(),
            None => key_position(pair_views(ps@), k@) is None,
        },
{
    let ghost pv = pair_views(ps@);
    let mut i: usize = 0;
    proof {
        assert(pv.skip(0) == pv);
    }
    while i < ps.len()
        invariant
            i <= ps@.len(),
            pv == pair_views(ps@),
            key_position(pv, k@) == match key_position(pv.skip(i as int), k@) {
                Some(j) => Some(j + i),
                None => None,
            },
        decreases ps.len() - i,
    {
        proof {
            assert(pv.skip(i as int)[0] == (ps@[i as int].0@, ps@[i as int].1@));
            assert(pv.skip(i as int).drop_first() =~= pv.skip(i + 1));
        }
        if str_eq(ps[i].0.as_str(), k) {
            return Some(i);
        }
        i = i + 1;
    }
    None
}

fn set_properties(ps: &mut Vec<(String, String)>, more: &Vec<(String, String)>)
    ensures
        pair_views(final(ps)@) == set_all(pair_views(old(ps)@), pair_views(more@)),
{
    let ghost start = pair_views(ps@);
    let ghost mv = pair_views(more@);
    let mut i: usize = 0;
    while i < more.len()
        invariant
            i <= more@.len(),
            mv == pair_views(more@),
            pair_views(ps@) == set_all(start, mv.take(i as int)),
        decreases more.len() - i,
    {
        proof {
            assert(mv.take(i + 1).drop_last() =~= mv.take(i as int));
            assert(mv.take(i + 1).last() == (more@[i as int].0@, more@[i as int].1@));
        }
        let ghost before = ps@;
        match key_position_of(ps, more[i].0.as_str()) {
            Some(j) => {
                ps.set(j, (copy_text(more[i].0.as_str()), copy_text(more[i].1.as_str())));
                proof {
                    assert(pair_views(ps@) =~= pair_views(before).update(
                        j as int,
                        (more@[i as int].0@, more@[i as int].1@),
                    ));
                }
            },
            None => {
                ps.push((copy_text(more[i].0.as_str()), copy_text(more[i].1.as_str())));
                proof {
                    assert(pair_views(ps@) =~= pair_views(before).push((more@[i as int].0@, more@[i as int].1@)));
                }
            },
        }
        i = i + 1;
    }
    assert(mv.take(i as int) =~= mv);
}

fn copy_pairs(v: &Vec<(String, String)>) -> (res: Vec<(String, String)>)
    ensures
        pair_views(res@) == pair_views(v@),
{
    let mut out: Vec<(String, String)> = Vec::new();
    let mut i: usize = 0;
    while i < v.len()
        invariant
            i <= v@.len(),
            pair_views(out@) == pair_views(v@).take(i as int),
        decreases v.len() - i,
    {
        let ghost before = out@;
        out.push((copy_text(v[i].0.as_str()), copy_text(v[i].1.as_str())));
        proof {
            assert(pair_views(out@) =~= pair_views(before).push((v@[i as int].0@, v@[i as int].1@)));
            assert(pair_views(v@).take(i + 1) =~= pair_views(v@).take(i as int).push(
                (v@[i as int].0@, v@[i as int].1@),
            ));
        }
        i = i + 1;
    }
    assert(pair_views(v@).take(i as int) =~= pair_views(v@));
    out
}

/// The fields of an existing setting once a card joins it (see `merged_setting_view`).
pub fn merge_setting_card(existing: &SettingFields, card: &SettingCard) -> (res: SettingFields)
    ensures
        setting_view(res) == merged_setting_view(*existing, *card),
{
    let setting_type = match &card.setting_type {
        Some(t) => copy_text(t.as_str()),
        None => copy_text(existing.setting_type.as_str()),
    };
    let description = match &card.description {
        Some(d) => Some(copy_text(d.as_str())),
        None => copy_opt(&existing.description),
    };
    let properties = match &existing.properties {
        Some(ps) => {
            let mut merged = copy_pairs(ps);
            match &card.properties {
                Some(more) => {
                    set_properties(&mut merged, more);
                },
                None => {},
            }
            Some(merged)
        },
        None => None,
    };
    let mut evidence = copy_texts(&existing.evidence);
    merge_new(&mut evidence, card.evidence.as_slice());
    SettingFields { name: copy_text(existing.name.as_str()), setting_type, description, properties, evidence }
}

// ---------------------------------------------------------------------------
// Events
// ---------------------------------------------------------------------------

/// What a knowledge card says of an event. Its timing fields may also stand under
/// the content's `extra`, where older cards kept them.
pub struct EventCard {
    pub title: String,
    pub description: Option<String>,
    pub importance: Option<String>,
    /// The ids of the characters involved that are strings.
    pub characters_involved: Vec<String>,
    pub time_marker: Option<String>,
    pub extra_time_marker: Option<String>,
    /// The position in the chapter, where the card gives a number.
    pub order_in_chapter: Option<i32>,
    pub is_flashback: Option<bool>,
    pub extra_is_flashback: Option<bool>,
    pub relative_time: Option<String>,
    pub extra_relative_time: Option<String>,
    pub evidence: Vec<String>,
}

/// The fields of an event that accepting or merging a card sets.
pub struct EventFields {
    pub title: String,
    pub description: Option<String>,
    pub importance: String,
    pub characters_involved: Vec<String>,
    pub time_marker: Option<String>,
    pub order_in_chapter: i32,
    pub is_flashback: bool,
    pub relative_time: Option<String>,
    pub evidence: Vec<String>,
}

pub type EventView = (
    Seq<char>,
    Option<Seq<char>>,
    Seq<char>,
    Seq<Seq<char>>,
    Option<Seq<char>>,
    i32,
    bool,
    Option<Seq<char>>,
    Seq<Seq<char>>,
);

pub open spec fn event_view(e: EventFields) -> EventView {
    (
        e.title@,
        opt_view(e.description),
        e.importance@,
        texts(e.characters_involved@),
        opt_view(e.time_marker),
        e.order_in_chapter,
        e.is_flashback,
        opt_view(e.relative_time),
        texts(e.evidence@),
    )
}

/// A new event from a card: its title and description; its importance (normal where
/// not given); its characters; its time marker, flashback flag and relative time,
/// taken from `extra` where the content lacks them (not a flashback where neither
/// says); its position (0 where not given); and its evidence.
pub open spec fn new_event_view(card: EventCard) -> EventView {
    (
        card.title@,
        opt_view(card.description),
        or_default(opt_view(card.importance), "normal"@),
        texts(card.characters_involved@),
        or_else(opt_view(card.time_marker), opt_view(card.extra_time_marker)),
        match card.order_in_chapter {
            Some(n) => n,
            None => 0,
        },
        match card.is_flashback {
            Some(b) => b,
            None => match card.extra_is_flashback {
                Some(b) => b,
                None => false,
            },
        },
        or_else(opt_view(card.relative_time), opt_view(card.extra_relative_time)),
        texts(card.evidence@),
    )
}

fn first_text(a: &Option<String>, b: &Option<String>) -> (res: Option<String>)
    ensures
        opt_view(res) == or_else(opt_view(*a), opt_view(*b)),
{
    match a {
        Some(x) => Some(copy_text(x.as_str())),
        None => copy_opt(b),
    }
}

/// The fields of a new event made from a card (see `new_event_view`).
pub fn new_event(card: &EventCard) -> (res: EventFields)
    ensures
        event_view(res) == new_event_view(*card),
{
    EventFields {
        title: copy_text(card.title.as_str()),
        description: copy_opt(&card.description),
        importance: match &card.importance {
            Some(i) => copy_text(i.as_str()),
            None => String::from_str("normal"),
        },
        characters_involved: copy_texts(&card.characters_involved),
        time_marker: first_text(&card.time_marker, &card.extra_time_marker),
        order_in_chapter: match card.order_in_chapter {
            Some(n) => n,
            None => 0,
        },
        is_flashback: match card.is_flashback {
            Some(b) => b,
            None => match card.extra_is_flashback {
                Some(b) => b,
                None => false,
            },
        },
        relative_time: first_text(&card.relative_time, &card.extra_relative_time),
        evidence: copy_texts(&card.evidence),
    }
}

// ---------------------------------------------------------------------------
// Merging a card into a chosen entity
// ---------------------------------------------------------------------------

/// A description after a card is merged into a chosen entity: with the `replace`
/// strategy, the card's; otherwise (`append`, the default) the old one with the new
/// one added after a blank line unless it already holds it, or whichever exists.
pub open spec fn merged_description(strategy: Option<Seq<char>>, old: Option<Seq<char>>, new: Option<Seq<char>>) -> Option<
    Seq<char>,
> {
    if strategy == Some("replace"@) {
        new
    } else {
        match old {
            Some(o) => match new {
                Some(n) => if !contains(o, n) {
                    Some(o + "\n\n"@ + n)
                } else {
                    Some(o)
                },
                None => Some(o),
            },
            None => new,
        }
    }
}

/// The description after a card is merged (see `merged_description`).
pub fn merge_description(strategy: &Option<String>, old: &Option<String>, new: &Option<String>) -> (res: Option<
    String,
>)
    ensures
        opt_view(res) == merged_description(opt_view(*strategy), opt_view(*old), opt_view(*new)),
{
    let replace = match strategy {
        Some(s) => str_eq(s.as_str(), "replace"),
        None => false,
    };
    if replace {
        return copy_opt(new);
    }
    match old {
        Some(o) => match new {
            Some(n) => {
                let oc = chars_of(o.as_str());
                let nc = chars_of(n.as_str());
                if !contains_chars(oc.as_slice(), nc.as_slice()) {
                    let mut out = oc;
                    out.push('\n');
                    out.push('\n');
                    crate::text::append_chars(&mut out, nc.as_slice());
                    assert(out@ =~= o@ + "\n\n"@ + n@) by {
                        reveal_strlit("\n\n");
                    }
                    Some(string_of(out.as_slice()))
                } else {
                    Some(copy_text(o.as_str()))
                }
            },
            None => Some(copy_text(o.as_str())),
        },
        None => copy_opt(new),
    }
}

/// A card merged into a chosen character: its aliases, traits and evidence not held
/// yet (exact match) added, and the description merged by the strategy.
pub open spec fn target_character_view(existing: CharacterFields, card: CharacterCard, strategy: Option<Seq<char>>) -> CharacterView {
    (
        existing.name@,
        merged_new(texts(existing.aliases@), texts(card.aliases@)),
        merged_description(strategy, opt_view(existing.description), opt_view(card.description)),
        merged_new(texts(existing.traits@), texts(card.traits@)),
        existing.role@,
        merged_new(texts(existing.evidence@), texts(card.evidence@)),
    )
}

/// The fields of a chosen character once a card is merged into it.
pub fn merge_card_into_character(existing: &CharacterFields, card: &CharacterCard, strategy: &Option<String>) -> (res:
    CharacterFields)
    ensures
        character_view(res) == target_character_view(*existing, *card, opt_view(*strategy)),
{
    let mut aliases = copy_texts(&existing.aliases);
    merge_new(&mut aliases, card.aliases.as_slice());
    let mut traits = copy_texts(&existing.traits);
    merge_new(&mut traits, card.traits.as_slice());
    let mut evidence = copy_texts(&existing.evidence);
    merge_new(&mut evidence, card.evidence.as_slice());
    CharacterFields {
        name: copy_text(existing.name.as_str()),
        aliases,
        description: merge_description(strategy, &existing.description, &card.description),
        traits,
        role: copy_text(existing.role.as_str()),
        evidence,
    }
}

/// A card merged into a chosen setting: its evidence not held yet added, its
/// properties of new keys added where both form objects, and the description merged
/// by the strategy.
pub open spec fn target_setting_view(existing: SettingFields, card: SettingCard, strategy: Option<Seq<char>>) -> SettingView {
    (
        existing.name@,
        existing.setting_type@,
        merged_description(strategy, opt_view(existing.description), opt_view(card.description)),
        match opt_pairs(existing.properties) {
            Some(ps) => match opt_pairs(card.properties) {
                Some(more) => Some(add_new_keys(ps, more)),
                None => Some(ps),
            },
            None => None,
        },
        merged_new(texts(existing.evidence@), texts(card.evidence@)),
    )
}

/// The fields of a chosen setting once a card is merged into it.
pub fn merge_card_into_setting(existing: &SettingFields, card: &SettingCard, strategy: &Option<String>) -> (res:
    SettingFields)
    ensures
        setting_view(res) == target_setting_view(*existing, *card, opt_view(*strategy)),
{
    let properties = match &existing.properties {
        Some(ps) => {
            let mut merged = copy_pairs(ps);
            match &card.properties {
                Some(more) => {
                    crate::duplicates::add_keys(&mut merged, more);
                },
                None => {},
            }
            Some(merged)
        },
        None => None,
    };
    let mut evidence = copy_texts(&existing.evidence);
    merge_new(&mut evidence, card.evidence.as_slice());
    SettingFields {
        name: copy_text(existing.name.as_str()),
        setting_type: copy_text(existing.setting_type.as_str()),
        description: merge_description(strategy, &existing.description, &card.description),
        properties,
        evidence,
    }
}

/// A card merged into a chosen event: its evidence and characters not held yet added,
/// and the description merged by the strategy.
pub open spec fn target_event_view(existing: EventFields, card: EventCard, strategy: Option<Seq<char>>) -> EventView {
    (
        existing.title@,
        merged_description(strategy, opt_view(existing.description), opt_view(card.description)),
        existing.importance@,
        merged_new(texts(existing.characters_involved@), texts(card.characters_involved@)),
        opt_view(existing.time_marker),
        existing.order_in_chapter,
        existing.is_flashback,
        opt_view(existing.relative_time),
        merged_new(texts(existing.evidence@), texts(card.evidence@)),
    )
}

/// The fields of a chosen event once a card is merged into it.
pub fn merge_card_into_event(existing: &EventFields, card: &EventCard, strategy: &Option<String>) -> (res: EventFields)
    ensures
        event_view(res) == target_event_view(*existing, *card, opt_view(*strategy)),
{
    let mut characters_involved = copy_texts(&existing.characters_involved);
    merge_new(&mut characters_involved, card.characters_involved.as_slice());
    let mut evidence = copy_texts(&existing.evidence);
    merge_new(&mut evidence, card.evidence.as_slice());
    EventFields {
        title: copy_text(existing.title.as_str()),
        description: merge_description(strategy, &existing.description, &card.description),
        importance: copy_text(existing.importance.as_str()),
        characters_involved,
        time_marker: copy_opt(&existing.time_marker),
        order_in_chapter: existing.order_in_chapter,
        is_flashback: existing.is_flashback,
        relative_time: copy_opt(&existing.relative_time),
        evidence,
    }
}

} // verus!
