//! What searches show: options, highlight ranges, and the entities a text mentions.
use vstd::prelude::*;
use crate::inbox::texts;
use crate::segmentation::opt_view;
use crate::text::{
    byte_len, chars_of, contains, find_from, lowercase, occurs_at, string_of, to_lowercase, utf8_byte_len,
};
use crate::vector_search::{AllEntities, EntityInfo, EntityMention};

verus! {

/// A range of a search hit to highlight (byte offsets).
#[derive(Debug, Clone, Copy)]
pub struct HighlightRange {
    pub start: usize,
    pub end: usize,
}

/// What to search and how many results to keep.
pub struct SearchOptions {
    pub query: String,
    pub search_chapters: bool,
    pub search_characters: bool,
    pub search_settings: bool,
    pub search_events: bool,
    pub limit: Option<usize>,
}

impl Default for SearchOptions {
    fn default() -> (res: Self)
        ensures
            res.query@.len() == 0,
            res.search_chapters && res.search_characters && res.search_settings
                && res.search_events,
            res.limit == Some(50usize),
    {
        SearchOptions {
            query: String::new(),
            search_chapters: true,
            search_characters: true,
            search_settings: true,
            search_events: true,
            limit: Some(50),
        }
    }
}

/// An entity that a text mentions, with the byte ranges of the mentions.
pub struct EntityMentionInfo {
    pub entity_id: String,
    pub entity_name: String,
    pub entity_type: String,
    pub positions: Vec<(usize, usize)>,
}

/// A known entity as listed.
pub struct EntityInfoItem {
    pub id: String,
    pub name: String,
    pub entity_type: String,
}

/// All known entities of a book as listed, by kind.
pub struct AllEntitiesInfo {
    pub characters: Vec<EntityInfoItem>,
    pub settings: Vec<EntityInfoItem>,
    pub events: Vec<EntityInfoItem>,
}

/// `m` shows the mention `e`.
pub open spec fn shows_mention(m: EntityMentionInfo, e: EntityMention) -> bool {
    &&& m.entity_id == e.entity_id
    &&& m.entity_name == e.entity_name
    &&& m.entity_type == e.entity_type
    &&& m.positions == e.positions
}

/// The mentions as listed, one by one.
pub fn mention_infos(mentions: Vec<EntityMention>) -> (res: Vec<EntityMentionInfo>)
    ensures
        res@.len() == mentions@.len(),
        forall|i: int| 0 <= i < res@.len() ==> shows_mention(#[trigger] res@[i], mentions@[i]),
{
    let ghost orig = mentions@;
    let mut out: Vec<EntityMentionInfo> = Vec::new();
    for m in it: mentions
        invariant
            it.seq() == orig,
            out@.len() == it.index(),
            forall|i: int| 0 <= i < out@.len() ==> shows_mention(#[trigger] out@[i], orig[i]),
    {
        out.push(
            EntityMentionInfo {
                entity_id: m.entity_id,
                entity_name: m.entity_name,
                entity_type: m.entity_type,
                positions: m.positions,
            },
        );
    }
    out
}

/// `item` lists the entity `e`.
pub open spec fn lists_entity(item: EntityInfoItem, e: EntityInfo) -> bool {
    &&& item.id == e.id
    &&& item.name == e.name
    &&& item.entity_type == e.entity_type
}

fn entity_items(entities: Vec<EntityInfo>) -> (res: Vec<EntityInfoItem>)
    ensures
        res@.len() == entities@.len(),
        forall|i: int| 0 <= i < res@.len() ==> lists_entity(#[trigger] res@[i], entities@[i]),
{
    let ghost orig = entities@;
    let mut out: Vec<EntityInfoItem> = Vec::new();
    for e in it: entities
        invariant
            it.seq() == orig,
            out@.len() == it.index(),
            forall|i: int| 0 <= i < out@.len() ==> lists_entity(#[trigger] out@[i], orig[i]),
    {
        out.push(EntityInfoItem { id: e.id, name: e.name, entity_type: e.entity_type });
    }
    out
}

/// The known entities as listed, kind by kind and one by one.
pub fn all_entities_info(entities: AllEntities) -> (res: AllEntitiesInfo)
    ensures
        res.characters@.len() == entities.characters@.len(),
        forall|i: int|
            0 <= i < res.characters@.len() ==> lists_entity(
                #[trigger] res.characters@[i],
                entities.characters@[i],
            ),
        res.settings@.len() == entities.settings@.len(),
        forall|i: int|
            0 <= i < res.settings@.len() ==> lists_entity(
                #[trigger] res.settings@[i],
                entities.settings@[i],
            ),
        res.events@.len() == entities.events@.len(),
        forall|i: int|
            0 <= i < res.events@.len() ==> lists_entity(#[trigger] res.events@[i], entities.events@[i]),
{
    let AllEntities { characters, settings, events } = entities;
    AllEntitiesInfo {
        characters: entity_items(characters),
        settings: entity_items(settings),
        events: entity_items(events),
    }
}

// ---------------------------------------------------------------------------
// Matching entities against a query
// ---------------------------------------------------------------------------

/// A character as entity search reads it.
pub struct CharacterSearchEntry {
    pub id: String,
    pub name: String,
    pub aliases: Vec<String>,
    pub description: Option<String>,
    pub traits: Vec<String>,
    pub role: String,
    pub first_appearance_chapter_id: Option<String>,
}

/// A setting as entity search reads it.
pub struct SettingSearchEntry {
    pub id: String,
    pub name: String,
    pub setting_type: String,
    pub description: Option<String>,
}

/// An event as entity search reads it.
pub struct EventSearchEntry {
    pub id: String,
    pub title: String,
    pub description: Option<String>,
    pub importance: String,
    pub chapter_id: Option<String>,
}

/// An entity that matches a query: what the result shows, where the name matches,
/// and the weight of each match in tenths, in the order they are found (the score
/// is their sum).
pub struct EntityMatch {
    pub result_type: String,
    pub id: String,
    pub title: String,
    pub content: String,
    pub chapter_id: Option<String>,
    pub highlights: Vec<HighlightRange>,
    pub weights: Vec<u32>,
}

/// The first index where `p` occurs in `s` (meaningful where it occurs).
pub open spec fn first_at(s: Seq<char>, p: Seq<char>) -> int {
    choose|i: int| occurs_at(s, p, i) && forall|j: int| 0 <= j < i ==> !occurs_at(s, p, j)
}

/// The byte range of the first occurrence of `q` in `t`, where it occurs (and the
/// range fits in `usize`).
pub open spec fn first_range(t: Seq<char>, q: Seq<char>) -> Seq<(int, int)> {
    if contains(t, q) {
        let st = byte_len(t.take(first_at(t, q)));
        let en = st + byte_len(q);
        if en <= usize::MAX {
            seq![(st as int, en as int)]
        } else {
            Seq::<(int, int)>::empty()
        }
    } else {
        Seq::<(int, int)>::empty()
    }
}

/// The weight `w` once for each text that holds `q` once lowercased.
pub open spec fn weights_for_each(ts: Seq<Seq<char>>, q: Seq<char>, w: u32) -> Seq<u32>
    decreases ts.len(),
{
    if ts.len() == 0 {
        Seq::<u32>::empty()
    } else {
        weights_for_each(ts.drop_last(), q, w) + if contains(lowercase(ts.last()), q) {
            seq![w]
        } else {
            Seq::<u32>::empty()
        }
    }
}

/// `w` where `t` holds `q`.
pub open spec fn weight_if(t: Seq<char>, q: Seq<char>, w: u32) -> Seq<u32> {
    if contains(t, q) {
        seq![w]
    } else {
        Seq::<u32>::empty()
    }
}

/// A description lowercased, nothing where there is none.
pub open spec fn lowered(d: Option<String>) -> Seq<char> {
    match d {
        Some(t) => lowercase(t@),
        None => Seq::<char>::empty(),
    }
}

/// The matches of a character with a lowercased query: its name (5), each alias (3),
/// its description (2), each trait (1).
pub open spec fn character_weights(c: CharacterSearchEntry, q: Seq<char>) -> Seq<u32> {
    weight_if(lowercase(c.name@), q, 5) + weights_for_each(texts(c.aliases@), q, 3) + weight_if(
        lowered(c.description),
        q,
        2,
    ) + weights_for_each(texts(c.traits@), q, 1)
}

/// The matches of a setting: its name (5), its type (2), its description (3).
pub open spec fn setting_weights(s: SettingSearchEntry, q: Seq<char>) -> Seq<u32> {
    weight_if(lowercase(s.name@), q, 5) + weight_if(lowercase(s.setting_type@), q, 2) + weight_if(
        lowered(s.description),
        q,
        3,
    )
}

/// The matches of an event: its title (5), its description (3).
pub open spec fn event_weights(e: EventSearchEntry, q: Seq<char>) -> Seq<u32> {
    weight_if(lowercase(e.title@), q, 5) + weight_if(lowered(e.description), q, 3)
}

pub open spec fn ranges(hs: Seq<HighlightRange>) -> Seq<(int, int)> {
    hs.map_values(|h: HighlightRange| (h.start as int, h.end as int))
}

/// `m` is the result for an entity of type `ty` with these fields and matches.
pub open spec fn match_is(
    m: EntityMatch,
    ty: Seq<char>,
    id: Seq<char>,
    title: Seq<char>,
    content: Seq<char>,
    chapter_id: Option<Seq<char>>,
    highlighted: Seq<char>,
    q: Seq<char>,
    weights: Seq<u32>,
) -> bool {
    &&& m.result_type@ == ty
    &&& m.id@ == id
    &&& m.title@ == title
    &&& m.content@ == content
    &&& opt_view(m.chapter_id) == chapter_id
    &&& ranges(m.highlights@) == first_range(highlighted, q)
    &&& m.weights@ == weights
}

/// The text shown for an entity: its description, else a label and a value.
pub open spec fn shown_content(d: Option<String>, label: Seq<char>, value: Seq<char>) -> Seq<char> {
    match d {
        Some(t) => t@,
        None => label + value,
    }
}

fn highlight_of(t: &str, q: &str) -> (res: Vec<HighlightRange>)
    ensures
        ranges(res@) == first_range(t@, q@),
{
    let tc = chars_of(t);
    let qc = chars_of(q);
    let mut out: Vec<HighlightRange> = Vec::new();
    match find_from(tc.as_slice(), qc.as_slice(), 0) {
        Some(i) => {
            proof {
                assert(contains(t@, q@));
                let k = first_at(t@, q@);
                if k < i {
                    assert(!occurs_at(t@, q@, k));
                } else if k > i {
                    assert(!occurs_at(t@, q@, i as int));
                }
                assert(k == i);
            }
            let before = crate::text::slice_to_vec(tc.as_slice(), 0, i);
            assert(before@ =~= t@.take(i as int));
            let st = utf8_byte_len(before.as_slice());
            let qn = utf8_byte_len(qc.as_slice());
            let bl = before.len();
            let ql = qc.len();
            assert(before@.len() == bl && qc@.len() == ql);
            if st + qn <= usize::MAX as u128 {
                out.push(HighlightRange { start: st as usize, end: (st + qn) as usize });
                assert(ranges(out@) =~= seq![(st as int, (st + qn) as int)]);
            } else {
                assert(ranges(out@) =~= Seq::<(int, int)>::empty());
            }
        },
        None => {
            assert(!contains(t@, q@));
            assert(ranges(out@) =~= Seq::<(int, int)>::empty());
        },
    }
    out
}

fn push_weight_if(ws: &mut Vec<u32>, t: &str, q: &str, w: u32)
    ensures
        final(ws)@ == old(ws)@ + weight_if(t@, q@, w),
{
    if crate::text::contains_chars(chars_of(t).as_slice(), chars_of(q).as_slice()) {
        ws.push(w);
    }
    assert(ws@ =~= old(ws)@ + weight_if(t@, q@, w));
}

fn push_weights_for_each(ws: &mut Vec<u32>, ts: &Vec<String>, q: &str, w: u32)
    ensures
        final(ws)@ == old(ws)@ + weights_for_each(texts(ts@), q@, w),
{
    let ghost start = ws@;
    let ghost tv = texts(ts@);
    let mut i: usize = 0;
    while i < ts.len()
        invariant
            i <= ts@.len(),
            tv == texts(ts@),
            ws@ == start + weights_for_each(tv.take(i as int), q@, w),
        decreases ts.len() - i,
    {
        proof {
            assert(tv.take(i + 1).drop_last() =~= tv.take(i as int));
            assert(tv.take(i + 1).last() == ts@[i as int]@);
        }
        let low = to_lowercase(ts[i].as_str());
        push_weight_if(ws, low.as_str(), q, w);
        proof {
            assert(ws@ =~= start + weights_for_each(tv.take(i + 1), q@, w));
        }
        i = i + 1;
    }
    assert(tv.take(i as int) =~= tv);
}

fn lowered_of(d: &Option<String>) -> (res: String)
    ensures
        res@ == lowered(*d),
{
    match d {
        Some(t) => to_lowercase(t.as_str()),
        None => String::new(),
    }
}

fn content_of(d: &Option<String>, label: &str, value: &str) -> (res: String)
    ensures
        res@ == shown_content(*d, label@, value@),
{
    match d {
        Some(t) => string_of(chars_of(t.as_str()).as_slice()),
        None => {
            let mut c = chars_of(label);
            crate::text::append_chars(&mut c, chars_of(value).as_slice());
            string_of(c.as_slice())
        },
    }
}

fn copy_opt_text(o: &Option<String>) -> (res: Option<String>)
    ensures
        opt_view(res) == opt_view(*o),
{
    match o {
        Some(t) => Some(string_of(chars_of(t.as_str()).as_slice())),
        None => None,
    }
}

/// Matches a character against a lowercased query: `None` where nothing matches,
/// else the result with the name's first match highlighted and the weights of the
/// matches (see `character_weights`).
pub fn match_character(c: &CharacterSearchEntry, query: &str) -> (res: Option<EntityMatch>)
    ensures
        match res {
            None => character_weights(*c, query@).len() == 0,
            Some(m) => character_weights(*c, query@).len() > 0 && match_is(
                m,
                "character"@,
                c.id@,
                c.name@,
                shown_content(c.description, "角色: "@, c.role@),
                opt_view(c.first_appearance_chapter_id),
                lowercase(c.name@),
                query@,
                character_weights(*c, query@),
            ),
        },
{
    let name_lower = to_lowercase(c.name.as_str());
    let mut ws: Vec<u32> = Vec::new();
    push_weight_if(&mut ws, name_lower.as_str(), query, 5);
    push_weights_for_each(&mut ws, &c.aliases, query, 3);
    let desc_lower = lowered_of(&c.description);
    push_weight_if(&mut ws, desc_lower.as_str(), query, 2);
    push_weights_for_each(&mut ws, &c.traits, query, 1);
    assert(ws@ =~= character_weights(*c, query@));
    if ws.len() == 0 {
        return None;
    }
    Some(
        EntityMatch {
            result_type: String::from_str("character"),
            id: string_of(chars_of(c.id.as_str()).as_slice()),
            title: string_of(chars_of(c.name.as_str()).as_slice()),
            content: content_of(&c.description, "角色: ", c.role.as_str()),
            chapter_id: copy_opt_text(&c.first_appearance_chapter_id),
            highlights: highlight_of(name_lower.as_str(), query),
            weights: ws,
        },
    )
}

/// Matches a setting against a lowercased query (see `setting_weights`).
pub fn match_setting(s: &SettingSearchEntry, query: &str) -> (res: Option<EntityMatch>)
    ensures
        match res {
            None => setting_weights(*s, query@).len() == 0,
            Some(m) => setting_weights(*s, query@).len() > 0 && match_is(
                m,
                "setting"@,
                s.id@,
                s.name@,
                shown_content(s.description, "类型: "@, s.setting_type@),
                None,
                lowercase(s.name@),
                query@,
                setting_weights(*s, query@),
            ),
        },
{
    let name_lower = to_lowercase(s.name.as_str());
    let type_lower = to_lowercase(s.setting_type.as_str());
    let mut ws: Vec<u32> = Vec::new();
    push_weight_if(&mut ws, name_lower.as_str(), query, 5);
    push_weight_if(&mut ws, type_lower.as_str(), query, 2);
    let desc_lower = lowered_of(&s.description);
    push_weight_if(&mut ws, desc_lower.as_str(), query, 3);
    assert(ws@ =~= setting_weights(*s, query@));
    if ws.len() == 0 {
        return None;
    }
    Some(
        EntityMatch {
            result_type: String::from_str("setting"),
            id: string_of(chars_of(s.id.as_str()).as_slice()),
            title: string_of(chars_of(s.name.as_str()).as_slice()),
            content: content_of(&s.description, "类型: ", s.setting_type.as_str()),
            chapter_id: None,
            highlights: highlight_of(name_lower.as_str(), query),
            weights: ws,
        },
    )
}

/// Matches an event against a lowercased query (see `event_weights`).
pub fn match_event(e: &EventSearchEntry, query: &str) -> (res: Option<EntityMatch>)
    ensures
        match res {
            None => event_weights(*e, query@).len() == 0,
            Some(m) => event_weights(*e, query@).len() > 0 && match_is(
                m,
                "event"@,
                e.id@,
                e.title@,
                shown_content(e.description, "重要性: "@, e.importance@),
                opt_view(e.chapter_id),
                lowercase(e.title@),
                query@,
                event_weights(*e, query@),
            ),
        },
{
    let title_lower = to_lowercase(e.title.as_str());
    let mut ws: Vec<u32> = Vec::new();
    push_weight_if(&mut ws, title_lower.as_str(), query, 5);
    let desc_lower = lowered_of(&e.description);
    push_weight_if(&mut ws, desc_lower.as_str(), query, 3);
    assert(ws@ =~= event_weights(*e, query@));
    if ws.len() == 0 {
        return None;
    }
    Some(
        EntityMatch {
            result_type: String::from_str("event"),
            id: string_of(chars_of(e.id.as_str()).as_slice()),
            title: string_of(chars_of(e.title.as_str()).as_slice()),
            content: content_of(&e.description, "重要性: ", e.importance.as_str()),
            chapter_id: copy_opt_text(&e.chapter_id),
            highlights: highlight_of(title_lower.as_str(), query),
            weights: ws,
        },
    )
}

} // verus!
