//! The inbox of knowledge cards: counts by kind, what accepting a card does, and how
//! a card's lists are merged into an existing entity.
use vstd::prelude::*;
use crate::dedup::{combo_name, is_combo_name, DedupResult};
use crate::text::{chars_eq, chars_of, lowercase, str_eq, to_lowercase};

verus! {

/// Pending cards by kind.
pub struct InboxStats {
    pub total: u32,
    pub characters: u32,
    pub settings: u32,
    pub events: u32,
}

/// The number of entries equal to `k`.
pub open spec fn count_kind(types: Seq<Seq<char>>, k: Seq<char>) -> nat
    decreases types.len(),
{
    if types.len() == 0 {
        0
    } else {
        count_kind(types.drop_last(), k) + if types.last() == k {
            1nat
        } else {
            0nat
        }
    }
}

proof fn lemma_count_kind_le(types: Seq<Seq<char>>, k: Seq<char>)
    ensures
        count_kind(types, k) <= types.len(),
    decreases types.len(),
{
    if types.len() > 0 {
        lemma_count_kind_le(types.drop_last(), k);
    }
}

pub open spec fn texts(v: Seq<String>) -> Seq<Seq<char>> {
    v.map_values(|s: String| s@)
}

/// The inbox counts of pending cards of the given kinds: all of them, and those of
/// kind `character`, `setting` and `event`.
pub fn inbox_stats(knowledge_types: &[String]) -> (res: InboxStats)
    requires
        knowledge_types@.len() <= u32::MAX,
    ensures
        res.total == knowledge_types@.len(),
        res.characters == count_kind(texts(knowledge_types@), "character"@),
        res.settings == count_kind(texts(knowledge_types@), "setting"@),
        res.events == count_kind(texts(knowledge_types@), "event"@),
{
    let mut stats = InboxStats {
        total: knowledge_types.len() as u32,
        characters: 0,
        settings: 0,
        events: 0,
    };
    let ghost ts = texts(knowledge_types@);
    let mut i: usize = 0;
    while i < knowledge_types.len()
        invariant
            i <= knowledge_types@.len(),
            knowledge_types@.len() <= u32::MAX,
            ts == texts(knowledge_types@),
            stats.total == knowledge_types@.len(),
            stats.characters == count_kind(ts.take(i as int), "character"@),
            stats.settings == count_kind(ts.take(i as int), "setting"@),
            stats.events == count_kind(ts.take(i as int), "event"@),
        decreases knowledge_types.len() - i,
    {
        proof {
            assert(ts.take(i + 1).drop_last() == ts.take(i as int));
            assert(ts.take(i + 1).last() == knowledge_types@[i as int]@);
            lemma_count_kind_le(ts.take(i as int), "character"@);
            lemma_count_kind_le(ts.take(i as int), "setting"@);
            lemma_count_kind_le(ts.take(i as int), "event"@);
            reveal_strlit("character");
            reveal_strlit("setting");
            reveal_strlit("event");
        }
        let k = knowledge_types[i].as_str();
        if str_eq(k, "character") {
            stats.characters = stats.characters + 1;
        } else if str_eq(k, "setting") {
            stats.settings = stats.settings + 1;
        } else if str_eq(k, "event") {
            stats.events = stats.events + 1;
        }
        i = i + 1;
    }
    proof {
        assert(ts.take(i as int) == ts);
    }
    stats
}

// ---------------------------------------------------------------------------
// Accepting a card
// ---------------------------------------------------------------------------

/// What accepting an entity card does.
pub enum CardAction {
    /// The card is rejected: it names several entities, or is a duplicate to skip.
    Reject,
    /// The card is merged into the existing entity with this id.
    MergeWith(String),
    /// The card updates the existing entity of the same name.
    UpdateExisting,
    /// The card becomes a new entity.
    Create,
}

/// What accepting a card that names `name` does, given the duplicate check, the ids
/// of the existing entities and whether one has exactly that name: a combined name
/// or a duplicate to skip is rejected; a duplicate to merge is merged where its
/// target exists; otherwise an entity of the same name is updated, or a new one made.
pub open spec fn card_action(
    name: Seq<char>,
    skip: bool,
    merge_with: Option<Seq<char>>,
    existing_ids: Seq<Seq<char>>,
    exact_match: bool,
) -> CardAction {
    if combo_name(name) || skip {
        CardAction::Reject
    } else if merge_with is Some && existing_ids.contains(merge_with.unwrap()) {
        CardAction::MergeWith(arbitrary())
    } else if exact_match {
        CardAction::UpdateExisting
    } else {
        CardAction::Create
    }
}

/// `a` is the action `spec`, with the merge target's id where it merges.
pub open spec fn action_is(a: CardAction, spec: CardAction, merge_with: Option<Seq<char>>) -> bool {
    match spec {
        CardAction::Reject => a is Reject,
        CardAction::MergeWith(_) => a matches CardAction::MergeWith(id) && Some(id@) == merge_with,
        CardAction::UpdateExisting => a is UpdateExisting,
        CardAction::Create => a is Create,
    }
}

/// What accepting an entity card does.
pub fn entity_card_action(
    name: &str,
    dedup: &DedupResult,
    existing_ids: &[String],
    exact_match: bool,
) -> (res: CardAction)
    ensures
        action_is(
            res,
            card_action(
                name@,
                dedup.should_skip,
                crate::analysis::opt_text(dedup.merge_with),
                texts(existing_ids@),
                exact_match,
            ),
            crate::analysis::opt_text(dedup.merge_with),
        ),
{
    if is_combo_name(name) || dedup.should_skip {
        return CardAction::Reject;
    }
    match &dedup.merge_with {
        Some(id) => {
            let mut i: usize = 0;
            while i < existing_ids.len()
                invariant
                    i <= existing_ids@.len(),
                    !combo_name(name@),
                    !dedup.should_skip,
                    crate::analysis::opt_text(dedup.merge_with) == Some(id@),
                    forall|k: int| 0 <= k < i ==> existing_ids@[k]@ != id@,
                decreases existing_ids.len() - i,
            {
                if str_eq(existing_ids[i].as_str(), id.as_str()) {
                    proof {
                        assert(texts(existing_ids@)[i as int] == id@);
                        assert(texts(existing_ids@).contains(id@));
                    }
                    return CardAction::MergeWith(String::from_str(id.as_str()));
                }
                i = i + 1;
            }
            proof {
                assert forall|k: int| 0 <= k < texts(existing_ids@).len() implies texts(
                    existing_ids@,
                )[k] != id@ by {
                    assert(texts(existing_ids@)[k] == existing_ids@[k]@);
                }
                assert(!texts(existing_ids@).contains(id@));
            }
        },
        None => {},
    }
    if exact_match {
        CardAction::UpdateExisting
    } else {
        CardAction::Create
    }
}

// ---------------------------------------------------------------------------
// Merging a card's lists into an entity
// ---------------------------------------------------------------------------

/// Whether `list` holds `x` when case is ignored.
pub open spec fn has_ignoring_case(list: Seq<Seq<char>>, x: Seq<char>) -> bool {
    exists|i: int| 0 <= i < list.len() && lowercase(#[trigger] list[i]) == lowercase(x)
}

/// `list` with each of `items` appended, in order, unless the list already holds it
/// when case is ignored.
pub open spec fn merged_ignoring_case(list: Seq<Seq<char>>, items: Seq<Seq<char>>) -> Seq<
    Seq<char>,
>
    decreases items.len(),
{
    if items.len() == 0 {
        list
    } else {
        let m = merged_ignoring_case(list, items.drop_last());
        if has_ignoring_case(m, items.last()) {
            m
        } else {
            m.push(items.last())
        }
    }
}

/// `list` with each of `items` appended, in order, unless the list already holds it.
pub open spec fn merged_new(list: Seq<Seq<char>>, items: Seq<Seq<char>>) -> Seq<Seq<char>>
    decreases items.len(),
{
    if items.len() == 0 {
        list
    } else {
        let m = merged_new(list, items.drop_last());
        if m.contains(items.last()) {
            m
        } else {
            m.push(items.last())
        }
    }
}

/// Whether some entry of `list`, lower-cased, is `lx`.
fn holds_lowered(list: &Vec<String>, lx: &Vec<char>) -> (res: bool)
    ensures
        res == exists|i: int| 0 <= i < list@.len() && lowercase(#[trigger] list@[i]@) == lx@,
{
    let mut i: usize = 0;
    while i < list.len()
        invariant
            i <= list@.len(),
            forall|k: int| 0 <= k < i ==> lowercase(#[trigger] list@[k]@) != lx@,
        decreases list.len() - i,
    {
        let l = to_lowercase(list[i].as_str());
        let lc = chars_of(l.as_str());
        if chars_eq(&lc, lx) {
            return true;
        }
        i = i + 1;
    }
    false
}

/// Appends to `list` each of `items` that it does not hold yet, ignoring case (how a
/// card's aliases and traits join an existing entity's).
pub fn merge_ignoring_case(list: &mut Vec<String>, items: &[String])
    ensures
        texts(final(list)@) == merged_ignoring_case(texts(old(list)@), texts(items@)),
{
    let ghost start = texts(list@);
    let mut i: usize = 0;
    while i < items.len()
        invariant
            i <= items@.len(),
            texts(list@) == merged_ignoring_case(start, texts(items@).take(i as int)),
        decreases items.len() - i,
    {
        proof {
            assert(texts(items@).take(i + 1).drop_last() == texts(items@).take(i as int));
            assert(texts(items@).take(i + 1).last() == items@[i as int]@);
        }
        let l = to_lowercase(items[i].as_str());
        let lx = chars_of(l.as_str());
        let held = holds_lowered(list, &lx);
        proof {
            let m = texts(list@);
            if held {
                let k = choose|k: int| 0 <= k < list@.len() && lowercase(#[trigger] list@[k]@) == lx@;
                assert(m[k] == list@[k]@);
                assert(has_ignoring_case(m, items@[i as int]@));
            } else {
                assert forall|k: int| 0 <= k < m.len() implies lowercase(#[trigger] m[k]) != lowercase(
                    items@[i as int]@,
                ) by {
                    assert(m[k] == list@[k]@);
                }
            }
        }
        if !held {
            let ghost before = list@;
            list.push(String::from_str(items[i].as_str()));
            proof {
                assert(texts(list@) =~= texts(before).push(items@[i as int]@));
            }
        }
        i = i + 1;
    }
    proof {
        assert(texts(items@).take(i as int) == texts(items@));
    }
}

/// Appends to `list` each of `items` that it does not hold yet (how a card's
/// evidence joins an existing entity's).
pub fn merge_new(list: &mut Vec<String>, items: &[String])
    ensures
        texts(final(list)@) == merged_new(texts(old(list)@), texts(items@)),
{
    let ghost start = texts(list@);
    let mut i: usize = 0;
    while i < items.len()
        invariant
            i <= items@.len(),
            texts(list@) == merged_new(start, texts(items@).take(i as int)),
        decreases items.len() - i,
    {
        proof {
            assert(texts(items@).take(i + 1).drop_last() == texts(items@).take(i as int));
            assert(texts(items@).take(i + 1).last() == items@[i as int]@);
        }
        let mut held = false;
        let mut j: usize = 0;
        while j < list.len()
            invariant
                j <= list@.len(),
                i < items@.len(),
                held <==> exists|k: int| 0 <= k < j && #[trigger] list@[k]@ == items@[i as int]@,
            decreases list.len() - j,
        {
            if str_eq(list[j].as_str(), items[i].as_str()) {
                held = true;
            }
            j = j + 1;
        }
        proof {
            let m = texts(list@);
            if held {
                let k = choose|k: int| 0 <= k < j && #[trigger] list@[k]@ == items@[i as int]@;
                assert(m[k] == items@[i as int]@);
                assert(m.contains(items@[i as int]@));
            } else {
                assert forall|k: int| 0 <= k < m.len() implies m[k] != items@[i as int]@ by {
                    assert(m[k] == list@[k]@);
                }
                assert(!m.contains(items@[i as int]@));
            }
        }
        if !held {
            let ghost before = list@;
            list.push(String::from_str(items[i].as_str()));
            proof {
                assert(texts(list@) =~= texts(before).push(items@[i as int]@));
            }
        }
        i = i + 1;
    }
    proof {
        assert(texts(items@).take(i as int) == texts(items@));
    }
}

/// Adds the card's name to an entity's aliases when it differs from the entity's
/// name and from every alias, case ignored.
pub fn add_name_as_alias(aliases: &mut Vec<String>, name: &str, existing_name: &str)
    ensures
        texts(final(aliases)@) == if lowercase(name@) != lowercase(existing_name@)
            && !has_ignoring_case(texts(old(aliases)@), name@) {
            texts(old(aliases)@).push(name@)
        } else {
            texts(old(aliases)@)
        },
{
    let ln = to_lowercase(name);
    let le = to_lowercase(existing_name);
    if str_eq(ln.as_str(), le.as_str()) {
        return;
    }
    let lx = chars_of(ln.as_str());
    let held = holds_lowered(aliases, &lx);
    proof {
        let m = texts(aliases@);
        if held {
            let k = choose|k: int| 0 <= k < aliases@.len() && lowercase(#[trigger] aliases@[k]@) == lx@;
            assert(m[k] == aliases@[k]@);
            assert(has_ignoring_case(m, name@));
        } else {
            assert forall|k: int| 0 <= k < m.len() implies lowercase(#[trigger] m[k]) != lowercase(
                name@,
            ) by {
                assert(m[k] == aliases@[k]@);
            }
        }
    }
    if !held {
        let ghost before = aliases@;
        aliases.push(String::from_str(name));
        proof {
            assert(texts(aliases@) =~= texts(before).push(name@));
        }
    }
}


/// The kinds of entity a knowledge card can be accepted as.
#[derive(Debug, Clone, Copy, PartialEq, Eq)]
pub enum EntityKind {
    Character,
    Setting,
    Event,
}

/// The kind of entity a card of the given knowledge type becomes; any other type
/// is refused with a message that names it.
pub open spec fn entity_kind_of(knowledge_type: Seq<char>) -> Result<EntityKind, Seq<char>> {
    if knowledge_type == "character"@ {
        Ok(EntityKind::Character)
    } else if knowledge_type == "setting"@ {
        Ok(EntityKind::Setting)
    } else if knowledge_type == "event"@ {
        Ok(EntityKind::Event)
    } else {
        Err("Unknown knowledge type: "@ + knowledge_type)
    }
}

/// Reads the kind of entity a card is accepted or merged as.
pub fn card_entity_kind(knowledge_type: &str) -> (res: Result<EntityKind, String>)
    ensures
        match res {
            Ok(k) => entity_kind_of(knowledge_type@) == Ok::<EntityKind, Seq<char>>(k),
            Err(m) => entity_kind_of(knowledge_type@) == Err::<EntityKind, Seq<char>>(m@),
        },
{
    if str_eq(knowledge_type, "character") {
        Ok(EntityKind::Character)
    } else if str_eq(knowledge_type, "setting") {
        Ok(EntityKind::Setting)
    } else if str_eq(knowledge_type, "event") {
        Ok(EntityKind::Event)
    } else {
        let mut v = crate::text::chars_of("Unknown knowledge type: ");
        crate::text::append_chars(&mut v, crate::text::chars_of(knowledge_type).as_slice());
        Err(crate::text::string_of(v.as_slice()))
    }
}


/// Finds the card to accept or merge among the pending cards (given by id, in
/// order): the first with that id, else an error naming the id.
pub fn find_pending_card(pending_ids: &Vec<String>, card_id: &str) -> (res: Result<usize, String>)
    ensures
        match res {
            Ok(k) => k < pending_ids@.len() && pending_ids@[k as int]@ == card_id@ && forall|j: int|
                0 <= j < k ==> pending_ids@[j]@ != card_id@,
            Err(m) => (forall|j: int| 0 <= j < pending_ids@.len() ==> pending_ids@[j]@ != card_id@) && m@
                == "Card not found: "@ + card_id@,
        },
{
    let mut i: usize = 0;
    while i < pending_ids.len()
        invariant
            i <= pending_ids@.len(),
            forall|j: int| 0 <= j < i ==> pending_ids@[j]@ != card_id@,
        decreases pending_ids.len() - i,
    {
        if str_eq(pending_ids[i].as_str(), card_id) {
            return Ok(i);
        }
        i = i + 1;
    }
    let mut v = crate::text::chars_of("Card not found: ");
    crate::text::append_chars(&mut v, crate::text::chars_of(card_id).as_slice());
    Err(crate::text::string_of(v.as_slice()))
}

/// The fields of a pending card made from what an analysis agent extracted.
pub struct ExtractedCardFields {
    pub title: String,
    pub confidence: String,
    /// The setting's type, for a setting card.
    pub setting_type: Option<String>,
}

pub open spec fn or_text(o: Option<String>, fallback: Seq<char>) -> Seq<char> {
    match o {
        Some(s) => s@,
        None => fallback,
    }
}

/// The title, confidence and setting type of a card extracted from a chapter: the
/// title is the name, else the title the agent gave (for an event the title first,
/// then the name), else empty; the confidence is `medium` where none was given; a
/// setting's type is `location` where none was given.
pub fn extracted_card_fields(
    kind: EntityKind,
    name: &Option<String>,
    title: &Option<String>,
    confidence: &Option<String>,
    setting_type: &Option<String>,
) -> (res: ExtractedCardFields)
    ensures
        res.title@ == (match kind {
            EntityKind::Event => match title {
                Some(t) => t@,
                None => or_text(*name, Seq::empty()),
            },
            _ => match name {
                Some(n) => n@,
                None => or_text(*title, Seq::empty()),
            },
        }),
        res.confidence@ == or_text(*confidence, "medium"@),
        match kind {
            EntityKind::Setting => res.setting_type is Some && res.setting_type.unwrap()@ == or_text(
                *setting_type,
                "location"@,
            ),
            _ => res.setting_type is None,
        },
{
    let copy = |s: &String| -> (r: String)
        ensures
            r@ == s@,
        { crate::text::string_of(crate::text::chars_of(s.as_str()).as_slice()) };
    let (first, second) = match kind {
        EntityKind::Event => (title, name),
        _ => (name, title),
    };
    let t = match first {
        Some(x) => copy(x),
        None => match second {
            Some(y) => copy(y),
            None => String::new(),
        },
    };
    let c = match confidence {
        Some(x) => copy(x),
        None => String::from_str("medium"),
    };
    let st = match kind {
        EntityKind::Setting => match setting_type {
            Some(x) => Some(copy(x)),
            None => Some(String::from_str("location")),
        },
        _ => None,
    };
    ExtractedCardFields { title: t, confidence: c, setting_type: st }
}


// ---------------------------------------------------------------------------
// Structured descriptions on a card
// ---------------------------------------------------------------------------

/// An aspect of a structured description: a character's appearance, personality,
/// background, abilities, goals and status, or a setting's physical form,
/// atmosphere, history, function, rules, inhabitants and status.
#[derive(Debug, Clone, Copy, PartialEq, Eq, Structural)]
pub enum DescriptionAspect {
    Appearance,
    Personality,
    Background,
    Abilities,
    Goals,
    Physical,
    Atmosphere,
    History,
    Function,
    Rules,
    Inhabitants,
    Status,
}

/// One aspect of a structured description, with the chapter it was read from.
pub struct DescriptionNote {
    pub aspect: DescriptionAspect,
    pub text: String,
    pub chapter_id: String,
    pub chapter_index: u32,
}

/// The string fields of a character card's `description_structured` object.
pub struct CharacterDescriptionFields {
    pub appearance: Option<String>,
    pub personality: Option<String>,
    pub background: Option<String>,
    pub abilities: Option<String>,
    pub goals: Option<String>,
    pub status: Option<String>,
}

/// The string fields of a setting card's `description_structured` object.
pub struct SettingDescriptionFields {
    pub physical: Option<String>,
    pub atmosphere: Option<String>,
    pub history: Option<String>,
    pub function: Option<String>,
    pub rules: Option<String>,
    pub inhabitants: Option<String>,
    pub status: Option<String>,
}

pub open spec fn note_view(n: DescriptionNote) -> (DescriptionAspect, Seq<char>, Seq<char>, u32) {
    (n.aspect, n.text@, n.chapter_id@, n.chapter_index)
}

pub open spec fn notes_view(v: Seq<DescriptionNote>) -> Seq<(DescriptionAspect, Seq<char>, Seq<char>, u32)> {
    v.map_values(|n: DescriptionNote| note_view(n))
}

/// The note for aspect `a` where its text is given and not empty.
pub open spec fn note_if(a: DescriptionAspect, o: Option<String>, ch: Seq<char>, idx: u32) -> Seq<
    (DescriptionAspect, Seq<char>, Seq<char>, u32),
> {
    match o {
        Some(t) => if t@.len() > 0 {
            seq![(a, t@, ch, idx)]
        } else {
            Seq::empty()
        },
        None => Seq::empty(),
    }
}

/// A character's notes: appearance, personality, background, abilities, goals and
/// status, in that order, each where its text is given and not empty.
pub open spec fn character_notes(f: CharacterDescriptionFields, ch: Seq<char>, idx: u32) -> Seq<
    (DescriptionAspect, Seq<char>, Seq<char>, u32),
> {
    note_if(DescriptionAspect::Appearance, f.appearance, ch, idx) + note_if(DescriptionAspect::Personality, f.personality, ch, idx)
        + note_if(DescriptionAspect::Background, f.background, ch, idx) + note_if(DescriptionAspect::Abilities, f.abilities, ch, idx)
        + note_if(DescriptionAspect::Goals, f.goals, ch, idx) + note_if(DescriptionAspect::Status, f.status, ch, idx)
}

/// A setting's notes: physical form, atmosphere, history, function, rules,
/// inhabitants and status, in that order, each where its text is given and not empty.
pub open spec fn setting_notes(f: SettingDescriptionFields, ch: Seq<char>, idx: u32) -> Seq<
    (DescriptionAspect, Seq<char>, Seq<char>, u32),
> {
    note_if(DescriptionAspect::Physical, f.physical, ch, idx) + note_if(DescriptionAspect::Atmosphere, f.atmosphere, ch, idx)
        + note_if(DescriptionAspect::History, f.history, ch, idx) + note_if(DescriptionAspect::Function, f.function, ch, idx)
        + note_if(DescriptionAspect::Rules, f.rules, ch, idx) + note_if(DescriptionAspect::Inhabitants, f.inhabitants, ch, idx)
        + note_if(DescriptionAspect::Status, f.status, ch, idx)
}

fn push_note(notes: &mut Vec<DescriptionNote>, a: DescriptionAspect, o: &Option<String>, ch: &str, idx: u32)
    ensures
        notes_view(final(notes)@) == notes_view(old(notes)@) + note_if(a, *o, ch@, idx),
{
    let ghost before = notes_view(notes@);
    match o {
        Some(t) => {
            if crate::text::chars_of(t.as_str()).len() > 0 {
                notes.push(DescriptionNote {
                    aspect: a,
                    text: crate::text::string_of(crate::text::chars_of(t.as_str()).as_slice()),
                    chapter_id: crate::text::string_of(crate::text::chars_of(ch).as_slice()),
                    chapter_index: idx,
                });
                assert(notes_view(notes@) =~= before + note_if(a, *o, ch@, idx));
            } else {
                assert(notes_view(notes@) =~= before + note_if(a, *o, ch@, idx));
            }
        },
        None => {
            assert(notes_view(notes@) =~= before + note_if(a, *o, ch@, idx));
        },
    }
}

/// The notes of a character card's structured description, read from chapter
/// `chapter_id` (number `chapter_index`); nothing where the card has none.
pub fn character_description_notes(
    fields: &Option<CharacterDescriptionFields>,
    chapter_id: &str,
    chapter_index: u32,
) -> (res: Option<Vec<DescriptionNote>>)
    ensures
        match fields {
            None => res is None,
            Some(f) => res is Some && notes_view(res.unwrap()@) == character_notes(*f, chapter_id@, chapter_index),
        },
{
    match fields {
        None => None,
        Some(f) => {
            let mut notes: Vec<DescriptionNote> = Vec::new();
            assert(notes_view(notes@) =~= Seq::empty());
            push_note(&mut notes, DescriptionAspect::Appearance, &f.appearance, chapter_id, chapter_index);
            push_note(&mut notes, DescriptionAspect::Personality, &f.personality, chapter_id, chapter_index);
            push_note(&mut notes, DescriptionAspect::Background, &f.background, chapter_id, chapter_index);
            push_note(&mut notes, DescriptionAspect::Abilities, &f.abilities, chapter_id, chapter_index);
            push_note(&mut notes, DescriptionAspect::Goals, &f.goals, chapter_id, chapter_index);
            push_note(&mut notes, DescriptionAspect::Status, &f.status, chapter_id, chapter_index);
            assert(notes_view(notes@) =~= character_notes(*f, chapter_id@, chapter_index));
            Some(notes)
        },
    }
}

/// The notes of a setting card's structured description, read from chapter
/// `chapter_id` (number `chapter_index`); nothing where the card has none.
pub fn setting_description_notes(
    fields: &Option<SettingDescriptionFields>,
    chapter_id: &str,
    chapter_index: u32,
) -> (res: Option<Vec<DescriptionNote>>)
    ensures
        match fields {
            None => res is None,
            Some(f) => res is Some && notes_view(res.unwrap()@) == setting_notes(*f, chapter_id@, chapter_index),
        },
{
    match fields {
        None => None,
        Some(f) => {
            let mut notes: Vec<DescriptionNote> = Vec::new();
            assert(notes_view(notes@) =~= Seq::empty());
            push_note(&mut notes, DescriptionAspect::Physical, &f.physical, chapter_id, chapter_index);
            push_note(&mut notes, DescriptionAspect::Atmosphere, &f.atmosphere, chapter_id, chapter_index);
            push_note(&mut notes, DescriptionAspect::History, &f.history, chapter_id, chapter_index);
            push_note(&mut notes, DescriptionAspect::Function, &f.function, chapter_id, chapter_index);
            push_note(&mut notes, DescriptionAspect::Rules, &f.rules, chapter_id, chapter_index);
            push_note(&mut notes, DescriptionAspect::Inhabitants, &f.inhabitants, chapter_id, chapter_index);
            push_note(&mut notes, DescriptionAspect::Status, &f.status, chapter_id, chapter_index);
            assert(notes_view(notes@) =~= setting_notes(*f, chapter_id@, chapter_index));
            Some(notes)
        },
    }
}

} // verus!
