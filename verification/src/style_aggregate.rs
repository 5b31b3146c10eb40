//! Aggregating the style observations of a book's chapters into one profile: the
//! value most often observed for each enumerated field, the latest description of
//! each described field, the items of each list by frequency, and the first sample
//! passages.
use vstd::prelude::*;
use crate::analysis::{by_count, first_max, index_of_value, tally_sum, EnumFieldStats};
use crate::inbox::texts;
use crate::text::{chars_of, str_eq, string_of};

verus! {

/// A chapter's style observation as the aggregation reads it.
pub struct StyleObservation {
    /// Each field of a section whose value is a string: section, field, value.
    pub strings: Vec<(String, String, String)>,
    /// Each list: its section (none for a list at the top level), its field, and its
    /// items that are strings.
    pub lists: Vec<(Option<String>, String, Vec<String>)>,
    /// The sample passages, each as JSON text.
    pub samples: Vec<String>,
    /// Whether the observation has an `emotional_expression` section.
    pub has_emotional_expression: bool,
}

/// The aggregated style of a book.
pub struct AggregatedStyle {
    /// For each enumerated field with values, in the order of the fields: section,
    /// field, the value observed most often, its count, and the number of values.
    pub enum_fields: Vec<(String, String, String, u32, u32)>,
    /// For each described field with a description: section, field, the latest one.
    pub descriptions: Vec<(String, String, String)>,
    /// For each list met in any observation: section, field, and its items ordered by
    /// frequency, at most the list's limit.
    pub lists: Vec<(Option<String>, String, Vec<String>)>,
    /// The first ten sample passages, each with the number of its chapter (from 1).
    pub samples: Vec<(usize, String)>,
}

// ---------------------------------------------------------------------------
// The fields aggregated
// ---------------------------------------------------------------------------

/// The enumerated fields (section and field), in order.
pub open spec fn enum_config() -> Seq<(Seq<char>, Seq<char>)> {
    seq![
        ("vocabulary"@, "formality_level"@),
        ("sentence_structure"@, "typical_length"@),
        ("sentence_structure"@, "complexity_level"@),
        ("narrative_voice"@, "perspective"@),
        ("narrative_voice"@, "tense"@),
        ("narrative_voice"@, "intrusion_level"@),
        ("narrative_voice"@, "reliability"@),
        ("dialogue_style"@, "dialogue_proportion"@),
        ("description_style"@, "detail_level"@),
        ("pacing"@, "overall_tempo"@),
        ("emotional_expression"@, "show_vs_tell"@),
        ("emotional_expression"@, "emotional_restraint"@),
    ]
}

/// The described fields (section and field), in order.
pub open spec fn desc_config() -> Seq<(Seq<char>, Seq<char>)> {
    seq![
        ("vocabulary"@, "vocabulary_tendencies"@),
        ("vocabulary"@, "word_choice_patterns"@),
        ("vocabulary"@, "period_markers"@),
        ("sentence_structure"@, "rhythm_patterns"@),
        ("sentence_structure"@, "punctuation_style"@),
        ("sentence_structure"@, "paragraph_structure"@),
        ("narrative_voice"@, "narrator_characteristics"@),
        ("dialogue_style"@, "dialogue_tags"@),
        ("dialogue_style"@, "speech_rhythm"@),
        ("dialogue_style"@, "character_voice_differentiation"@),
        ("dialogue_style"@, "subtext_usage"@),
        ("description_style"@, "metaphor_usage"@),
        ("description_style"@, "imagery_patterns"@),
        ("pacing"@, "scene_transitions"@),
        ("pacing"@, "tension_building"@),
        ("pacing"@, "action_vs_reflection_balance"@),
        ("emotional_expression"@, "dominant_mood"@),
        ("emotional_expression"@, "mood_range"@),
        ("emotional_expression"@, "atmosphere_techniques"@),
        ("thematic_elements"@, "symbolic_patterns"@),
    ]
}

/// The lists (section, field, limit), in order.
pub open spec fn list_config() -> Seq<(Option<Seq<char>>, Seq<char>, nat)> {
    seq![
        (None, "key_observations"@, 20nat),
        (None, "notable_techniques"@, 15nat),
        (Some("vocabulary"@), "distinctive_vocabulary"@, 30nat),
        (Some("description_style"@), "sensory_preferences"@, 10nat),
        (Some("description_style"@), "metaphor_examples"@, 15nat),
        (Some("thematic_elements"@), "recurring_motifs"@, 15nat),
        (Some("thematic_elements"@), "thematic_concerns"@, 15nat),
    ]
}

// ---------------------------------------------------------------------------
// Reading one observation
// ---------------------------------------------------------------------------

/// The string value of `section.field`.
pub open spec fn str_field(strings: Seq<(String, String, String)>, sec: Seq<char>, f: Seq<char>) -> Option<
    Seq<char>,
>
    decreases strings.len(),
{
    if strings.len() == 0 {
        None
    } else if strings[0].0@ == sec && strings[0].1@ == f {
        Some(strings[0].2@)
    } else {
        str_field(strings.drop_first(), sec, f)
    }
}

pub open spec fn opt_section(o: Option<String>) -> Option<Seq<char>> {
    match o {
        Some(s) => Some(s@),
        None => None,
    }
}

/// The string items of a list.
pub open spec fn list_field(
    lists: Seq<(Option<String>, String, Vec<String>)>,
    sec: Option<Seq<char>>,
    f: Seq<char>,
) -> Option<Seq<Seq<char>>>
    decreases lists.len(),
{
    if lists.len() == 0 {
        None
    } else if opt_section(lists[0].0) == sec && lists[0].1@ == f {
        Some(texts(lists[0].2@))
    } else {
        list_field(lists.drop_first(), sec, f)
    }
}

/// An observation without an `emotional_expression` section gives the emotional
/// restraint of its older `emotional_tone` section.
pub open spec fn is_restraint(sec: Seq<char>, f: Seq<char>) -> bool {
    sec == "emotional_expression"@ && f == "emotional_restraint"@
}

/// An observation without an `emotional_expression` section gives the mood, mood range
/// and atmosphere of its older `emotional_tone` section.
pub open spec fn is_tone_description(sec: Seq<char>, f: Seq<char>) -> bool {
    sec == "emotional_expression"@ && (f == "dominant_mood"@ || f == "mood_range"@ || f
        == "atmosphere_techniques"@)
}

pub open spec fn opt_seq(o: Option<Seq<char>>) -> Seq<Seq<char>> {
    match o {
        Some(v) => seq![v],
        None => Seq::<Seq<char>>::empty(),
    }
}

/// The values that an observation gives an enumerated field.
pub open spec fn observation_values(o: StyleObservation, sec: Seq<char>, f: Seq<char>) -> Seq<Seq<char>> {
    opt_seq(str_field(o.strings@, sec, f)) + if is_restraint(sec, f) && !o.has_emotional_expression {
        opt_seq(str_field(o.strings@, "emotional_tone"@, f))
    } else {
        Seq::<Seq<char>>::empty()
    }
}

/// The description an observation gives a described field: a nonempty value, or
/// (without an `emotional_expression` section) the older `emotional_tone` value.
pub open spec fn observation_description(o: StyleObservation, sec: Seq<char>, f: Seq<char>) -> Option<Seq<char>> {
    let own = match str_field(o.strings@, sec, f) {
        Some(v) => if v.len() > 0 {
            Some(v)
        } else {
            None
        },
        None => None,
    };
    if is_tone_description(sec, f) && !o.has_emotional_expression {
        match str_field(o.strings@, "emotional_tone"@, f) {
            Some(v) => Some(v),
            None => own,
        }
    } else {
        own
    }
}

// ---------------------------------------------------------------------------
// Across observations
// ---------------------------------------------------------------------------

/// The values of an enumerated field over the observations, in order.
pub open spec fn enum_values(obs: Seq<StyleObservation>, sec: Seq<char>, f: Seq<char>) -> Seq<Seq<char>>
    decreases obs.len(),
{
    if obs.len() == 0 {
        Seq::<Seq<char>>::empty()
    } else {
        enum_values(obs.drop_last(), sec, f) + observation_values(obs.last(), sec, f)
    }
}

/// A value counted in a tally.
pub open spec fn tally_add(t: Seq<(Seq<char>, nat)>, v: Seq<char>) -> Seq<(Seq<char>, nat)> {
    match index_of_value(t, v) {
        Some(i) => t.update(i, (v, t[i].1 + 1)),
        None => t.push((v, 1nat)),
    }
}

/// The tally of values, in the order first seen.
pub open spec fn tally_of(t: Seq<(Seq<char>, nat)>, vs: Seq<Seq<char>>) -> Seq<(Seq<char>, nat)>
    decreases vs.len(),
{
    if vs.len() == 0 {
        t
    } else {
        tally_add(tally_of(t, vs.drop_last()), vs.last())
    }
}

/// The latest description of a described field.
pub open spec fn latest_description(obs: Seq<StyleObservation>, sec: Seq<char>, f: Seq<char>) -> Option<Seq<char>>
    decreases obs.len(),
{
    if obs.len() == 0 {
        None
    } else {
        match observation_description(obs.last(), sec, f) {
            Some(v) => Some(v),
            None => latest_description(obs.drop_last(), sec, f),
        }
    }
}

/// The tally of a list's items over the observations, where any observation has it.
pub open spec fn list_tally(obs: Seq<StyleObservation>, sec: Option<Seq<char>>, f: Seq<char>) -> Option<
    Seq<(Seq<char>, nat)>,
>
    decreases obs.len(),
{
    if obs.len() == 0 {
        None
    } else {
        let prev = list_tally(obs.drop_last(), sec, f);
        match list_field(obs.last().lists@, sec, f) {
            Some(items) => Some(
                tally_of(
                    match prev {
                        Some(t) => t,
                        None => Seq::<(Seq<char>, nat)>::empty(),
                    },
                    items,
                ),
            ),
            None => prev,
        }
    }
}

/// The sample passages of the observations, each with its chapter number.
pub open spec fn all_samples(obs: Seq<StyleObservation>) -> Seq<(nat, Seq<char>)>
    decreases obs.len(),
{
    if obs.len() == 0 {
        Seq::<(nat, Seq<char>)>::empty()
    } else {
        all_samples(obs.drop_last()) + texts(obs.last().samples@).map_values(
            |s: Seq<char>| (obs.len(), s),
        )
    }
}

// ---------------------------------------------------------------------------
// The aggregate
// ---------------------------------------------------------------------------

pub type EnumEntry = (Seq<char>, Seq<char>, Seq<char>, nat, nat);

/// The entry of an enumerated field where it has values: its most frequent value (the
/// first seen among equally frequent ones), that value's count, and the number of values.
pub open spec fn enum_entry(obs: Seq<StyleObservation>, k: (Seq<char>, Seq<char>)) -> Seq<EnumEntry> {
    let vs = enum_values(obs, k.0, k.1);
    let t = tally_of(Seq::empty(), vs);
    if t.len() > 0 {
        seq![(k.0, k.1, t[first_max(t)].0, t[first_max(t)].1, vs.len())]
    } else {
        Seq::<EnumEntry>::empty()
    }
}

pub open spec fn enum_entries(obs: Seq<StyleObservation>, ks: Seq<(Seq<char>, Seq<char>)>) -> Seq<EnumEntry>
    decreases ks.len(),
{
    if ks.len() == 0 {
        Seq::<EnumEntry>::empty()
    } else {
        enum_entries(obs, ks.drop_last()) + enum_entry(obs, ks.last())
    }
}

pub open spec fn desc_entries(obs: Seq<StyleObservation>, ks: Seq<(Seq<char>, Seq<char>)>) -> Seq<
    (Seq<char>, Seq<char>, Seq<char>),
>
    decreases ks.len(),
{
    if ks.len() == 0 {
        Seq::empty()
    } else {
        desc_entries(obs, ks.drop_last()) + match latest_description(obs, ks.last().0, ks.last().1) {
            Some(d) => seq![(ks.last().0, ks.last().1, d)],
            None => Seq::empty(),
        }
    }
}

/// At most `n` of a list.
pub open spec fn at_most<A>(s: Seq<A>, n: nat) -> Seq<A> {
    if n < s.len() {
        s.take(n as int)
    } else {
        s
    }
}

pub open spec fn list_entries(
    obs: Seq<StyleObservation>,
    ks: Seq<(Option<Seq<char>>, Seq<char>, nat)>,
) -> Seq<(Option<Seq<char>>, Seq<char>, Seq<Seq<char>>)>
    decreases ks.len(),
{
    if ks.len() == 0 {
        Seq::empty()
    } else {
        let k = ks.last();
        list_entries(obs, ks.drop_last()) + match list_tally(obs, k.0, k.1) {
            Some(t) => seq![(k.0, k.1, at_most(by_count(t), k.2).map_values(|e: (Seq<char>, nat)| e.0))],
            None => Seq::empty(),
        }
    }
}

pub open spec fn enum_view(v: Seq<(String, String, String, u32, u32)>) -> Seq<EnumEntry> {
    v.map_values(|e: (String, String, String, u32, u32)| (e.0@, e.1@, e.2@, e.3 as nat, e.4 as nat))
}

pub open spec fn desc_view(v: Seq<(String, String, String)>) -> Seq<(Seq<char>, Seq<char>, Seq<char>)> {
    v.map_values(|e: (String, String, String)| (e.0@, e.1@, e.2@))
}

pub open spec fn list_view(v: Seq<(Option<String>, String, Vec<String>)>) -> Seq<
    (Option<Seq<char>>, Seq<char>, Seq<Seq<char>>),
> {
    v.map_values(|e: (Option<String>, String, Vec<String>)| (opt_section(e.0), e.1@, texts(e.2@)))
}

pub open spec fn sample_view(v: Seq<(usize, String)>) -> Seq<(nat, Seq<char>)> {
    v.map_values(|e: (usize, String)| (e.0 as nat, e.1@))
}

/// The number of list items over all observations.
pub open spec fn list_items_total(obs: Seq<StyleObservation>) -> nat
    decreases obs.len(),
{
    if obs.len() == 0 {
        0
    } else {
        list_items_total(obs.drop_last()) + items_in(obs.last().lists@)
    }
}

pub open spec fn items_in(lists: Seq<(Option<String>, String, Vec<String>)>) -> nat
    decreases lists.len(),
{
    if lists.len() == 0 {
        0
    } else {
        items_in(lists.drop_last()) + lists.last().2@.len()
    }
}

// ---------------------------------------------------------------------------
// Computing the aggregate
// ---------------------------------------------------------------------------

fn copy_text(s: &str) -> (res: String)
    ensures
        res@ == s@,
{
    string_of(chars_of(s).as_slice())
}

fn str_field_of<'a>(strings: &'a Vec<(String, String, String)>, sec: &str, f: &str) -> (res: Option<&'a String>)
    ensures
        match res {
            Some(v) => str_field(strings@, sec@, f@) == Some(v@),
            None => str_field(strings@, sec@, f@) is None,
        },
{
    let mut i: usize = 0;
    proof {
        assert(strings@.skip(0) == strings@);
    }
    while i < strings.len()
        invariant
            i <= strings@.len(),
            str_field(strings@, sec@, f@) == str_field(strings@.skip(i as int), sec@, f@),
        decreases strings.len() - i,
    {
        proof {
            assert(strings@.skip(i as int)[0] == strings@[i as int]);
            assert(strings@.skip(i as int).drop_first() == strings@.skip(i + 1));
        }
        if str_eq(strings[i].0.as_str(), sec) && str_eq(strings[i].1.as_str(), f) {
            return Some(&strings[i].2);
        }
        i = i + 1;
    }
    None
}

fn same_section(a: &Option<String>, b: Option<&str>) -> (res: bool)
    ensures
        res == (opt_section(*a) == match b {
            Some(s) => Some(s@),
            None => None::<Seq<char>>,
        }),
{
    match (a, b) {
        (Some(x), Some(y)) => str_eq(x.as_str(), y),
        (None, None) => true,
        _ => false,
    }
}

pub open spec fn opt_str(o: Option<&str>) -> Option<Seq<char>> {
    match o {
        Some(s) => Some(s@),
        None => None,
    }
}

proof fn lemma_list_field_len(
    lists: Seq<(Option<String>, String, Vec<String>)>,
    sec: Option<Seq<char>>,
    f: Seq<char>,
)
    ensures
        list_field(lists, sec, f) matches Some(items) ==> items.len() <= items_in(lists),
    decreases lists.len(),
{
    if lists.len() > 0 {
        lemma_list_field_len(lists.drop_first(), sec, f);
        lemma_items_in_first(lists);
    }
}

proof fn lemma_items_in_first(lists: Seq<(Option<String>, String, Vec<String>)>)
    requires
        lists.len() > 0,
    ensures
        items_in(lists) == lists[0].2@.len() + items_in(lists.drop_first()),
    decreases lists.len(),
{
    if lists.len() > 1 {
        lemma_items_in_first(lists.drop_last());
        assert(lists.drop_last().drop_first() =~= lists.drop_first().drop_last());
        assert(lists.drop_first().last() == lists.last());
        assert(lists.drop_last()[0] == lists[0]);
        assert(items_in(lists.drop_first()) == items_in(lists.drop_first().drop_last())
            + lists.drop_first().last().2@.len());
    } else {
        assert(lists.drop_last().len() == 0);
        assert(lists.drop_first().len() == 0);
        assert(items_in(lists.drop_last()) == 0);
        assert(items_in(lists.drop_first()) == 0);
        assert(lists.last() == lists[0]);
    }
}

fn list_field_of<'a>(lists: &'a Vec<(Option<String>, String, Vec<String>)>, sec: Option<&str>, f: &str) -> (res:
    Option<&'a Vec<String>>)
    ensures
        match res {
            Some(v) => list_field(lists@, opt_str(sec), f@) == Some(texts(v@)),
            None => list_field(lists@, opt_str(sec), f@) is None,
        },
{
    let mut i: usize = 0;
    proof {
        assert(lists@.skip(0) == lists@);
    }
    while i < lists.len()
        invariant
            i <= lists@.len(),
            list_field(lists@, opt_str(sec), f@) == list_field(lists@.skip(i as int), opt_str(sec), f@),
        decreases lists.len() - i,
    {
        proof {
            assert(lists@.skip(i as int)[0] == lists@[i as int]);
            assert(lists@.skip(i as int).drop_first() == lists@.skip(i + 1));
        }
        if same_section(&lists[i].0, sec) && str_eq(lists[i].1.as_str(), f) {
            return Some(&lists[i].2);
        }
        i = i + 1;
    }
    None
}

fn push_field_value(out: &mut Vec<String>, strings: &Vec<(String, String, String)>, sec: &str, f: &str)
    ensures
        texts(final(out)@) == texts(old(out)@) + opt_seq(str_field(strings@, sec@, f@)),
        final(out)@.len() <= old(out)@.len() + 1,
{
    let ghost before = out@;
    match str_field_of(strings, sec, f) {
        Some(v) => {
            out.push(copy_text(v.as_str()));
            assert(texts(out@) =~= texts(before) + seq![v@]);
        },
        None => {
            assert(texts(out@) =~= texts(before) + Seq::<Seq<char>>::empty());
        },
    }
}

fn push_observation_values(out: &mut Vec<String>, o: &StyleObservation, sec: &str, f: &str)
    ensures
        texts(final(out)@) == texts(old(out)@) + observation_values(*o, sec@, f@),
        final(out)@.len() <= old(out)@.len() + 2,
{
    let ghost start = texts(out@);
    push_field_value(out, &o.strings, sec, f);
    let ghost mid = texts(out@);
    if str_eq(sec, "emotional_expression") && str_eq(f, "emotional_restraint") && !o.has_emotional_expression {
        push_field_value(out, &o.strings, "emotional_tone", f);
        assert(texts(out@) =~= start + observation_values(*o, sec@, f@));
    } else {
        assert(texts(out@) =~= start + observation_values(*o, sec@, f@));
    }
}

fn enum_values_of(obs: &Vec<StyleObservation>, sec: &str, f: &str) -> (res: Vec<String>)
    ensures
        texts(res@) == enum_values(obs@, sec@, f@),
        res@.len() <= 2 * obs@.len(),
{
    let mut out: Vec<String> = Vec::new();
    let mut i: usize = 0;
    assert(texts(out@) =~= enum_values(obs@.take(0), sec@, f@));
    while i < obs.len()
        invariant
            i <= obs@.len(),
            texts(out@) == enum_values(obs@.take(i as int), sec@, f@),
            out@.len() <= 2 * i,
        decreases obs.len() - i,
    {
        proof {
            assert(obs@.take(i + 1).drop_last() =~= obs@.take(i as int));
            assert(obs@.take(i + 1).last() == obs@[i as int]);
        }
        push_observation_values(&mut out, &obs[i], sec, f);
        i = i + 1;
    }
    assert(obs@.take(i as int) =~= obs@);
    out
}

fn add_all(stats: &mut EnumFieldStats, vs: &Vec<String>)
    requires
        old(stats).wf(),
        old(stats).total_count() + vs@.len() < u32::MAX,
    ensures
        final(stats).wf(),
        final(stats).entries() == tally_of(old(stats).entries(), texts(vs@)),
        final(stats).total_count() == old(stats).total_count() + vs@.len(),
{
    let ghost t0 = stats.entries();
    let ghost n0 = stats.total_count();
    let mut i: usize = 0;
    assert(texts(vs@).take(0) =~= Seq::<Seq<char>>::empty());
    while i < vs.len()
        invariant
            i <= vs@.len(),
            stats.wf(),
            n0 + vs@.len() < u32::MAX,
            stats.entries() == tally_of(t0, texts(vs@).take(i as int)),
            stats.total_count() == n0 + i,
        decreases vs.len() - i,
    {
        proof {
            assert(texts(vs@).take(i + 1).drop_last() =~= texts(vs@).take(i as int));
            assert(texts(vs@).take(i + 1).last() == vs@[i as int]@);
        }
        stats.add(vs[i].as_str());
        i = i + 1;
    }
    assert(texts(vs@).take(i as int) =~= texts(vs@));
}

fn enum_entry_of(obs: &Vec<StyleObservation>, sec: &str, f: &str, out: &mut Vec<(String, String, String, u32, u32)>)
    requires
        obs@.len() < 0x8000_0000,
    ensures
        enum_view(final(out)@) == enum_view(old(out)@) + enum_entry(obs@, (sec@, f@)),
{
    let vs = enum_values_of(obs, sec, f);
    let mut stats = EnumFieldStats::new();
    proof {
        assert(stats.entries() =~= Seq::<(Seq<char>, nat)>::empty());
    }
    add_all(&mut stats, &vs);
    let ghost t = stats.entries();
    let ghost before = out@;
    match stats.get_value() {
        Some(v) => {
            let m = stats.max_count();
            let total = stats.total();
            proof {
                crate::analysis::lemma_first_max_bound(t);
                let fm = first_max(t);
                let k = choose|k: int| 0 <= k < t.len() && #[trigger] t[k].1 == m;
                assert(t[k].1 <= t[fm].1);
                assert(t[fm].1 <= m);
            }
            out.push((copy_text(sec), copy_text(f), v, m, total));
            proof {
                assert(enum_view(out@) =~= enum_view(before).push((sec@, f@, t[first_max(t)].0, t[first_max(t)].1, vs@.len())));
            }
        },
        None => {
            assert(enum_view(out@) =~= enum_view(before) + Seq::<EnumEntry>::empty());
        },
    }
}

fn observation_description_of(o: &StyleObservation, sec: &str, f: &str) -> (res: Option<String>)
    ensures
        match res {
            Some(v) => observation_description(*o, sec@, f@) == Some(v@),
            None => observation_description(*o, sec@, f@) is None,
        },
{
    let own = match str_field_of(&o.strings, sec, f) {
        Some(v) => if chars_of(v.as_str()).len() > 0 {
            Some(copy_text(v.as_str()))
        } else {
            None
        },
        None => None,
    };
    let tone = str_eq(sec, "emotional_expression") && (str_eq(f, "dominant_mood") || str_eq(f, "mood_range") || str_eq(
        f,
        "atmosphere_techniques",
    ));
    if tone && !o.has_emotional_expression {
        match str_field_of(&o.strings, "emotional_tone", f) {
            Some(v) => Some(copy_text(v.as_str())),
            None => own,
        }
    } else {
        own
    }
}

fn desc_entry_of(obs: &Vec<StyleObservation>, sec: &str, f: &str, out: &mut Vec<(String, String, String)>)
    ensures
        desc_view(final(out)@) == desc_view(old(out)@) + match latest_description(obs@, sec@, f@) {
            Some(d) => seq![(sec@, f@, d)],
            None => Seq::<(Seq<char>, Seq<char>, Seq<char>)>::empty(),
        },
{
    let mut cur: Option<String> = None;
    let mut i: usize = 0;
    while i < obs.len()
        invariant
            i <= obs@.len(),
            match cur {
                Some(v) => latest_description(obs@.take(i as int), sec@, f@) == Some(v@),
                None => latest_description(obs@.take(i as int), sec@, f@) is None,
            },
        decreases obs.len() - i,
    {
        proof {
            assert(obs@.take(i + 1).drop_last() =~= obs@.take(i as int));
            assert(obs@.take(i + 1).last() == obs@[i as int]);
        }
        match observation_description_of(&obs[i], sec, f) {
            Some(v) => {
                cur = Some(v);
            },
            None => {},
        }
        i = i + 1;
    }
    assert(obs@.take(i as int) =~= obs@);
    let ghost before = out@;
    match cur {
        Some(v) => {
            out.push((copy_text(sec), copy_text(f), v));
            assert(desc_view(out@) =~= desc_view(before).push((sec@, f@, latest_description(obs@, sec@, f@)->Some_0)));
        },
        None => {
            assert(desc_view(out@) =~= desc_view(before));
        },
    }
}

proof fn lemma_list_items_total_take(obs: Seq<StyleObservation>, i: int)
    requires
        0 <= i < obs.len(),
    ensures
        list_items_total(obs.take(i + 1)) == list_items_total(obs.take(i)) + items_in(obs[i].lists@),
        list_items_total(obs.take(i + 1)) <= list_items_total(obs),
    decreases obs.len(),
{
    assert(obs.take(i + 1).drop_last() =~= obs.take(i));
    assert(obs.take(i + 1).last() == obs[i]);
    if i + 1 < obs.len() {
        lemma_list_items_total_take(obs.drop_last(), i);
        assert(obs.drop_last().take(i + 1) =~= obs.take(i + 1));
    } else {
        assert(obs.take(i + 1) =~= obs);
    }
}

fn list_entry_of(
    obs: &Vec<StyleObservation>,
    sec: Option<&str>,
    f: &str,
    limit: usize,
    out: &mut Vec<(Option<String>, String, Vec<String>)>,
)
    requires
        list_items_total(obs@) < u32::MAX,
    ensures
        list_view(final(out)@) == list_view(old(out)@) + match list_tally(obs@, opt_str(sec), f@) {
            Some(t) => seq![(opt_str(sec), f@, at_most(by_count(t), limit as nat).map_values(|e: (Seq<char>, nat)| e.0))],
            None => Seq::<(Option<Seq<char>>, Seq<char>, Seq<Seq<char>>)>::empty(),
        },
{
    let mut cur: Option<EnumFieldStats> = None;
    let mut i: usize = 0;
    while i < obs.len()
        invariant
            i <= obs@.len(),
            list_items_total(obs@) < u32::MAX,
            match cur {
                Some(st) => st.wf() && list_tally(obs@.take(i as int), opt_str(sec), f@) == Some(st.entries())
                    && st.total_count() <= list_items_total(obs@.take(i as int)),
                None => list_tally(obs@.take(i as int), opt_str(sec), f@) is None,
            },
        decreases obs.len() - i,
    {
        proof {
            assert(obs@.take(i + 1).drop_last() =~= obs@.take(i as int));
            assert(obs@.take(i + 1).last() == obs@[i as int]);
            lemma_list_items_total_take(obs@, i as int);
            lemma_list_field_len(obs@[i as int].lists@, opt_str(sec), f@);
        }
        match list_field_of(&obs[i].lists, sec, f) {
            Some(items) => {
                let mut st = match cur {
                    Some(st) => st,
                    None => {
                        let e = EnumFieldStats::new();
                        assert(e.entries() =~= Seq::<(Seq<char>, nat)>::empty());
                        e
                    },
                };
                add_all(&mut st, items);
                cur = Some(st);
            },
            None => {},
        }
        i = i + 1;
    }
    assert(obs@.take(i as int) =~= obs@);
    let ghost before = out@;
    match cur {
        Some(st) => {
            let items = st.most_frequent(limit);
            let section = match sec {
                Some(x) => Some(copy_text(x)),
                None => None,
            };
            out.push((section, copy_text(f), items));
            proof {
                let t = st.entries();
                assert(at_most(by_count(t), limit as nat) =~= by_count(t).take(
                    if limit < t.len() {
                        limit as int
                    } else {
                        t.len() as int
                    },
                )) by {
                    crate::analysis::lemma_by_count_len(t);
                }
                assert(list_view(out@) =~= list_view(before).push(
                    (opt_str(sec), f@, at_most(by_count(t), limit as nat).map_values(|e: (Seq<char>, nat)| e.0)),
                ));
            }
        },
        None => {
            assert(list_view(out@) =~= list_view(before));
        },
    }
}

fn samples_of(obs: &Vec<StyleObservation>) -> (res: Vec<(usize, String)>)
    ensures
        sample_view(res@) == at_most(all_samples(obs@), 10),
{
    let mut all: Vec<(usize, String)> = Vec::new();
    let mut i: usize = 0;
    assert(sample_view(all@) =~= all_samples(obs@.take(0)));
    while i < obs.len()
        invariant
            i <= obs@.len(),
            sample_view(all@) == all_samples(obs@.take(i as int)),
        decreases obs.len() - i,
    {
        proof {
            assert(obs@.take(i + 1).drop_last() =~= obs@.take(i as int));
            assert(obs@.take(i + 1).last() == obs@[i as int]);
        }
        let ghost start = sample_view(all@);
        let chapter = i + 1;
        let o = &obs[i];
        let mut j: usize = 0;
        while j < o.samples.len()
            invariant
                j <= o.samples@.len(),
                i < obs@.len(),
                chapter == i + 1,
                *o == obs@[i as int],
                sample_view(all@) == start + texts(o.samples@).take(j as int).map_values(
                    |s: Seq<char>| ((i + 1) as nat, s),
                ),
            decreases o.samples.len() - j,
        {
            let ghost b = sample_view(all@);
            all.push((chapter, copy_text(o.samples[j].as_str())));
            proof {
                assert(sample_view(all@) =~= b.push(((i + 1) as nat, o.samples@[j as int]@)));
                assert(texts(o.samples@).take(j + 1).map_values(|s: Seq<char>| ((i + 1) as nat, s)) =~= texts(
                    o.samples@,
                ).take(j as int).map_values(|s: Seq<char>| ((i + 1) as nat, s)).push(
                    ((i + 1) as nat, o.samples@[j as int]@),
                ));
            }
            j = j + 1;
        }
        proof {
            assert(texts(o.samples@).take(j as int) =~= texts(o.samples@));
            assert(obs@.take(i + 1).len() == i + 1);
        }
        i = i + 1;
    }
    assert(obs@.take(i as int) =~= obs@);
    let n = if all.len() < 10 {
        all.len()
    } else {
        10
    };
    let mut out: Vec<(usize, String)> = Vec::new();
    let mut k: usize = 0;
    while k < n
        invariant
            k <= n,
            n <= all@.len(),
            n == if all@.len() < 10 {
                all@.len()
            } else {
                10
            },
            sample_view(out@) == sample_view(all@).take(k as int),
        decreases n - k,
    {
        let ghost b = sample_view(out@);
        out.push((all[k].0, copy_text(all[k].1.as_str())));
        proof {
            assert(sample_view(out@) =~= b.push((all@[k as int].0 as nat, all@[k as int].1@)));
            assert(sample_view(all@).take(k + 1) =~= sample_view(all@).take(k as int).push(
                sample_view(all@)[k as int],
            ));
        }
        k = k + 1;
    }
    proof {
        if all@.len() < 10 {
            assert(sample_view(all@).take(k as int) =~= sample_view(all@));
        }
    }
    out
}

pub open spec fn pairs_view(v: Seq<(&str, &str)>) -> Seq<(Seq<char>, Seq<char>)> {
    v.map_values(|k: (&str, &str)| (k.0@, k.1@))
}

pub open spec fn lists_view(v: Seq<(Option<&str>, &str, usize)>) -> Seq<(Option<Seq<char>>, Seq<char>, nat)> {
    v.map_values(|k: (Option<&str>, &str, usize)| (opt_str(k.0), k.1@, k.2 as nat))
}

fn enum_fields() -> (res: Vec<(&'static str, &'static str)>)
    ensures
        pairs_view(res@) == enum_config(),
{
    let v = vec![
        ("vocabulary", "formality_level"),
        ("sentence_structure", "typical_length"),
        ("sentence_structure", "complexity_level"),
        ("narrative_voice", "perspective"),
        ("narrative_voice", "tense"),
        ("narrative_voice", "intrusion_level"),
        ("narrative_voice", "reliability"),
        ("dialogue_style", "dialogue_proportion"),
        ("description_style", "detail_level"),
        ("pacing", "overall_tempo"),
        ("emotional_expression", "show_vs_tell"),
        ("emotional_expression", "emotional_restraint"),
    ];
    assert(pairs_view(v@) =~= enum_config());
    v
}

fn described_fields() -> (res: Vec<(&'static str, &'static str)>)
    ensures
        pairs_view(res@) == desc_config(),
{
    let v = vec![
        ("vocabulary", "vocabulary_tendencies"),
        ("vocabulary", "word_choice_patterns"),
        ("vocabulary", "period_markers"),
        ("sentence_structure", "rhythm_patterns"),
        ("sentence_structure", "punctuation_style"),
        ("sentence_structure", "paragraph_structure"),
        ("narrative_voice", "narrator_characteristics"),
        ("dialogue_style", "dialogue_tags"),
        ("dialogue_style", "speech_rhythm"),
        ("dialogue_style", "character_voice_differentiation"),
        ("dialogue_style", "subtext_usage"),
        ("description_style", "metaphor_usage"),
        ("description_style", "imagery_patterns"),
        ("pacing", "scene_transitions"),
        ("pacing", "tension_building"),
        ("pacing", "action_vs_reflection_balance"),
        ("emotional_expression", "dominant_mood"),
        ("emotional_expression", "mood_range"),
        ("emotional_expression", "atmosphere_techniques"),
        ("thematic_elements", "symbolic_patterns"),
    ];
    assert(pairs_view(v@) =~= desc_config());
    v
}

fn listed_fields() -> (res: Vec<(Option<&'static str>, &'static str, usize)>)
    ensures
        lists_view(res@) == list_config(),
{
    let v = vec![
        (None, "key_observations", 20),
        (None, "notable_techniques", 15),
        (Some("vocabulary"), "distinctive_vocabulary", 30),
        (Some("description_style"), "sensory_preferences", 10),
        (Some("description_style"), "metaphor_examples", 15),
        (Some("thematic_elements"), "recurring_motifs", 15),
        (Some("thematic_elements"), "thematic_concerns", 15),
    ];
    assert(lists_view(v@) =~= list_config());
    v
}

/// Aggregates the style observations of a book's chapters, in chapter order (see
/// `enum_entries`, `desc_entries`, `list_entries` and `all_samples`).
pub fn aggregate_style(observations: &Vec<StyleObservation>) -> (res: AggregatedStyle)
    requires
        observations@.len() < 0x8000_0000,
        list_items_total(observations@) < u32::MAX,
    ensures
        enum_view(res.enum_fields@) == enum_entries(observations@, enum_config()),
        desc_view(res.descriptions@) == desc_entries(observations@, desc_config()),
        list_view(res.lists@) == list_entries(observations@, list_config()),
        sample_view(res.samples@) == at_most(all_samples(observations@), 10),
{
    let ef = enum_fields();
    let mut enums: Vec<(String, String, String, u32, u32)> = Vec::new();
    let mut i: usize = 0;
    assert(enum_view(enums@) =~= enum_entries(observations@, pairs_view(ef@).take(0)));
    while i < ef.len()
        invariant
            i <= ef@.len(),
            observations@.len() < 0x8000_0000,
            enum_view(enums@) == enum_entries(observations@, pairs_view(ef@).take(i as int)),
        decreases ef.len() - i,
    {
        proof {
            assert(pairs_view(ef@).take(i + 1).drop_last() =~= pairs_view(ef@).take(i as int));
            assert(pairs_view(ef@).take(i + 1).last() == (ef@[i as int].0@, ef@[i as int].1@));
        }
        enum_entry_of(observations, ef[i].0, ef[i].1, &mut enums);
        i = i + 1;
    }
    assert(pairs_view(ef@).take(i as int) =~= pairs_view(ef@));
    let df = described_fields();
    let mut descs: Vec<(String, String, String)> = Vec::new();
    let mut i: usize = 0;
    assert(desc_view(descs@) =~= desc_entries(observations@, pairs_view(df@).take(0)));
    while i < df.len()
        invariant
            i <= df@.len(),
            desc_view(descs@) == desc_entries(observations@, pairs_view(df@).take(i as int)),
        decreases df.len() - i,
    {
        proof {
            assert(pairs_view(df@).take(i + 1).drop_last() =~= pairs_view(df@).take(i as int));
            assert(pairs_view(df@).take(i + 1).last() == (df@[i as int].0@, df@[i as int].1@));
        }
        desc_entry_of(observations, df[i].0, df[i].1, &mut descs);
        i = i + 1;
    }
    assert(pairs_view(df@).take(i as int) =~= pairs_view(df@));
    let lf = listed_fields();
    let mut lists: Vec<(Option<String>, String, Vec<String>)> = Vec::new();
    let mut i: usize = 0;
    assert(list_view(lists@) =~= list_entries(observations@, lists_view(lf@).take(0)));
    while i < lf.len()
        invariant
            i <= lf@.len(),
            list_items_total(observations@) < u32::MAX,
            list_view(lists@) == list_entries(observations@, lists_view(lf@).take(i as int)),
        decreases lf.len() - i,
    {
        proof {
            assert(lists_view(lf@).take(i + 1).drop_last() =~= lists_view(lf@).take(i as int));
            assert(lists_view(lf@).take(i + 1).last() == (opt_str(lf@[i as int].0), lf@[i as int].1@, lf@[i as int].2 as nat));
        }
        list_entry_of(observations, lf[i].0, lf[i].1, lf[i].2, &mut lists);
        i = i + 1;
    }
    assert(lists_view(lf@).take(i as int) =~= lists_view(lf@));
    AggregatedStyle { enum_fields: enums, descriptions: descs, lists, samples: samples_of(observations) }
}

} // verus!
