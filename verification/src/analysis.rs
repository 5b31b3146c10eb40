//! Chapter analysis: which cards are accepted automatically, the tally of style
//! observations, the status a card is set to, and which entities a chapter's chunks
//! are linked to.
use vstd::prelude::*;
use crate::model::{card_status_of, CardStatus};
use crate::text::{chars_eq, chars_of, lowercase, str_eq, to_lowercase};

verus! {

// ---------------------------------------------------------------------------
// Results shown to the user
// ---------------------------------------------------------------------------

/// A technique card as shown to the user.
pub struct TechniqueCardInfo {
    pub id: String,
    pub chapter_id: String,
    pub technique_type: String,
    pub title: String,
    pub description: String,
    pub mechanism: String,
    pub evidence: Vec<String>,
    pub tags: Vec<String>,
    pub collected: bool,
    pub created_at: String,
}

/// A request to analyze a chapter.
pub struct AnalysisRequest {
    pub book_id: String,
    pub chapter_id: String,
    pub analysis_types: Vec<String>,
}

/// The answer to a request to cancel an analysis.
pub struct CancelAnalysisResult {
    pub cancelled: bool,
    pub message: String,
}

/// Progress of analyzing several chapters.
pub struct BatchAnalysisProgress {
    pub book_id: String,
    pub current_chapter_id: String,
    pub current_chapter_index: i32,
    pub total_chapters: i32,
    pub current_agent_type: String,
    /// "running", "completed", "error" or "cancelled"
    pub status: String,
    pub error: Option<String>,
}

// ---------------------------------------------------------------------------
// Automatic acceptance
// ---------------------------------------------------------------------------

/// Whether a card of the given confidence is accepted automatically at the given
/// threshold: `off` accepts none, `high` only high, `medium` high and medium, `low`
/// all; any other threshold accepts none.
pub open spec fn auto_accepts(confidence: Seq<char>, threshold: Seq<char>) -> bool {
    if threshold == "high"@ {
        confidence == "high"@
    } else if threshold == "medium"@ {
        confidence == "high"@ || confidence == "medium"@
    } else {
        threshold == "low"@
    }
}

/// Whether a card of the given confidence is accepted automatically at the threshold.
pub fn should_auto_accept(confidence: &str, threshold: &str) -> (res: bool)
    ensures
        res == auto_accepts(confidence@, threshold@),
{
    if str_eq(threshold, "off") {
        proof {
            reveal_strlit("off");
            reveal_strlit("high");
            reveal_strlit("medium");
            reveal_strlit("low");
            assert("off"@.len() != "high"@.len() && "off"@.len() != "medium"@.len());
            assert("off"@[0] != "low"@[0]);
        }
        false
    } else if str_eq(threshold, "high") {
        str_eq(confidence, "high")
    } else if str_eq(threshold, "medium") {
        str_eq(confidence, "high") || str_eq(confidence, "medium")
    } else {
        str_eq(threshold, "low")
    }
}

/// The status a card is set to by name: `confirmed` is read as `accepted`, as older
/// clients send it; an unknown name is refused with a message that lists the names.
pub open spec fn requested_status(name: Seq<char>) -> Result<CardStatus, Seq<char>> {
    if name == "confirmed"@ {
        Ok(CardStatus::Accepted)
    } else {
        match card_status_of(name) {
            Some(st) => Ok(st),
            None => Err("Invalid status: "@ + name + ". Allowed: pending, accepted, rejected, merged"@),
        }
    }
}

/// Reads the status that a card is to be set to.
pub fn validate_card_status(status: &str) -> (res: Result<CardStatus, String>)
    ensures
        match res {
            Ok(st) => requested_status(status@) == Ok::<CardStatus, Seq<char>>(st),
            Err(m) => requested_status(status@) == Err::<CardStatus, Seq<char>>(m@),
        },
{
    if str_eq(status, "confirmed") {
        return Ok(CardStatus::Accepted);
    }
    match CardStatus::parse(status) {
        Some(st) => Ok(st),
        None => {
            let mut v = chars_of("Invalid status: ");
            crate::text::append_chars(&mut v, chars_of(status).as_slice());
            crate::text::append_chars(&mut v, chars_of(". Allowed: pending, accepted, rejected, merged").as_slice());
            Err(crate::text::string_of(v.as_slice()))
        },
    }
}

// ---------------------------------------------------------------------------
// Tallies of enumerated style values
// ---------------------------------------------------------------------------

/// How often each value of an enumerated style field was observed, in the order
/// the values were first seen, and how many observations there were.
pub struct EnumFieldStats {
    counts: Vec<(String, u32)>,
    total: u32,
}

/// The tally entries as text and count.
pub open spec fn tally_view(v: Seq<(String, u32)>) -> Seq<(Seq<char>, nat)> {
    v.map_values(|e: (String, u32)| (e.0@, e.1 as nat))
}

/// The sum of the counts.
pub open spec fn tally_sum(t: Seq<(Seq<char>, nat)>) -> nat
    decreases t.len(),
{
    if t.len() == 0 {
        0
    } else {
        tally_sum(t.drop_last()) + t.last().1
    }
}

/// No value occurs twice in the tally.
pub open spec fn distinct_values(t: Seq<(Seq<char>, nat)>) -> bool {
    forall|i: int, j: int| 0 <= i < j < t.len() ==> t[i].0 != t[j].0
}

proof fn lemma_tally_sum_update(t: Seq<(Seq<char>, nat)>, i: int, x: (Seq<char>, nat))
    requires
        0 <= i < t.len(),
    ensures
        tally_sum(t.update(i, x)) + t[i].1 == tally_sum(t) + x.1,
    decreases t.len(),
{
    if i == t.len() - 1 {
        assert(t.update(i, x).drop_last() == t.drop_last());
    } else {
        assert(t.update(i, x).drop_last() == t.drop_last().update(i, x));
        lemma_tally_sum_update(t.drop_last(), i, x);
    }
}

impl EnumFieldStats {
    /// The observed values with their counts, in first-seen order.
    pub closed spec fn entries(&self) -> Seq<(Seq<char>, nat)> {
        tally_view(self.counts@)
    }

    /// The number of observations.
    pub closed spec fn total_count(&self) -> nat {
        self.total as nat
    }

    /// The tally is consistent: no value twice, and the counts add up to the total.
    pub open spec fn wf(&self) -> bool {
        &&& distinct_values(self.entries())
        &&& tally_sum(self.entries()) == self.total_count()
    }

    /// An empty tally.
    pub fn new() -> (res: Self)
        ensures
            res.wf(),
            res.entries().len() == 0,
            res.total_count() == 0,
    {
        let res = EnumFieldStats { counts: Vec::new(), total: 0 };
        assert(res.entries() =~= Seq::<(Seq<char>, nat)>::empty());
        res
    }

    /// Records one observation of `value`: its count goes up by one, or it is added
    /// with count one after the values seen so far.
    pub fn add(&mut self, value: &str)
        requires
            old(self).wf(),
            old(self).total_count() < u32::MAX,
        ensures
            final(self).wf(),
            final(self).total_count() == old(self).total_count() + 1,
            match index_of_value(old(self).entries(), value@) {
                Some(i) => final(self).entries() == old(self).entries().update(
                    i,
                    (value@, old(self).entries()[i].1 + 1),
                ),
                None => final(self).entries() == old(self).entries().push((value@, 1nat)),
            },
    {
        let ghost before = self.entries();
        let v = chars_of(value);
        let mut i: usize = 0;
        while i < self.counts.len()
            invariant
                i <= self.counts@.len(),
                self.entries() == before,
                before == old(self).entries(),
                self.total_count() == old(self).total_count(),
                v@ == value@,
                distinct_values(before),
                tally_sum(before) == self.total_count(),
                self.total_count() < u32::MAX,
                forall|k: int| 0 <= k < i ==> before[k].0 != value@,
            decreases self.counts.len() - i,
        {
            let k = chars_of(self.counts[i].0.as_str());
            if chars_eq(&k, &v) {
                proof {
                    lemma_index_of_value(before, value@, i as int);
                    lemma_count_le_sum(before, i as int);
                }
                let n = self.counts[i].1;
                assert(n == before[i as int].1);
                let name = String::from_str(value);
                let ghost old_counts = self.counts@;
                self.counts.set(i, (name, n + 1));
                self.total = self.total + 1;
                proof {
                    assert(tally_view(self.counts@) =~= before.update(i as int, (value@, before[i as int].1 + 1)));
                    lemma_tally_sum_update(before, i as int, (value@, before[i as int].1 + 1));
                }
                return;
            }
            i = i + 1;
        }
        proof {
            lemma_index_of_value_none(before, value@);
        }
        self.counts.push((String::from_str(value), 1));
        self.total = self.total + 1;
        proof {
            assert(tally_view(self.counts@) =~= before.push((value@, 1nat)));
            assert(before.push((value@, 1nat)).drop_last() == before);
        }
    }

    /// A value observed most often (the first such value in first-seen order), or
    /// `None` before any observation.
    pub fn get_value(&self) -> (res: Option<String>)
        ensures
            res is None <==> self.entries().len() == 0,
            res matches Some(v) ==> v@ == self.entries()[first_max(self.entries())].0 && (forall|
                j: int,
            | 0 <= j < self.entries().len() ==> (#[trigger] self.entries()[j]).1 <= self.entries()[first_max(
                self.entries(),
            )].1),
    {
        if self.counts.len() == 0 {
            return None;
        }
        let ghost e = self.entries();
        let mut best: usize = 0;
        let mut i: usize = 1;
        proof {
            assert(e.take(1).len() == 1);
        }
        while i < self.counts.len()
            invariant
                0 <= best < i <= self.counts@.len(),
                e == self.entries(),
                best as int == first_max(e.take(i as int)),
                forall|j: int| 0 <= j < i ==> self.counts@[j].1 <= self.counts@[best as int].1,
            decreases self.counts.len() - i,
        {
            proof {
                assert(e.take(i + 1).drop_last() =~= e.take(i as int));
                assert(e.take(i + 1).last() == e[i as int]);
                assert(e[i as int].1 == self.counts@[i as int].1);
                assert(e.take(i as int)[best as int].1 == self.counts@[best as int].1);
            }
            if self.counts[i].1 > self.counts[best].1 {
                best = i;
            }
            i = i + 1;
        }
        let v = String::from_str(self.counts[best].0.as_str());
        proof {
            assert(e.take(i as int) =~= e);
            assert(e[best as int].0 == v@);
            assert forall|j: int| 0 <= j < e.len() implies e[j].1 <= e[best as int].1 by {
                assert(e[j].1 == self.counts@[j].1);
            }
        }
        Some(v)
    }

    /// The observed values ordered by count, highest first (first-seen order among
    /// equal counts), at most `limit` of them.
    pub fn most_frequent(&self, limit: usize) -> (res: Vec<String>)
        ensures
            res@.map_values(|s: String| s@) == by_count(self.entries()).take(
                if limit < self.entries().len() {
                    limit as int
                } else {
                    self.entries().len() as int
                },
            ).map_values(|e: (Seq<char>, nat)| e.0),
    {
        let ghost e = self.entries();
        let mut sorted: Vec<(String, u32)> = Vec::new();
        let mut i: usize = 0;
        assert(tally_view(sorted@) =~= by_count(e.take(0)));
        while i < self.counts.len()
            invariant
                i <= self.counts@.len(),
                e == self.entries(),
                e.len() == self.counts@.len(),
                sorted@.len() == i,
                tally_view(sorted@) == by_count(e.take(i as int)),
            decreases self.counts.len() - i,
        {
            let c = self.counts[i].1;
            let ghost sv = tally_view(sorted@);
            let mut p: usize = 0;
            proof {
                assert(sv.skip(0) == sv);
            }
            while p < sorted.len() && !(sorted[p].1 < c)
                invariant
                    p <= sorted@.len(),
                    sv == tally_view(sorted@),
                    count_slot(sv, (e[i as int].0, c as nat)) == p + count_slot(sv.skip(p as int), (e[i as int].0, c as nat)),
                decreases sorted.len() - p,
            {
                proof {
                    assert(sv.skip(p as int)[0] == sv[p as int]);
                    assert(sv.skip(p as int).drop_first() =~= sv.skip(p + 1));
                }
                p = p + 1;
            }
            proof {
                if p < sorted@.len() {
                    assert(sv.skip(p as int)[0] == sv[p as int]);
                }
                assert(e[i as int] == (self.counts@[i as int].0@, c as nat));
                assert(e.take(i + 1).drop_last() =~= e.take(i as int));
                assert(e.take(i + 1).last() == e[i as int]);
            }
            let ghost before = sorted@;
            sorted.insert(p, (String::from_str(self.counts[i].0.as_str()), c));
            proof {
                assert(tally_view(sorted@) =~= tally_view(before).insert(p as int, e[i as int]));
            }
            i = i + 1;
        }
        proof {
            assert(e.take(i as int) =~= e);
        }
        let n = if limit < sorted.len() {
            limit
        } else {
            sorted.len()
        };
        let mut out: Vec<String> = Vec::new();
        let mut k: usize = 0;
        while k < n
            invariant
                k <= n,
                n <= sorted@.len(),
                sorted@.len() == e.len(),
                tally_view(sorted@) == by_count(e),
                out@.map_values(|s: String| s@) == by_count(e).take(k as int).map_values(
                    |x: (Seq<char>, nat)| x.0,
                ),
            decreases n - k,
        {
            let ghost before = out@;
            out.push(String::from_str(sorted[k].0.as_str()));
            proof {
                assert(by_count(e)[k as int] == tally_view(sorted@)[k as int]);
                assert(out@.map_values(|s: String| s@) =~= before.map_values(|s: String| s@).push(
                    sorted@[k as int].0@,
                ));
                assert(by_count(e).take(k + 1).map_values(|x: (Seq<char>, nat)| x.0) =~= by_count(
                    e,
                ).take(k as int).map_values(|x: (Seq<char>, nat)| x.0).push(by_count(e)[k as int].0));
            }
            k = k + 1;
        }
        out
    }

    /// The count of a value observed most often (0 before any observation).
    pub fn max_count(&self) -> (res: u32)
        ensures
            self.entries().len() == 0 ==> res == 0,
            forall|j: int| 0 <= j < self.entries().len() ==> self.entries()[j].1 <= res,
            self.entries().len() > 0 ==> exists|i: int|
                0 <= i < self.entries().len() && #[trigger] self.entries()[i].1 == res,
    {
        let mut best: u32 = 0;
        let mut i: usize = 0;
        while i < self.counts.len()
            invariant
                i <= self.counts@.len(),
                forall|j: int| 0 <= j < i ==> self.counts@[j].1 <= best,
                i == 0 ==> best == 0,
                i > 0 ==> exists|k: int| 0 <= k < i && #[trigger] self.counts@[k].1 == best,
            decreases self.counts.len() - i,
        {
            if i == 0 || self.counts[i].1 > best {
                best = self.counts[i].1;
            }
            i = i + 1;
        }
        proof {
            let e = self.entries();
            assert forall|j: int| 0 <= j < e.len() implies e[j].1 <= best by {
                assert(e[j].1 == self.counts@[j].1);
            }
            if e.len() > 0 {
                let k = choose|k: int| 0 <= k < i && #[trigger] self.counts@[k].1 == best;
                assert(e[k].1 == best);
            }
        }
        best
    }

    /// The number of observations.
    pub fn total(&self) -> (res: u32)
        ensures
            res == self.total_count(),
    {
        self.total
    }
}

/// The position of the first entry with the highest count (0 for an empty tally).
pub open spec fn first_max(t: Seq<(Seq<char>, nat)>) -> int
    decreases t.len(),
{
    if t.len() <= 1 {
        0
    } else {
        let p = first_max(t.drop_last());
        if t.last().1 > t[p].1 {
            t.len() - 1
        } else {
            p
        }
    }
}

/// Where an entry goes among entries ordered by count: before the first with a
/// lower count.
pub open spec fn count_slot(sorted: Seq<(Seq<char>, nat)>, x: (Seq<char>, nat)) -> int
    decreases sorted.len(),
{
    if sorted.len() == 0 {
        0
    } else if sorted[0].1 < x.1 {
        0
    } else {
        1 + count_slot(sorted.drop_first(), x)
    }
}

/// The entries ordered by count, highest first, keeping their order among equal
/// counts.
pub open spec fn by_count(t: Seq<(Seq<char>, nat)>) -> Seq<(Seq<char>, nat)>
    decreases t.len(),
{
    if t.len() == 0 {
        t
    } else {
        let s = by_count(t.drop_last());
        s.insert(count_slot(s, t.last()), t.last())
    }
}

/// The first highest count lies in the tally.
pub proof fn lemma_first_max_bound(t: Seq<(Seq<char>, nat)>)
    requires
        t.len() > 0,
    ensures
        0 <= first_max(t) < t.len(),
    decreases t.len(),
{
    if t.len() > 1 {
        lemma_first_max_bound(t.drop_last());
    }
}

/// Ordering by count keeps the number of entries.
pub proof fn lemma_by_count_len(t: Seq<(Seq<char>, nat)>)
    ensures
        by_count(t).len() == t.len(),
    decreases t.len(),
{
    if t.len() > 0 {
        lemma_by_count_len(t.drop_last());
        lemma_count_slot_bound(by_count(t.drop_last()), t.last());
    }
}

proof fn lemma_count_slot_bound(sorted: Seq<(Seq<char>, nat)>, x: (Seq<char>, nat))
    ensures
        0 <= count_slot(sorted, x) <= sorted.len(),
    decreases sorted.len(),
{
    if sorted.len() > 0 {
        lemma_count_slot_bound(sorted.drop_first(), x);
    }
}

/// The position of `v` in the tally, if it is there.
pub open spec fn index_of_value(t: Seq<(Seq<char>, nat)>, v: Seq<char>) -> Option<int> {
    if exists|i: int| 0 <= i < t.len() && #[trigger] t[i].0 == v {
        Some(choose|i: int| 0 <= i < t.len() && #[trigger] t[i].0 == v)
    } else {
        None
    }
}

proof fn lemma_index_of_value(t: Seq<(Seq<char>, nat)>, v: Seq<char>, i: int)
    requires
        distinct_values(t),
        0 <= i < t.len(),
        t[i].0 == v,
    ensures
        index_of_value(t, v) == Some(i),
{
    let j = choose|j: int| 0 <= j < t.len() && #[trigger] t[j].0 == v;
    if j != i {
        if j < i {
            assert(t[j].0 != t[i].0);
        } else {
            assert(t[i].0 != t[j].0);
        }
    }
}

proof fn lemma_index_of_value_none(t: Seq<(Seq<char>, nat)>, v: Seq<char>)
    requires
        forall|k: int| 0 <= k < t.len() ==> t[k].0 != v,
    ensures
        index_of_value(t, v) is None,
{
}

proof fn lemma_count_le_sum(t: Seq<(Seq<char>, nat)>, i: int)
    requires
        0 <= i < t.len(),
    ensures
        t[i].1 <= tally_sum(t),
    decreases t.len(),
{
    if i < t.len() - 1 {
        lemma_count_le_sum(t.drop_last(), i);
    }
}

// ---------------------------------------------------------------------------
// Embeddings and entity links of a chapter
// ---------------------------------------------------------------------------

/// Whether a chapter still has to be embedded: when no vector store could be read
/// (`None`) or the store holds no chunks of it.
pub fn chapter_needs_embedding(stored_chunks: Option<u32>) -> (res: bool)
    ensures
        res == (stored_chunks is None || stored_chunks == Some(0u32)),
{
    match stored_chunks {
        Some(n) => n == 0,
        None => true,
    }
}

pub open spec fn opt_text(o: Option<String>) -> Option<Seq<char>> {
    match o {
        Some(s) => Some(s@),
        None => None,
    }
}

/// The ids of the items (id and chapter) that belong to chapter `ch`, in order.
pub open spec fn ids_in_chapter(items: Seq<(String, Option<String>)>, ch: Seq<char>) -> Seq<
    Seq<char>,
>
    decreases items.len(),
{
    if items.len() == 0 {
        Seq::<Seq<char>>::empty()
    } else {
        let rest = ids_in_chapter(items.drop_last(), ch);
        if opt_text(items.last().1) == Some(ch) {
            rest.push(items.last().0@)
        } else {
            rest
        }
    }
}

/// The ids of the settings (id and name) whose lower-cased name is among `names`.
pub open spec fn settings_named(settings: Seq<(String, String)>, names: Seq<Seq<char>>) -> Seq<
    Seq<char>,
>
    decreases settings.len(),
{
    if settings.len() == 0 {
        Seq::<Seq<char>>::empty()
    } else {
        let rest = settings_named(settings.drop_last(), names);
        if names.contains(lowercase(settings.last().1@)) {
            rest.push(settings.last().0@)
        } else {
            rest
        }
    }
}

/// The entities a chapter's chunks are linked to: the characters that first appear
/// in it, then its events, then the settings whose name, compared without case, is
/// the name on one of the chapter's accepted setting cards.
pub open spec fn chapter_entities(
    ch: Seq<char>,
    characters: Seq<(String, Option<String>)>,
    events: Seq<(String, Option<String>)>,
    setting_card_names: Seq<Seq<char>>,
    settings: Seq<(String, String)>,
) -> Seq<Seq<char>> {
    ids_in_chapter(characters, ch) + ids_in_chapter(events, ch) + if setting_card_names.len() == 0 {
        Seq::<Seq<char>>::empty()
    } else {
        settings_named(settings, setting_card_names.map_values(|n: Seq<char>| lowercase(n)))
    }
}

fn push_ids_in_chapter(out: &mut Vec<String>, items: &[(String, Option<String>)], ch: &str)
    ensures
        final(out)@.map_values(|s: String| s@) == old(out)@.map_values(|s: String| s@)
            + ids_in_chapter(items@, ch@),
{
    let ghost start = out@.map_values(|s: String| s@);
    let mut i: usize = 0;
    while i < items.len()
        invariant
            i <= items@.len(),
            out@.map_values(|s: String| s@) == start + ids_in_chapter(items@.take(i as int), ch@),
        decreases items.len() - i,
    {
        proof {
            assert(items@.take(i + 1).drop_last() == items@.take(i as int));
        }
        let belongs = match &items[i].1 {
            Some(c) => str_eq(c.as_str(), ch),
            None => false,
        };
        if belongs {
            let ghost before = out@;
            out.push(String::from_str(items[i].0.as_str()));
            proof {
                assert(out@.map_values(|s: String| s@) =~= before.map_values(|s: String| s@).push(
                    items@[i as int].0@,
                ));
            }
        }
        i = i + 1;
    }
    proof {
        assert(items@.take(i as int) == items@);
    }
}

/// The ids of the entities that a chapter's chunks are linked to.
pub fn chapter_entity_ids(
    chapter_id: &str,
    characters: &[(String, Option<String>)],
    events: &[(String, Option<String>)],
    setting_card_names: &[String],
    settings: &[(String, String)],
) -> (res: Vec<String>)
    ensures
        res@.map_values(|s: String| s@) == chapter_entities(
            chapter_id@,
            characters@,
            events@,
            setting_card_names@.map_values(|s: String| s@),
            settings@,
        ),
{
    let mut out: Vec<String> = Vec::new();
    assert(out@.map_values(|s: String| s@) =~= Seq::<Seq<char>>::empty());
    push_ids_in_chapter(&mut out, characters, chapter_id);
    push_ids_in_chapter(&mut out, events, chapter_id);
    let ghost names = setting_card_names@.map_values(|s: String| s@);
    if setting_card_names.len() == 0 {
        proof {
            assert(names.len() == 0);
            let e = Seq::<Seq<char>>::empty();
            assert(out@.map_values(|s: String| s@) + e =~= out@.map_values(|s: String| s@));
        }
        return out;
    }
    let mut lowered: Vec<Vec<char>> = Vec::new();
    let mut k: usize = 0;
    while k < setting_card_names.len()
        invariant
            k <= setting_card_names@.len(),
            names == setting_card_names@.map_values(|s: String| s@),
            lowered@.len() == k,
            forall|j: int| 0 <= j < k ==> (#[trigger] lowered@[j])@ == lowercase(names[j]),
        decreases setting_card_names.len() - k,
    {
        let l = to_lowercase(setting_card_names[k].as_str());
        lowered.push(chars_of(l.as_str()));
        k = k + 1;
    }
    let ghost lnames = names.map_values(|n: Seq<char>| lowercase(n));
    let ghost before = out@.map_values(|s: String| s@);
    let mut i: usize = 0;
    while i < settings.len()
        invariant
            i <= settings@.len(),
            lowered@.len() == lnames.len(),
            lnames == names.map_values(|n: Seq<char>| lowercase(n)),
            names == setting_card_names@.map_values(|s: String| s@),
            forall|j: int| 0 <= j < lowered@.len() ==> (#[trigger] lowered@[j])@ == lnames[j],
            out@.map_values(|s: String| s@) == before + settings_named(
                settings@.take(i as int),
                lnames,
            ),
        decreases settings.len() - i,
    {
        proof {
            assert(settings@.take(i + 1).drop_last() == settings@.take(i as int));
        }
        let name = to_lowercase(settings[i].1.as_str());
        let nc = chars_of(name.as_str());
        let mut found = false;
        let mut j: usize = 0;
        while j < lowered.len()
            invariant
                j <= lowered@.len(),
                lowered@.len() == lnames.len(),
                forall|m: int| 0 <= m < lowered@.len() ==> (#[trigger] lowered@[m])@ == lnames[m],
                nc@ == lowercase(settings@[i as int].1@),
                found <==> exists|m: int| 0 <= m < j && #[trigger] lnames[m] == nc@,
            decreases lowered.len() - j,
        {
            if chars_eq(&lowered[j], &nc) {
                found = true;
            }
            j = j + 1;
        }
        proof {
            if found {
                let m = choose|m: int| 0 <= m < j && #[trigger] lnames[m] == nc@;
                assert(lnames.contains(nc@));
            } else {
                assert forall|m: int| 0 <= m < lnames.len() implies lnames[m] != nc@ by {
                    if lnames[m] == nc@ {
                        assert(exists|q: int| 0 <= q < j && #[trigger] lnames[q] == nc@);
                    }
                }
                assert(!lnames.contains(nc@));
            }
        }
        if found {
            let ghost b = out@;
            out.push(String::from_str(settings[i].0.as_str()));
            proof {
                assert(out@.map_values(|s: String| s@) =~= b.map_values(|s: String| s@).push(
                    settings@[i as int].0@,
                ));
            }
        }
        i = i + 1;
    }
    proof {
        assert(settings@.take(i as int) == settings@);
    }
    out
}

} // verus!
