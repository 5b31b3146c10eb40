//! Which entities are mentioned together: the mentions held by a chapter's chunks,
//! and the pairs of entities that share chunks, for the relationship graph.
use vstd::prelude::*;
use crate::duplicates::{text_before, text_less};
use crate::model::Chunk;
use crate::text::{chars_of, str_eq, string_of};

verus! {

pub open spec fn texts(v: Seq<String>) -> Seq<Seq<char>> {
    v.map_values(|s: String| s@)
}

fn copy_text(s: &str) -> (res: String)
    ensures
        res@ == s@,
{
    string_of(chars_of(s).as_slice())
}

fn copy_texts(v: &Vec<String>) -> (res: Vec<String>)
    ensures
        texts(res@) == texts(v@),
{
    let mut res: Vec<String> = Vec::new();
    let mut i: usize = 0;
    while i < v.len()
        invariant
            i <= v@.len(),
            texts(res@) == texts(v@).take(i as int),
        decreases v.len() - i,
    {
        let ghost before = res@;
        res.push(copy_text(v[i].as_str()));
        proof {
            assert(texts(res@) =~= texts(before).push(v@[i as int]@));
            assert(texts(v@).take(i + 1) =~= texts(v@).take(i as int).push(v@[i as int]@));
        }
        i = i + 1;
    }
    assert(texts(v@).take(i as int) =~= texts(v@));
    res
}

fn has_text(v: &Vec<String>, s: &str) -> (res: bool)
    ensures
        res == texts(v@).contains(s@),
{
    let mut i: usize = 0;
    while i < v.len()
        invariant
            i <= v@.len(),
            forall|j: int| 0 <= j < i ==> texts(v@)[j] != s@,
        decreases v.len() - i,
    {
        if str_eq(v[i].as_str(), s) {
            assert(texts(v@)[i as int] == s@);
            return true;
        }
        i = i + 1;
    }
    false
}

// ---------------------------------------------------------------------------
// Mentions of a chapter
// ---------------------------------------------------------------------------

/// The entities mentioned in one chunk, with the chunk's character range.
pub struct ChunkEntityInfo {
    pub chunk_id: String,
    pub char_start: u32,
    pub char_end: u32,
    pub entity_ids: Vec<String>,
}

pub open spec fn mention_view(m: ChunkEntityInfo) -> (Seq<char>, u32, u32, Seq<Seq<char>>) {
    (m.chunk_id@, m.char_start, m.char_end, texts(m.entity_ids@))
}

pub open spec fn chunk_mention(c: Chunk) -> (Seq<char>, u32, u32, Seq<Seq<char>>) {
    (c.id.0@, c.char_start, c.char_end, texts(c.metadata.entities_mentioned@))
}

/// The chunks that mention some entity, in order, each with its mentions.
pub open spec fn mentions_of(chunks: Seq<Chunk>) -> Seq<(Seq<char>, u32, u32, Seq<Seq<char>>)>
    decreases chunks.len(),
{
    if chunks.len() == 0 {
        Seq::empty()
    } else {
        let prev = mentions_of(chunks.drop_last());
        if chunks.last().metadata.entities_mentioned@.len() > 0 {
            prev.push(chunk_mention(chunks.last()))
        } else {
            prev
        }
    }
}

/// The entity mentions of a chapter's chunks, for highlighting: each chunk that
/// mentions some entity, in order, with its range and the entities' ids.
pub fn chunk_entity_mentions(chunks: &Vec<Chunk>) -> (res: Vec<ChunkEntityInfo>)
    ensures
        res@.map_values(|m: ChunkEntityInfo| mention_view(m)) == mentions_of(chunks@),
{
    let mut res: Vec<ChunkEntityInfo> = Vec::new();
    let mut i: usize = 0;
    while i < chunks.len()
        invariant
            i <= chunks@.len(),
            res@.map_values(|m: ChunkEntityInfo| mention_view(m)) == mentions_of(chunks@.take(i as int)),
        decreases chunks.len() - i,
    {
        let c = &chunks[i];
        let ghost before = res@;
        proof {
            assert(chunks@.take(i + 1).drop_last() =~= chunks@.take(i as int));
            assert(chunks@.take(i + 1).last() == chunks@[i as int]);
        }
        if c.metadata.entities_mentioned.len() > 0 {
            let m = ChunkEntityInfo {
                chunk_id: copy_text(c.id.0.as_str()),
                char_start: c.char_start,
                char_end: c.char_end,
                entity_ids: copy_texts(&c.metadata.entities_mentioned),
            };
            res.push(m);
            proof {
                assert(res@.map_values(|m: ChunkEntityInfo| mention_view(m)) =~= before.map_values(
                    |m: ChunkEntityInfo| mention_view(m),
                ).push(chunk_mention(chunks@[i as int])));
            }
        }
        i = i + 1;
    }
    assert(chunks@.take(i as int) =~= chunks@);
    res
}


// ---------------------------------------------------------------------------
// Pairs mentioned together
// ---------------------------------------------------------------------------

/// Two entities mentioned in the same chunks: how many times, and in which chapters.
pub struct EntityCooccurrence {
    pub entity1_id: String,
    pub entity2_id: String,
    pub count: u32,
    pub chapters: Vec<String>,
}

/// A pair's ids, its count and its chapters.
pub open spec fn cooc_view(e: EntityCooccurrence) -> (Seq<char>, Seq<char>, nat, Seq<Seq<char>>) {
    (e.entity1_id@, e.entity2_id@, e.count as nat, texts(e.chapters@))
}

pub open spec fn tally_view(v: Seq<EntityCooccurrence>) -> Seq<(Seq<char>, Seq<char>, nat, Seq<Seq<char>>)> {
    v.map_values(|e: EntityCooccurrence| cooc_view(e))
}

/// Two ids as a pair: the one that comes first in std's order of strings first.
pub open spec fn pair_key(a: Seq<char>, b: Seq<char>) -> (Seq<char>, Seq<char>) {
    if text_less(a, b) {
        (a, b)
    } else {
        (b, a)
    }
}

/// The position of the first entry for `key` at or after `from`.
pub open spec fn find_pair(
    t: Seq<(Seq<char>, Seq<char>, nat, Seq<Seq<char>>)>,
    key: (Seq<char>, Seq<char>),
    from: int,
) -> Option<int>
    decreases t.len() - from,
{
    if from < 0 || from >= t.len() {
        None
    } else if t[from].0 == key.0 && t[from].1 == key.1 {
        Some(from)
    } else {
        find_pair(t, key, from + 1)
    }
}

/// One more time the pair `key` is met, in chapter `ch`: its count goes up and the
/// chapter is noted once; a pair not met before is added with a count of one.
pub open spec fn add_pair(
    t: Seq<(Seq<char>, Seq<char>, nat, Seq<Seq<char>>)>,
    key: (Seq<char>, Seq<char>),
    ch: Seq<char>,
) -> Seq<(Seq<char>, Seq<char>, nat, Seq<Seq<char>>)> {
    match find_pair(t, key, 0) {
        Some(k) => t.update(
            k,
            (t[k].0, t[k].1, t[k].2 + 1, if t[k].3.contains(ch) {
                t[k].3
            } else {
                t[k].3.push(ch)
            }),
        ),
        None => t.push((key.0, key.1, 1nat, seq![ch])),
    }
}

/// The pairs of entity `i` of a chunk with the entities from `j` on.
pub open spec fn add_row(
    t: Seq<(Seq<char>, Seq<char>, nat, Seq<Seq<char>>)>,
    es: Seq<Seq<char>>,
    ch: Seq<char>,
    i: int,
    j: int,
) -> Seq<(Seq<char>, Seq<char>, nat, Seq<Seq<char>>)>
    decreases es.len() - j,
{
    if j < 0 || j >= es.len() {
        t
    } else {
        add_row(add_pair(t, pair_key(es[i], es[j]), ch), es, ch, i, j + 1)
    }
}

/// The pairs of a chunk's entities from entity `i` on, each with those after it.
pub open spec fn add_rows(
    t: Seq<(Seq<char>, Seq<char>, nat, Seq<Seq<char>>)>,
    es: Seq<Seq<char>>,
    ch: Seq<char>,
    i: int,
) -> Seq<(Seq<char>, Seq<char>, nat, Seq<Seq<char>>)>
    decreases es.len() - i,
{
    if i < 0 || i >= es.len() {
        t
    } else {
        add_rows(add_row(t, es, ch, i, i + 1), es, ch, i + 1)
    }
}

/// The pairs of the chunks from `c` on, each chunk given as its entities and chapter.
pub open spec fn add_chunks(
    t: Seq<(Seq<char>, Seq<char>, nat, Seq<Seq<char>>)>,
    chunks: Seq<(Seq<Seq<char>>, Seq<char>)>,
    c: int,
) -> Seq<(Seq<char>, Seq<char>, nat, Seq<Seq<char>>)>
    decreases chunks.len() - c,
{
    if c < 0 || c >= chunks.len() {
        t
    } else {
        add_chunks(add_rows(t, chunks[c].0, chunks[c].1, 0), chunks, c + 1)
    }
}

pub open spec fn chunk_entities(chunks: Seq<Chunk>) -> Seq<(Seq<Seq<char>>, Seq<char>)> {
    chunks.map_values(|c: Chunk| (texts(c.metadata.entities_mentioned@), c.chapter_id@))
}

/// Every pair of entities mentioned in the same chunk, in the order first met: how
/// often the pair is met (once per two positions of a chunk's mentions) and the
/// chapters it is met in.
pub open spec fn cooccurrence_tally(chunks: Seq<Chunk>) -> Seq<(Seq<char>, Seq<char>, nat, Seq<Seq<char>>)> {
    add_chunks(Seq::empty(), chunk_entities(chunks), 0)
}

/// Where an entry goes among entries ordered by count: before the first with a
/// lower count.
pub open spec fn cooc_slot(
    sorted: Seq<(Seq<char>, Seq<char>, nat, Seq<Seq<char>>)>,
    x: (Seq<char>, Seq<char>, nat, Seq<Seq<char>>),
) -> int
    decreases sorted.len(),
{
    if sorted.len() == 0 {
        0
    } else if sorted[0].2 < x.2 {
        0
    } else {
        1 + cooc_slot(sorted.drop_first(), x)
    }
}

/// The entries ordered by count, highest first, keeping their order among equal
/// counts.
pub open spec fn by_count_desc(t: Seq<(Seq<char>, Seq<char>, nat, Seq<Seq<char>>)>) -> Seq<
    (Seq<char>, Seq<char>, nat, Seq<Seq<char>>),
>
    decreases t.len(),
{
    if t.len() == 0 {
        t
    } else {
        let s = by_count_desc(t.drop_last());
        s.insert(cooc_slot(s, t.last()), t.last())
    }
}

/// `r` keeps the entries of `t` in place, with counts no lower.
pub open spec fn grows(
    t: Seq<(Seq<char>, Seq<char>, nat, Seq<Seq<char>>)>,
    r: Seq<(Seq<char>, Seq<char>, nat, Seq<Seq<char>>)>,
) -> bool {
    &&& t.len() <= r.len()
    &&& forall|k: int|
        #![trigger r[k]]
        0 <= k < t.len() ==> r[k].0 == t[k].0 && r[k].1 == t[k].1 && r[k].2 >= t[k].2
}

proof fn lemma_grows_trans(
    t: Seq<(Seq<char>, Seq<char>, nat, Seq<Seq<char>>)>,
    u: Seq<(Seq<char>, Seq<char>, nat, Seq<Seq<char>>)>,
    r: Seq<(Seq<char>, Seq<char>, nat, Seq<Seq<char>>)>,
)
    requires
        grows(t, u),
        grows(u, r),
    ensures
        grows(t, r),
{
    assert forall|k: int| #![trigger r[k]] 0 <= k < t.len() implies r[k].0 == t[k].0 && r[k].1 == t[k].1 && r[k].2
        >= t[k].2 by {
        assert(u[k].0 == t[k].0);
        assert(r[k].0 == u[k].0);
    }
}

proof fn lemma_find_pair(t: Seq<(Seq<char>, Seq<char>, nat, Seq<Seq<char>>)>, key: (Seq<char>, Seq<char>), from: int)
    ensures
        match find_pair(t, key, from) {
            Some(k) => from <= k < t.len() && 0 <= k && t[k].0 == key.0 && t[k].1 == key.1,
            None => true,
        },
    decreases t.len() - from,
{
    if !(from < 0 || from >= t.len()) && !(t[from].0 == key.0 && t[from].1 == key.1) {
        lemma_find_pair(t, key, from + 1);
    }
}

proof fn lemma_add_pair_grows(t: Seq<(Seq<char>, Seq<char>, nat, Seq<Seq<char>>)>, key: (Seq<char>, Seq<char>), ch: Seq<char>)
    ensures
        grows(t, add_pair(t, key, ch)),
{
    lemma_find_pair(t, key, 0);
    let r = add_pair(t, key, ch);
    assert forall|k: int| #![trigger r[k]] 0 <= k < t.len() implies r[k].0 == t[k].0 && r[k].1 == t[k].1 && r[k].2
        >= t[k].2 by {}
}

proof fn lemma_add_row_grows(
    t: Seq<(Seq<char>, Seq<char>, nat, Seq<Seq<char>>)>,
    es: Seq<Seq<char>>,
    ch: Seq<char>,
    i: int,
    j: int,
)
    ensures
        grows(t, add_row(t, es, ch, i, j)),
    decreases es.len() - j,
{
    if !(j < 0 || j >= es.len()) {
        let u = add_pair(t, pair_key(es[i], es[j]), ch);
        lemma_add_pair_grows(t, pair_key(es[i], es[j]), ch);
        lemma_add_row_grows(u, es, ch, i, j + 1);
        lemma_grows_trans(t, u, add_row(u, es, ch, i, j + 1));
    }
}

proof fn lemma_add_rows_grows(t: Seq<(Seq<char>, Seq<char>, nat, Seq<Seq<char>>)>, es: Seq<Seq<char>>, ch: Seq<char>, i: int)
    ensures
        grows(t, add_rows(t, es, ch, i)),
    decreases es.len() - i,
{
    if !(i < 0 || i >= es.len()) {
        let u = add_row(t, es, ch, i, i + 1);
        lemma_add_row_grows(t, es, ch, i, i + 1);
        lemma_add_rows_grows(u, es, ch, i + 1);
        lemma_grows_trans(t, u, add_rows(u, es, ch, i + 1));
    }
}

proof fn lemma_add_chunks_grows(
    t: Seq<(Seq<char>, Seq<char>, nat, Seq<Seq<char>>)>,
    chunks: Seq<(Seq<Seq<char>>, Seq<char>)>,
    c: int,
)
    ensures
        grows(t, add_chunks(t, chunks, c)),
    decreases chunks.len() - c,
{
    if !(c < 0 || c >= chunks.len()) {
        let u = add_rows(t, chunks[c].0, chunks[c].1, 0);
        lemma_add_rows_grows(t, chunks[c].0, chunks[c].1, 0);
        lemma_add_chunks_grows(u, chunks, c + 1);
        lemma_grows_trans(t, u, add_chunks(u, chunks, c + 1));
    }
}


proof fn lemma_text_less_asymmetric(a: Seq<char>, b: Seq<char>)
    requires
        text_less(a, b),
    ensures
        !text_less(b, a),
    decreases a.len(),
{
    if a.len() > 0 && b.len() > 0 && a[0] == b[0] {
        lemma_text_less_asymmetric(a.drop_first(), b.drop_first());
    }
}

proof fn lemma_cooc_slot(
    sorted: Seq<(Seq<char>, Seq<char>, nat, Seq<Seq<char>>)>,
    x: (Seq<char>, Seq<char>, nat, Seq<Seq<char>>),
)
    ensures
        0 <= cooc_slot(sorted, x) <= sorted.len(),
        forall|k: int| 0 <= k < cooc_slot(sorted, x) ==> #[trigger] sorted[k].2 >= x.2,
        cooc_slot(sorted, x) < sorted.len() ==> sorted[cooc_slot(sorted, x)].2 < x.2,
    decreases sorted.len(),
{
    if sorted.len() > 0 && !(sorted[0].2 < x.2) {
        let rest = sorted.drop_first();
        lemma_cooc_slot(rest, x);
        assert forall|k: int| 0 <= k < cooc_slot(sorted, x) implies #[trigger] sorted[k].2 >= x.2 by {
            if k > 0 {
                assert(sorted[k] == rest[k - 1]);
            }
        }
    }
}

/// Ordering by count keeps the entries, highest count first.
proof fn lemma_by_count_desc(t: Seq<(Seq<char>, Seq<char>, nat, Seq<Seq<char>>)>)
    ensures
        by_count_desc(t).len() == t.len(),
        forall|i: int, j: int|
            0 <= i < j < by_count_desc(t).len() ==> #[trigger] by_count_desc(t)[i].2 >= #[trigger] by_count_desc(t)[j].2,
        forall|i: int| 0 <= i < by_count_desc(t).len() ==> exists|k: int| 0 <= k < t.len() && #[trigger] by_count_desc(t)[i] == t[k],
    decreases t.len(),
{
    if t.len() > 0 {
        let rest = t.drop_last();
        let s = by_count_desc(rest);
        lemma_by_count_desc(rest);
        let x = t.last();
        let p = cooc_slot(s, x);
        lemma_cooc_slot(s, x);
        let r = s.insert(p, x);
        assert(r == by_count_desc(t));
        assert forall|i: int, j: int| 0 <= i < j < r.len() implies #[trigger] r[i].2 >= #[trigger] r[j].2 by {
            if j < p {
                assert(r[i] == s[i] && r[j] == s[j]);
            } else if j == p {
                assert(r[i] == s[i]);
            } else if i < p {
                assert(r[i] == s[i] && r[j] == s[j - 1]);
                assert(s[i].2 >= s[j - 1].2);
            } else if i == p {
                assert(r[j] == s[j - 1]);
                assert(s[p].2 >= s[j - 1].2 || j - 1 == p);
            } else {
                assert(r[i] == s[i - 1] && r[j] == s[j - 1]);
            }
        }
        assert forall|i: int| 0 <= i < r.len() implies exists|k: int| 0 <= k < t.len() && #[trigger] r[i] == t[k] by {
            if i < p {
                assert(r[i] == s[i]);
                let k = choose|k: int| 0 <= k < rest.len() && s[i] == rest[k];
                assert(rest[k] == t[k]);
            } else if i == p {
                assert(r[i] == t[t.len() - 1]);
            } else {
                assert(r[i] == s[i - 1]);
                let k = choose|k: int| 0 <= k < rest.len() && s[i - 1] == rest[k];
                assert(rest[k] == t[k]);
            }
        }
    }
}

/// Every pair in a tally has its ids in std's order of strings: the first never
/// comes after the second.
pub open spec fn ids_ordered(t: Seq<(Seq<char>, Seq<char>, nat, Seq<Seq<char>>)>) -> bool {
    forall|k: int| 0 <= k < t.len() ==> !text_less(#[trigger] t[k].1, t[k].0)
}

proof fn lemma_add_pair_ordered(t: Seq<(Seq<char>, Seq<char>, nat, Seq<Seq<char>>)>, a: Seq<char>, b: Seq<char>, ch: Seq<char>)
    requires
        ids_ordered(t),
    ensures
        ids_ordered(add_pair(t, pair_key(a, b), ch)),
{
    lemma_find_pair(t, pair_key(a, b), 0);
    if text_less(a, b) {
        lemma_text_less_asymmetric(a, b);
    }
    let r = add_pair(t, pair_key(a, b), ch);
    assert forall|k: int| 0 <= k < r.len() implies !text_less(#[trigger] r[k].1, r[k].0) by {
        if k < t.len() {
            assert(r[k].0 == t[k].0 && r[k].1 == t[k].1 || (r[k].0 == pair_key(a, b).0 && r[k].1 == pair_key(a, b).1));
        }
    }
}

proof fn lemma_add_row_ordered(t: Seq<(Seq<char>, Seq<char>, nat, Seq<Seq<char>>)>, es: Seq<Seq<char>>, ch: Seq<char>, i: int, j: int)
    requires
        ids_ordered(t),
    ensures
        ids_ordered(add_row(t, es, ch, i, j)),
    decreases es.len() - j,
{
    if !(j < 0 || j >= es.len()) {
        lemma_add_pair_ordered(t, es[i], es[j], ch);
        lemma_add_row_ordered(add_pair(t, pair_key(es[i], es[j]), ch), es, ch, i, j + 1);
    }
}

proof fn lemma_add_rows_ordered(t: Seq<(Seq<char>, Seq<char>, nat, Seq<Seq<char>>)>, es: Seq<Seq<char>>, ch: Seq<char>, i: int)
    requires
        ids_ordered(t),
    ensures
        ids_ordered(add_rows(t, es, ch, i)),
    decreases es.len() - i,
{
    if !(i < 0 || i >= es.len()) {
        lemma_add_row_ordered(t, es, ch, i, i + 1);
        lemma_add_rows_ordered(add_row(t, es, ch, i, i + 1), es, ch, i + 1);
    }
}

proof fn lemma_add_chunks_ordered(t: Seq<(Seq<char>, Seq<char>, nat, Seq<Seq<char>>)>, chunks: Seq<(Seq<Seq<char>>, Seq<char>)>, c: int)
    requires
        ids_ordered(t),
    ensures
        ids_ordered(add_chunks(t, chunks, c)),
    decreases chunks.len() - c,
{
    if !(c < 0 || c >= chunks.len()) {
        lemma_add_rows_ordered(t, chunks[c].0, chunks[c].1, 0);
        lemma_add_chunks_ordered(add_rows(t, chunks[c].0, chunks[c].1, 0), chunks, c + 1);
    }
}

fn find_pair_exec(tally: &Vec<EntityCooccurrence>, a: &str, b: &str) -> (res: Option<usize>)
    ensures
        match res {
            Some(k) => find_pair(tally_view(tally@), (a@, b@), 0) == Some(k as int),
            None => find_pair(tally_view(tally@), (a@, b@), 0) is None,
        },
{
    let ghost t = tally_view(tally@);
    let mut k: usize = 0;
    while k < tally.len()
        invariant
            k <= tally@.len(),
            t == tally_view(tally@),
            find_pair(t, (a@, b@), 0) == find_pair(t, (a@, b@), k as int),
        decreases tally.len() - k,
    {
        proof {
            assert(t[k as int] == cooc_view(tally@[k as int]));
        }
        if str_eq(tally[k].entity1_id.as_str(), a) && str_eq(tally[k].entity2_id.as_str(), b) {
            return Some(k);
        }
        k = k + 1;
    }
    None
}

fn add_pair_exec(tally: &mut Vec<EntityCooccurrence>, a: &str, b: &str, ch: &str)
    requires
        forall|k: int|
            find_pair(tally_view(old(tally)@), (a@, b@), 0) == Some(k) ==> #[trigger] tally_view(old(tally)@)[k].2
                < u32::MAX,
    ensures
        tally_view(final(tally)@) == add_pair(tally_view(old(tally)@), (a@, b@), ch@),
{
    let ghost t = tally_view(tally@);
    proof {
        lemma_find_pair(t, (a@, b@), 0);
    }
    match find_pair_exec(tally, a, b) {
        Some(k) => {
            assert(t[k as int] == cooc_view(tally@[k as int]));
            let mut chapters = copy_texts(&tally[k].chapters);
            let seen = has_text(&chapters, ch);
            if !seen {
                let ghost before = chapters@;
                chapters.push(copy_text(ch));
                assert(texts(chapters@) =~= texts(before).push(ch@));
            }
            let e = EntityCooccurrence {
                entity1_id: copy_text(tally[k].entity1_id.as_str()),
                entity2_id: copy_text(tally[k].entity2_id.as_str()),
                count: tally[k].count + 1,
                chapters,
            };
            tally.set(k, e);
            assert(tally_view(tally@) =~= add_pair(t, (a@, b@), ch@));
        },
        None => {
            let mut chapters: Vec<String> = Vec::new();
            chapters.push(copy_text(ch));
            assert(texts(chapters@) =~= seq![ch@]);
            let e = EntityCooccurrence {
                entity1_id: copy_text(a),
                entity2_id: copy_text(b),
                count: 1,
                chapters,
            };
            tally.push(e);
            assert(tally_view(tally@) =~= add_pair(t, (a@, b@), ch@));
        },
    }
}

fn copy_cooc(e: &EntityCooccurrence) -> (res: EntityCooccurrence)
    ensures
        cooc_view(res) == cooc_view(*e),
{
    EntityCooccurrence {
        entity1_id: copy_text(e.entity1_id.as_str()),
        entity2_id: copy_text(e.entity2_id.as_str()),
        count: e.count,
        chapters: copy_texts(&e.chapters),
    }
}

/// The pairs of entities mentioned in the same chunks, for the relationship graph:
/// for each pair (its ids in std's order of strings), how many times two positions
/// of a chunk's mentions hold it, and the chapters where it is met; the pairs
/// counted most come first, and pairs with equal counts come in the order first met.
pub fn entity_cooccurrences(chunks: &Vec<Chunk>) -> (res: Vec<EntityCooccurrence>)
    requires
        forall|k: int|
            0 <= k < cooccurrence_tally(chunks@).len() ==> #[trigger] cooccurrence_tally(chunks@)[k].2 <= u32::MAX,
    ensures
        tally_view(res@) == by_count_desc(cooccurrence_tally(chunks@)),
        forall|i: int, j: int| 0 <= i < j < res@.len() ==> #[trigger] res@[i].count >= #[trigger] res@[j].count,
        forall|k: int| 0 <= k < res@.len() ==> !text_less(#[trigger] res@[k].entity2_id@, res@[k].entity1_id@),
{
    let ghost all = chunk_entities(chunks@);
    let ghost target = cooccurrence_tally(chunks@);
    let mut tally: Vec<EntityCooccurrence> = Vec::new();
    assert(tally_view(tally@) =~= Seq::empty());
    let mut c: usize = 0;
    while c < chunks.len()
        invariant
            c <= chunks@.len(),
            all == chunk_entities(chunks@),
            target == cooccurrence_tally(chunks@),
            target == add_chunks(tally_view(tally@), all, c as int),
            forall|k: int| 0 <= k < target.len() ==> #[trigger] target[k].2 <= u32::MAX,
        decreases chunks.len() - c,
    {
        let es = &chunks[c].metadata.entities_mentioned;
        let ch = chunks[c].chapter_id.as_str();
        let ghost esv = texts(es@);
        let ghost chv = ch@;
        assert(all[c as int] == (esv, chv));
        let n = es.len();
        let mut i: usize = 0;
        while i < n
            invariant
                i <= n == es@.len(),
                c < chunks@.len(),
                esv == texts(es@),
                chv == ch@,
                target == add_chunks(add_rows(tally_view(tally@), esv, chv, i as int), all, c + 1),
                forall|k: int| 0 <= k < target.len() ==> #[trigger] target[k].2 <= u32::MAX,
            decreases n - i,
        {
            let mut j: usize = i + 1;
            while j < n
                invariant
                    i < n == es@.len(),
                    i + 1 <= j <= n,
                    esv == texts(es@),
                    chv == ch@,
                    target == add_chunks(
                        add_rows(add_row(tally_view(tally@), esv, chv, i as int, j as int), esv, chv, i + 1),
                        all,
                        c + 1,
                    ),
                    forall|k: int| 0 <= k < target.len() ==> #[trigger] target[k].2 <= u32::MAX,
                decreases n - j,
            {
                let first = text_before(es[i].as_str(), es[j].as_str());
                let (x, y) = if first {
                    (i, j)
                } else {
                    (j, i)
                };
                let ghost cur = tally_view(tally@);
                let ghost key = pair_key(esv[i as int], esv[j as int]);
                assert(esv[i as int] == es@[i as int]@ && esv[j as int] == es@[j as int]@);
                assert(key == (es@[x as int]@, es@[y as int]@));
                proof {
                    let after = add_pair(cur, key, chv);
                    assert(add_row(cur, esv, chv, i as int, j as int) == add_row(after, esv, chv, i as int, j + 1));
                    let rest_row = add_row(after, esv, chv, i as int, j + 1);
                    let rest_rows = add_rows(rest_row, esv, chv, i + 1);
                    lemma_add_row_grows(after, esv, chv, i as int, j + 1);
                    lemma_add_rows_grows(rest_row, esv, chv, i + 1);
                    lemma_add_chunks_grows(rest_rows, all, c + 1);
                    lemma_grows_trans(after, rest_row, rest_rows);
                    lemma_grows_trans(after, rest_rows, target);
                    lemma_find_pair(cur, key, 0);
                    assert forall|k: int| find_pair(cur, key, 0) == Some(k) implies #[trigger] cur[k].2 < u32::MAX by {
                        assert(after[k].2 == cur[k].2 + 1);
                        assert(target[k].2 >= after[k].2);
                        assert(target[k].2 <= u32::MAX);
                    }
                }
                add_pair_exec(&mut tally, es[x].as_str(), es[y].as_str(), ch);
                j = j + 1;
            }
            proof {
                assert(add_row(tally_view(tally@), esv, chv, i as int, j as int) == tally_view(tally@));
            }
            i = i + 1;
        }
        proof {
            assert(add_rows(tally_view(tally@), esv, chv, i as int) == tally_view(tally@));
        }
        c = c + 1;
    }
    assert(add_chunks(tally_view(tally@), all, c as int) == tally_view(tally@));
    let ghost e = tally_view(tally@);
    assert(e == target);
    let mut sorted: Vec<EntityCooccurrence> = Vec::new();
    let mut i: usize = 0;
    assert(tally_view(sorted@) =~= by_count_desc(e.take(0)));
    while i < tally.len()
        invariant
            i <= tally@.len(),
            e == tally_view(tally@),
            tally_view(sorted@) == by_count_desc(e.take(i as int)),
        decreases tally.len() - i,
    {
        let cnt = tally[i].count;
        let ghost sv = tally_view(sorted@);
        let ghost x = e[i as int];
        assert(x == cooc_view(tally@[i as int]));
        let mut p: usize = 0;
        proof {
            assert(sv.skip(0) == sv);
        }
        while p < sorted.len() && !(sorted[p].count < cnt)
            invariant
                p <= sorted@.len(),
                sv == tally_view(sorted@),
                x.2 == cnt as nat,
                cooc_slot(sv, x) == p + cooc_slot(sv.skip(p as int), x),
            decreases sorted.len() - p,
        {
            proof {
                assert(sv.skip(p as int)[0] == sv[p as int]);
                assert(sv.skip(p as int).drop_first() =~= sv.skip(p + 1));
            }
            p = p + 1;
        }
        proof {
            if p < sorted@.len() {
                assert(sv.skip(p as int)[0] == sv[p as int]);
            }
            assert(e.take(i + 1).drop_last() =~= e.take(i as int));
            assert(e.take(i + 1).last() == x);
        }
        let ghost before = sorted@;
        let item = copy_cooc(&tally[i]);
        sorted.insert(p, item);
        proof {
            assert(tally_view(sorted@) =~= tally_view(before).insert(p as int, x));
        }
        i = i + 1;
    }
    proof {
        assert(e.take(i as int) =~= e);
        let r = by_count_desc(e);
        lemma_by_count_desc(e);
        lemma_add_chunks_ordered(Seq::empty(), all, 0);
        assert forall|i: int, j: int| 0 <= i < j < sorted@.len() implies #[trigger] sorted@[i].count >= #[trigger] sorted@[j].count by {
            assert(tally_view(sorted@)[i] == r[i] && tally_view(sorted@)[j] == r[j]);
            assert(r[i].2 >= r[j].2);
            assert(cooc_view(sorted@[i]).2 == sorted@[i].count as nat);
            assert(cooc_view(sorted@[j]).2 == sorted@[j].count as nat);
        }
        assert forall|k: int| 0 <= k < sorted@.len() implies !text_less(#[trigger] sorted@[k].entity2_id@, sorted@[k].entity1_id@) by {
            assert(tally_view(sorted@)[k] == r[k]);
            let m = choose|m: int| 0 <= m < e.len() && #[trigger] r[k] == e[m];
            assert(!text_less(e[m].1, e[m].0));
        }
    }
    sorted
}

} // verus!
