//! Merging entities of the story bible that share a name (ignoring case and the
//! surrounding whitespace): the earliest updated one is kept and takes in what the
//! others add.
use vstd::prelude::*;
use crate::inbox::{merge_ignoring_case, merge_new, merged_ignoring_case, merged_new, texts};
use crate::segmentation::opt_view;
use crate::text::{byte_len, chars_of, lowercase, str_eq, string_of, to_lowercase, trim, trim_chars, utf8_byte_len};

verus! {

/// A character as the merge of duplicates reads it.
pub struct CharacterRecord {
    pub id: String,
    pub name: String,
    pub aliases: Vec<String>,
    pub traits: Vec<String>,
    pub evidence: Vec<String>,
    pub description: Option<String>,
    pub updated_at: String,
}

/// A setting as the merge of duplicates reads it.
pub struct SettingRecord {
    pub id: String,
    pub name: String,
    /// The properties (key and value) where they form an object.
    pub properties: Option<Vec<(String, String)>>,
    pub evidence: Vec<String>,
    pub description: Option<String>,
    pub updated_at: String,
}

/// How a group of characters of one name is merged: the one kept, its new aliases,
/// traits, evidence and description, and the ones removed.
pub struct CharacterMergePlan {
    pub keep_id: String,
    pub aliases: Vec<String>,
    pub traits: Vec<String>,
    pub evidence: Vec<String>,
    pub description: Option<String>,
    pub remove_ids: Vec<String>,
}

/// How a group of settings of one name is merged: the one kept, its new properties,
/// evidence and description, and the ones removed.
pub struct SettingMergePlan {
    pub keep_id: String,
    pub properties: Option<Vec<(String, String)>>,
    pub evidence: Vec<String>,
    pub description: Option<String>,
    pub remove_ids: Vec<String>,
}

// ---------------------------------------------------------------------------
// Groups
// ---------------------------------------------------------------------------

/// The key by which names are grouped: trimmed and lowercased.
pub open spec fn name_key(name: Seq<char>) -> Seq<char> {
    lowercase(trim(name))
}

/// Whether `a` comes before `b` (std's order of strings: by code points, a prefix
/// first).
pub open spec fn text_less(a: Seq<char>, b: Seq<char>) -> bool
    decreases a.len(),
{
    if b.len() == 0 {
        false
    } else if a.len() == 0 {
        true
    } else if a[0] != b[0] {
        (a[0] as u32) < (b[0] as u32)
    } else {
        text_less(a.drop_first(), b.drop_first())
    }
}

/// The positions of the first `n` keys equal to `k`, in order.
pub open spec fn members(keys: Seq<Seq<char>>, k: Seq<char>, n: int) -> Seq<int>
    decreases n,
{
    if n <= 0 {
        Seq::<int>::empty()
    } else if keys[n - 1] == k {
        members(keys, k, n - 1).push(n - 1)
    } else {
        members(keys, k, n - 1)
    }
}

/// The distinct keys among the first `n`, in the order first met.
pub open spec fn distinct_keys(keys: Seq<Seq<char>>, n: int) -> Seq<Seq<char>>
    decreases n,
{
    if n <= 0 {
        Seq::<Seq<char>>::empty()
    } else {
        let d = distinct_keys(keys, n - 1);
        if d.contains(keys[n - 1]) {
            d
        } else {
            d.push(keys[n - 1])
        }
    }
}

/// Where position `i` goes among `sorted`: after every position whose time is not
/// later than its own.
pub open spec fn time_slot(times: Seq<Seq<char>>, sorted: Seq<int>, i: int) -> int
    decreases sorted.len(),
{
    if sorted.len() == 0 {
        0
    } else if text_less(times[i], times[sorted[0]]) {
        0
    } else {
        1 + time_slot(times, sorted.drop_first(), i)
    }
}

/// Positions ordered by their times, earliest first, keeping their order among equal
/// times.
pub open spec fn by_time(times: Seq<Seq<char>>, idx: Seq<int>) -> Seq<int>
    decreases idx.len(),
{
    if idx.len() == 0 {
        idx
    } else {
        let s = by_time(times, idx.drop_last());
        s.insert(time_slot(times, s, idx.last()), idx.last())
    }
}

/// For each of `ks` with more than one entry, its entries by time.
pub open spec fn groups_of(keys: Seq<Seq<char>>, times: Seq<Seq<char>>, ks: Seq<Seq<char>>) -> Seq<Seq<int>>
    decreases ks.len(),
{
    if ks.len() == 0 {
        Seq::<Seq<int>>::empty()
    } else {
        let prev = groups_of(keys, times, ks.drop_last());
        let m = members(keys, ks.last(), keys.len() as int);
        if m.len() > 1 {
            prev.push(by_time(times, m))
        } else {
            prev
        }
    }
}

/// The groups of entries that share a key: for each key met more than once, in the
/// order keys are first met, the positions of its entries ordered by time.
pub open spec fn duplicate_groups(keys: Seq<Seq<char>>, times: Seq<Seq<char>>) -> Seq<Seq<int>> {
    groups_of(keys, times, distinct_keys(keys, keys.len() as int))
}

pub(crate) fn text_before(a: &str, b: &str) -> (res: bool)
    ensures
        res == text_less(a@, b@),
{
    let x = chars_of(a);
    let y = chars_of(b);
    let mut i: usize = 0;
    proof {
        assert(x@.skip(0) =~= a@);
        assert(y@.skip(0) =~= b@);
    }
    while i < x.len() && i < y.len()
        invariant
            i <= x@.len(),
            i <= y@.len(),
            text_less(a@, b@) == text_less(x@.skip(i as int), y@.skip(i as int)),
        decreases x.len() - i,
    {
        proof {
            assert(x@.skip(i as int)[0] == x@[i as int]);
            assert(y@.skip(i as int)[0] == y@[i as int]);
            assert(x@.skip(i as int).drop_first() == x@.skip(i + 1));
            assert(y@.skip(i as int).drop_first() == y@.skip(i + 1));
        }
        if x[i] != y[i] {
            return (x[i] as u32) < (y[i] as u32);
        }
        i = i + 1;
    }
    i < y.len()
}

fn key_of(name: &str) -> (res: String)
    ensures
        res@ == name_key(name@),
{
    let t = trim_chars(chars_of(name).as_slice());
    to_lowercase(string_of(t.as_slice()).as_str())
}

fn member_positions(keys: &Vec<String>, k: &str) -> (res: Vec<usize>)
    ensures
        res@.map_values(|i: usize| i as int) == members(texts(keys@), k@, keys@.len() as int),
        forall|j: int| 0 <= j < res@.len() ==> res@[j] < keys@.len(),
{
    let ghost ks = texts(keys@);
    let mut out: Vec<usize> = Vec::new();
    let mut i: usize = 0;
    while i < keys.len()
        invariant
            i <= keys@.len(),
            ks == texts(keys@),
            out@.map_values(|i: usize| i as int) == members(ks, k@, i as int),
            forall|j: int| 0 <= j < out@.len() ==> out@[j] < i,
        decreases keys.len() - i,
    {
        let ghost before = out@;
        if str_eq(keys[i].as_str(), k) {
            out.push(i);
            proof {
                assert(out@.map_values(|i: usize| i as int) =~= before.map_values(|i: usize| i as int).push(
                    i as int,
                ));
            }
        }
        i = i + 1;
    }
    out
}

fn distinct_of(keys: &Vec<String>) -> (res: Vec<String>)
    ensures
        texts(res@) == distinct_keys(texts(keys@), keys@.len() as int),
{
    let ghost ks = texts(keys@);
    let mut out: Vec<String> = Vec::new();
    let mut i: usize = 0;
    assert(texts(out@) =~= Seq::<Seq<char>>::empty());
    while i < keys.len()
        invariant
            i <= keys@.len(),
            ks == texts(keys@),
            texts(out@) == distinct_keys(ks, i as int),
        decreases keys.len() - i,
    {
        let mut j: usize = 0;
        let mut seen = false;
        while j < out.len()
            invariant
                j <= out@.len(),
                i < keys@.len(),
                seen <==> exists|q: int| 0 <= q < j && texts(out@)[q] == keys@[i as int]@,
            decreases out.len() - j,
        {
            if str_eq(out[j].as_str(), keys[i].as_str()) {
                seen = true;
                assert(texts(out@)[j as int] == keys@[i as int]@);
            }
            j = j + 1;
        }
        if !seen {
            let ghost before = out@;
            out.push(string_of(chars_of(keys[i].as_str()).as_slice()));
            proof {
                assert(texts(out@) =~= texts(before).push(keys@[i as int]@));
            }
        }
        i = i + 1;
    }
    out
}

fn slot_of(times: &Vec<String>, sorted: &Vec<usize>, i: usize) -> (res: usize)
    requires
        i < times@.len(),
        forall|j: int| 0 <= j < sorted@.len() ==> sorted@[j] < times@.len(),
    ensures
        res as int == time_slot(texts(times@), sorted@.map_values(|q: usize| q as int), i as int),
        res <= sorted@.len(),
{
    let ghost ts = texts(times@);
    let ghost sv = sorted@.map_values(|q: usize| q as int);
    let mut p: usize = 0;
    proof {
        assert(sv.skip(0) == sv);
    }
    while p < sorted.len()
        invariant
            p <= sorted@.len(),
            i < times@.len(),
            ts == texts(times@),
            sv == sorted@.map_values(|q: usize| q as int),
            forall|j: int| 0 <= j < sorted@.len() ==> sorted@[j] < times@.len(),
            time_slot(ts, sv, i as int) == p + time_slot(ts, sv.skip(p as int), i as int),
        decreases sorted.len() - p,
    {
        proof {
            assert(sv.skip(p as int)[0] == sorted@[p as int] as int);
            assert(sv.skip(p as int).drop_first() == sv.skip(p + 1));
        }
        if text_before(times[i].as_str(), times[sorted[p]].as_str()) {
            return p;
        }
        p = p + 1;
    }
    p
}

fn sort_by_time(times: &Vec<String>, idx: &Vec<usize>) -> (res: Vec<usize>)
    requires
        forall|j: int| 0 <= j < idx@.len() ==> idx@[j] < times@.len(),
    ensures
        res@.map_values(|q: usize| q as int) == by_time(texts(times@), idx@.map_values(|q: usize| q as int)),
        forall|j: int| 0 <= j < res@.len() ==> res@[j] < times@.len(),
        res@.len() == idx@.len(),
{
    let ghost ts = texts(times@);
    let ghost iv = idx@.map_values(|q: usize| q as int);
    let mut out: Vec<usize> = Vec::new();
    let mut k: usize = 0;
    assert(out@.map_values(|q: usize| q as int) =~= by_time(ts, iv.take(0)));
    while k < idx.len()
        invariant
            k <= idx@.len(),
            ts == texts(times@),
            iv == idx@.map_values(|q: usize| q as int),
            forall|j: int| 0 <= j < idx@.len() ==> idx@[j] < times@.len(),
            forall|j: int| 0 <= j < out@.len() ==> out@[j] < times@.len(),
            out@.len() == k,
            out@.map_values(|q: usize| q as int) == by_time(ts, iv.take(k as int)),
        decreases idx.len() - k,
    {
        let p = slot_of(times, &out, idx[k]);
        let ghost before = out@;
        out.insert(p, idx[k]);
        proof {
            assert(iv.take(k + 1).drop_last() == iv.take(k as int));
            assert(iv.take(k + 1).last() == idx@[k as int] as int);
            assert(out@.map_values(|q: usize| q as int) =~= before.map_values(|q: usize| q as int).insert(
                p as int,
                idx@[k as int] as int,
            ));
            assert forall|j: int| 0 <= j < out@.len() implies out@[j] < times@.len() by {
                if j < p {
                    assert(out@[j] == before[j]);
                } else if j > p {
                    assert(out@[j] == before[j - 1]);
                }
            }
        }
        k = k + 1;
    }
    proof {
        assert(iv.take(k as int) == iv);
    }
    out
}

/// The groups of entries that share a key (see `duplicate_groups`), given each entry's
/// key and update time.
pub fn find_duplicate_groups(keys: &Vec<String>, times: &Vec<String>) -> (res: Vec<Vec<usize>>)
    requires
        keys@.len() == times@.len(),
    ensures
        res@.len() == duplicate_groups(texts(keys@), texts(times@)).len(),
        forall|g: int|
            0 <= g < res@.len() ==> (#[trigger] res@[g])@.map_values(|q: usize| q as int) == duplicate_groups(
                texts(keys@),
                texts(times@),
            )[g],
        forall|g: int, j: int|
            0 <= g < res@.len() && 0 <= j < res@[g]@.len() ==> #[trigger] res@[g]@[j] < keys@.len(),
        forall|g: int| 0 <= g < res@.len() ==> (#[trigger] res@[g])@.len() > 1,
{
    let ghost kv = texts(keys@);
    let ghost tv = texts(times@);
    let ds = distinct_of(keys);
    let ghost dv = texts(ds@);
    let mut out: Vec<Vec<usize>> = Vec::new();
    let mut i: usize = 0;
    while i < ds.len()
        invariant
            i <= ds@.len(),
            keys@.len() == times@.len(),
            kv == texts(keys@),
            tv == texts(times@),
            dv == texts(ds@),
            out@.len() == groups_of(kv, tv, dv.take(i as int)).len(),
            forall|g: int|
                0 <= g < out@.len() ==> (#[trigger] out@[g])@.map_values(|q: usize| q as int) == groups_of(
                    kv,
                    tv,
                    dv.take(i as int),
                )[g],
            forall|g: int, j: int|
                0 <= g < out@.len() && 0 <= j < out@[g]@.len() ==> #[trigger] out@[g]@[j] < keys@.len(),
            forall|g: int| 0 <= g < out@.len() ==> (#[trigger] out@[g])@.len() > 1,
        decreases ds.len() - i,
    {
        proof {
            assert(dv.take(i + 1).drop_last() == dv.take(i as int));
            assert(dv.take(i + 1).last() == ds@[i as int]@);
        }
        let m = member_positions(keys, ds[i].as_str());
        if m.len() > 1 {
            proof {
                assert forall|j: int| 0 <= j < m@.len() implies m@[j] < times@.len() by {}
            }
            let sorted = sort_by_time(times, &m);
            let ghost before = out@;
            out.push(sorted);
            proof {
                assert(m@.map_values(|q: usize| q as int).len() == m@.len());
                assert forall|g: int|
                    0 <= g < out@.len() implies (#[trigger] out@[g])@.map_values(|q: usize| q as int)
                        == groups_of(kv, tv, dv.take(i + 1))[g] by {
                    if g < before.len() {
                        assert(out@[g] == before[g]);
                    }
                }
                assert forall|g: int, j: int|
                    0 <= g < out@.len() && 0 <= j < out@[g]@.len() implies #[trigger] out@[g]@[j] < keys@.len() by {
                    if g < before.len() {
                        assert(out@[g] == before[g]);
                    }
                }
                assert forall|g: int| 0 <= g < out@.len() implies (#[trigger] out@[g])@.len() > 1 by {
                    if g < before.len() {
                        assert(out@[g] == before[g]);
                    }
                }
            }
        } else {
            proof {
                assert(m@.map_values(|q: usize| q as int).len() == m@.len());
            }
        }
        i = i + 1;
    }
    proof {
        assert(dv.take(i as int) == dv);
    }
    out
}

// ---------------------------------------------------------------------------
// Merging a group
// ---------------------------------------------------------------------------

/// The longer of two descriptions (in UTF-8 bytes), the current one where not shorter.
pub open spec fn longer_description(current: Option<Seq<char>>, other: Option<Seq<char>>) -> Option<Seq<char>> {
    match other {
        Some(d) => match current {
            Some(e) => if byte_len(e) < byte_len(d) {
                Some(d)
            } else {
                current
            },
            None => Some(d),
        },
        None => current,
    }
}

/// What merging changes of a character: aliases, traits, evidence, description.
pub type CharacterMerged = (Seq<Seq<char>>, Seq<Seq<char>>, Seq<Seq<char>>, Option<Seq<char>>);

pub open spec fn character_state(c: CharacterRecord) -> CharacterMerged {
    (texts(c.aliases@), texts(c.traits@), texts(c.evidence@), opt_view(c.description))
}

/// A duplicate taken in: its aliases and traits not held yet (ignoring case), its
/// evidence not held yet, and its description where longer.
pub open spec fn take_in_character(m: CharacterMerged, d: CharacterRecord) -> CharacterMerged {
    (
        merged_ignoring_case(m.0, texts(d.aliases@)),
        merged_ignoring_case(m.1, texts(d.traits@)),
        merged_new(m.2, texts(d.evidence@)),
        longer_description(m.3, opt_view(d.description)),
    )
}

pub open spec fn take_in_characters(m: CharacterMerged, dups: Seq<CharacterRecord>) -> CharacterMerged
    decreases dups.len(),
{
    if dups.len() == 0 {
        m
    } else {
        take_in_character(take_in_characters(m, dups.drop_last()), dups.last())
    }
}

pub open spec fn ids_of_characters(cs: Seq<CharacterRecord>) -> Seq<Seq<char>> {
    cs.map_values(|c: CharacterRecord| c.id@)
}

/// The merge of a group (positions ordered by time): the first is kept and takes in
/// the others in order; the others are removed.
pub open spec fn character_group_plan(cs: Seq<CharacterRecord>, g: Seq<int>) -> (Seq<char>, CharacterMerged, Seq<Seq<char>>) {
    let ms = g.map_values(|i: int| cs[i]);
    (ms[0].id@, take_in_characters(character_state(ms[0]), ms.drop_first()), ids_of_characters(ms.drop_first()))
}

pub open spec fn character_plan_view(p: CharacterMergePlan) -> (Seq<char>, CharacterMerged, Seq<Seq<char>>) {
    (p.keep_id@, (texts(p.aliases@), texts(p.traits@), texts(p.evidence@), opt_view(p.description)), texts(p.remove_ids@))
}

pub open spec fn character_keys(cs: Seq<CharacterRecord>) -> Seq<Seq<char>> {
    cs.map_values(|c: CharacterRecord| name_key(c.name@))
}

pub open spec fn character_times(cs: Seq<CharacterRecord>) -> Seq<Seq<char>> {
    cs.map_values(|c: CharacterRecord| c.updated_at@)
}

fn copy_text(s: &String) -> (res: String)
    ensures
        res@ == s@,
{
    string_of(chars_of(s.as_str()).as_slice())
}

fn copy_texts(v: &Vec<String>) -> (res: Vec<String>)
    ensures
        texts(res@) == texts(v@),
{
    let mut out: Vec<String> = Vec::new();
    let mut i: usize = 0;
    while i < v.len()
        invariant
            i <= v@.len(),
            texts(out@) == texts(v@).take(i as int),
        decreases v.len() - i,
    {
        let ghost before = out@;
        out.push(copy_text(&v[i]));
        proof {
            assert(texts(out@) =~= texts(before).push(v@[i as int]@));
            assert(texts(v@).take(i + 1) =~= texts(v@).take(i as int).push(v@[i as int]@));
        }
        i = i + 1;
    }
    assert(texts(v@).take(i as int) =~= texts(v@));
    out
}

fn copy_opt(o: &Option<String>) -> (res: Option<String>)
    ensures
        opt_view(res) == opt_view(*o),
{
    match o {
        Some(s) => Some(copy_text(s)),
        None => None,
    }
}

fn longer(current: Option<String>, other: &Option<String>) -> (res: Option<String>)
    ensures
        opt_view(res) == longer_description(opt_view(current), opt_view(*other)),
{
    match other {
        Some(d) => match current {
            Some(e) => {
                if utf8_byte_len(chars_of(e.as_str()).as_slice()) < utf8_byte_len(chars_of(d.as_str()).as_slice()) {
                    Some(copy_text(d))
                } else {
                    Some(e)
                }
            },
            None => Some(copy_text(d)),
        },
        None => current,
    }
}

fn names_keys_times(cs: &Vec<CharacterRecord>) -> (res: (Vec<String>, Vec<String>))
    ensures
        texts(res.0@) == character_keys(cs@),
        texts(res.1@) == character_times(cs@),
        res.0@.len() == cs@.len(),
        res.1@.len() == cs@.len(),
{
    let mut keys: Vec<String> = Vec::new();
    let mut times: Vec<String> = Vec::new();
    let mut i: usize = 0;
    while i < cs.len()
        invariant
            i <= cs@.len(),
            keys@.len() == i,
            times@.len() == i,
            texts(keys@) == character_keys(cs@).take(i as int),
            texts(times@) == character_times(cs@).take(i as int),
        decreases cs.len() - i,
    {
        let ghost bk = keys@;
        let ghost bt = times@;
        keys.push(key_of(cs[i].name.as_str()));
        times.push(copy_text(&cs[i].updated_at));
        proof {
            assert(texts(keys@) =~= texts(bk).push(name_key(cs@[i as int].name@)));
            assert(texts(times@) =~= texts(bt).push(cs@[i as int].updated_at@));
            assert(character_keys(cs@).take(i + 1) =~= character_keys(cs@).take(i as int).push(
                name_key(cs@[i as int].name@),
            ));
            assert(character_times(cs@).take(i + 1) =~= character_times(cs@).take(i as int).push(
                cs@[i as int].updated_at@,
            ));
        }
        i = i + 1;
    }
    proof {
        assert(character_keys(cs@).take(i as int) =~= character_keys(cs@));
        assert(character_times(cs@).take(i as int) =~= character_times(cs@));
    }
    (keys, times)
}

fn merge_character_group(cs: &Vec<CharacterRecord>, g: &Vec<usize>) -> (res: CharacterMergePlan)
    requires
        g@.len() > 1,
        forall|j: int| 0 <= j < g@.len() ==> g@[j] < cs@.len(),
    ensures
        character_plan_view(res) == character_group_plan(cs@, g@.map_values(|q: usize| q as int)),
{
    let ghost ms = g@.map_values(|q: usize| q as int).map_values(|i: int| cs@[i]);
    let ghost dups = ms.drop_first();
    let first = &cs[g[0]];
    assert(ms[0] == *first);
    let mut aliases = copy_texts(&first.aliases);
    let mut traits = copy_texts(&first.traits);
    let mut evidence = copy_texts(&first.evidence);
    let mut description = copy_opt(&first.description);
    let mut removed: Vec<String> = Vec::new();
    let mut k: usize = 1;
    proof {
        assert(dups.take(0) =~= Seq::<CharacterRecord>::empty());
        assert(texts(removed@) =~= ids_of_characters(dups.take(0)));
    }
    while k < g.len()
        invariant
            1 <= k <= g@.len(),
            forall|j: int| 0 <= j < g@.len() ==> g@[j] < cs@.len(),
            ms == g@.map_values(|q: usize| q as int).map_values(|i: int| cs@[i]),
            dups == ms.drop_first(),
            ms[0] == *first,
            (texts(aliases@), texts(traits@), texts(evidence@), opt_view(description)) == take_in_characters(
                character_state(*first),
                dups.take(k - 1),
            ),
            texts(removed@) == ids_of_characters(dups.take(k - 1)),
        decreases g.len() - k,
    {
        let d = &cs[g[k]];
        proof {
            assert(dups[k - 1] == *d);
            assert(dups.take(k as int).drop_last() =~= dups.take(k - 1));
            assert(dups.take(k as int).last() == *d);
        }
        merge_ignoring_case(&mut aliases, d.aliases.as_slice());
        merge_ignoring_case(&mut traits, d.traits.as_slice());
        merge_new(&mut evidence, d.evidence.as_slice());
        description = longer(description, &d.description);
        let ghost before = removed@;
        removed.push(copy_text(&d.id));
        proof {
            assert(texts(removed@) =~= texts(before).push(d.id@));
            assert(ids_of_characters(dups.take(k as int)) =~= ids_of_characters(dups.take(k - 1)).push(d.id@));
        }
        k = k + 1;
    }
    proof {
        assert(dups.take(k - 1) =~= dups);
    }
    CharacterMergePlan {
        keep_id: copy_text(&first.id),
        aliases,
        traits,
        evidence,
        description,
        remove_ids: removed,
    }
}

/// How the characters that share a name are merged: one plan for each name held by
/// more than one character, in the order names are first met (see
/// `character_group_plan` and `duplicate_groups`).
pub fn plan_character_merges(cs: &Vec<CharacterRecord>) -> (res: Vec<CharacterMergePlan>)
    ensures
        res@.len() == duplicate_groups(character_keys(cs@), character_times(cs@)).len(),
        forall|g: int|
            0 <= g < res@.len() ==> character_plan_view(#[trigger] res@[g]) == character_group_plan(
                cs@,
                duplicate_groups(character_keys(cs@), character_times(cs@))[g],
            ),
{
    let (keys, times) = names_keys_times(cs);
    let groups = find_duplicate_groups(&keys, &times);
    let ghost gs = duplicate_groups(character_keys(cs@), character_times(cs@));
    let mut out: Vec<CharacterMergePlan> = Vec::new();
    let mut i: usize = 0;
    while i < groups.len()
        invariant
            i <= groups@.len(),
            keys@.len() == cs@.len(),
            gs == duplicate_groups(character_keys(cs@), character_times(cs@)),
            groups@.len() == gs.len(),
            forall|g: int| 0 <= g < groups@.len() ==> (#[trigger] groups@[g])@.map_values(|q: usize| q as int) == gs[g],
            forall|g: int, j: int| 0 <= g < groups@.len() && 0 <= j < groups@[g]@.len() ==> #[trigger] groups@[g]@[j] < keys@.len(),
            forall|g: int| 0 <= g < groups@.len() ==> (#[trigger] groups@[g])@.len() > 1,
            out@.len() == i,
            forall|g: int| 0 <= g < i ==> character_plan_view(#[trigger] out@[g]) == character_group_plan(cs@, gs[g]),
        decreases groups.len() - i,
    {
        let gi = &groups[i];
        assert(gi@.len() > 1);
        assert forall|j: int| 0 <= j < gi@.len() implies gi@[j] < cs@.len() by {
            assert(groups@[i as int]@[j] < keys@.len());
        }
        let plan = merge_character_group(cs, gi);
        out.push(plan);
        i = i + 1;
    }
    out
}

// ---------------------------------------------------------------------------
// Settings
// ---------------------------------------------------------------------------

pub open spec fn pair_views(v: Seq<(String, String)>) -> Seq<(Seq<char>, Seq<char>)> {
    v.map_values(|p: (String, String)| (p.0@, p.1@))
}

pub open spec fn opt_pairs(o: Option<Vec<(String, String)>>) -> Option<Seq<(Seq<char>, Seq<char>)>> {
    match o {
        Some(v) => Some(pair_views(v@)),
        None => None,
    }
}

pub open spec fn has_key(ps: Seq<(Seq<char>, Seq<char>)>, k: Seq<char>) -> bool {
    exists|i: int| 0 <= i < ps.len() && ps[i].0 == k
}

/// `ps` with each of `more` whose key it lacks added, in order.
pub open spec fn add_new_keys(ps: Seq<(Seq<char>, Seq<char>)>, more: Seq<(Seq<char>, Seq<char>)>) -> Seq<
    (Seq<char>, Seq<char>),
>
    decreases more.len(),
{
    if more.len() == 0 {
        ps
    } else {
        let a = add_new_keys(ps, more.drop_last());
        if has_key(a, more.last().0) {
            a
        } else {
            a.push(more.last())
        }
    }
}

/// Properties taken in: where both form objects, the keys not held yet are added.
pub open spec fn merged_properties(
    current: Option<Seq<(Seq<char>, Seq<char>)>>,
    other: Option<Seq<(Seq<char>, Seq<char>)>>,
) -> Option<Seq<(Seq<char>, Seq<char>)>> {
    match current {
        Some(c) => match other {
            Some(o) => Some(add_new_keys(c, o)),
            None => current,
        },
        None => current,
    }
}

/// What merging changes of a setting: properties, evidence, description.
pub type SettingMerged = (Option<Seq<(Seq<char>, Seq<char>)>>, Seq<Seq<char>>, Option<Seq<char>>);

pub open spec fn setting_state(s: SettingRecord) -> SettingMerged {
    (opt_pairs(s.properties), texts(s.evidence@), opt_view(s.description))
}

/// A duplicate taken in: its properties of new keys, its evidence not held yet, and
/// its description where longer.
pub open spec fn take_in_setting(m: SettingMerged, d: SettingRecord) -> SettingMerged {
    (
        merged_properties(m.0, opt_pairs(d.properties)),
        merged_new(m.1, texts(d.evidence@)),
        longer_description(m.2, opt_view(d.description)),
    )
}

pub open spec fn take_in_settings(m: SettingMerged, dups: Seq<SettingRecord>) -> SettingMerged
    decreases dups.len(),
{
    if dups.len() == 0 {
        m
    } else {
        take_in_setting(take_in_settings(m, dups.drop_last()), dups.last())
    }
}

pub open spec fn ids_of_settings(ss: Seq<SettingRecord>) -> Seq<Seq<char>> {
    ss.map_values(|s: SettingRecord| s.id@)
}

/// The merge of a group of settings (positions ordered by time): the first is kept
/// and takes in the others in order; the others are removed.
pub open spec fn setting_group_plan(ss: Seq<SettingRecord>, g: Seq<int>) -> (Seq<char>, SettingMerged, Seq<Seq<char>>) {
    let ms = g.map_values(|i: int| ss[i]);
    (ms[0].id@, take_in_settings(setting_state(ms[0]), ms.drop_first()), ids_of_settings(ms.drop_first()))
}

pub open spec fn setting_plan_view(p: SettingMergePlan) -> (Seq<char>, SettingMerged, Seq<Seq<char>>) {
    (p.keep_id@, (opt_pairs(p.properties), texts(p.evidence@), opt_view(p.description)), texts(p.remove_ids@))
}

pub open spec fn setting_keys(ss: Seq<SettingRecord>) -> Seq<Seq<char>> {
    ss.map_values(|s: SettingRecord| name_key(s.name@))
}

pub open spec fn setting_times(ss: Seq<SettingRecord>) -> Seq<Seq<char>> {
    ss.map_values(|s: SettingRecord| s.updated_at@)
}

fn copy_pairs(v: &Vec<(String, String)>) -> (res: Vec<(String, String)>)
    ensures
        pair_views(res@) == pair_views(v@),
{
    let mut out: Vec<(String, String)> = Vec::new();
    let mut i: usize = 0;
    while i < v.len()
        invariant
            i <= v@.len(),
            pair_views(out@) == pair_views(v@).take(i as int),
        decreases v.len() - i,
    {
        let ghost before = out@;
        out.push((copy_text(&v[i].0), copy_text(&v[i].1)));
        proof {
            assert(pair_views(out@) =~= pair_views(before).push((v@[i as int].0@, v@[i as int].1@)));
            assert(pair_views(v@).take(i + 1) =~= pair_views(v@).take(i as int).push(
                (v@[i as int].0@, v@[i as int].1@),
            ));
        }
        i = i + 1;
    }
    assert(pair_views(v@).take(i as int) =~= pair_views(v@));
    out
}

fn key_present(ps: &Vec<(String, String)>, k: &str) -> (res: bool)
    ensures
        res == has_key(pair_views(ps@), k@),
{
    let mut i: usize = 0;
    while i < ps.len()
        invariant
            i <= ps@.len(),
            forall|j: int| 0 <= j < i ==> pair_views(ps@)[j].0 != k@,
        decreases ps.len() - i,
    {
        if str_eq(ps[i].0.as_str(), k) {
            assert(pair_views(ps@)[i as int].0 == k@);
            return true;
        }
        i = i + 1;
    }
    false
}

pub(crate) fn add_keys(ps: &mut Vec<(String, String)>, more: &Vec<(String, String)>)
    ensures
        pair_views(final(ps)@) == add_new_keys(pair_views(old(ps)@), pair_views(more@)),
{
    let ghost start = pair_views(ps@);
    let ghost mv = pair_views(more@);
    let mut i: usize = 0;
    while i < more.len()
        invariant
            i <= more@.len(),
            mv == pair_views(more@),
            pair_views(ps@) == add_new_keys(start, mv.take(i as int)),
        decreases more.len() - i,
    {
        proof {
            assert(mv.take(i + 1).drop_last() =~= mv.take(i as int));
            assert(mv.take(i + 1).last() == (more@[i as int].0@, more@[i as int].1@));
        }
        if !key_present(ps, more[i].0.as_str()) {
            let ghost before = ps@;
            ps.push((copy_text(&more[i].0), copy_text(&more[i].1)));
            proof {
                assert(pair_views(ps@) =~= pair_views(before).push((more@[i as int].0@, more@[i as int].1@)));
            }
        }
        i = i + 1;
    }
    assert(mv.take(i as int) =~= mv);
}

fn merge_properties(current: Option<Vec<(String, String)>>, other: &Option<Vec<(String, String)>>) -> (res: Option<
    Vec<(String, String)>,
>)
    ensures
        opt_pairs(res) == merged_properties(opt_pairs(current), opt_pairs(*other)),
{
    match current {
        Some(mut c) => match other {
            Some(o) => {
                add_keys(&mut c, o);
                Some(c)
            },
            None => Some(c),
        },
        None => None,
    }
}

fn setting_keys_times(ss: &Vec<SettingRecord>) -> (res: (Vec<String>, Vec<String>))
    ensures
        texts(res.0@) == setting_keys(ss@),
        texts(res.1@) == setting_times(ss@),
        res.0@.len() == ss@.len(),
        res.1@.len() == ss@.len(),
{
    let mut keys: Vec<String> = Vec::new();
    let mut times: Vec<String> = Vec::new();
    let mut i: usize = 0;
    while i < ss.len()
        invariant
            i <= ss@.len(),
            keys@.len() == i,
            times@.len() == i,
            texts(keys@) == setting_keys(ss@).take(i as int),
            texts(times@) == setting_times(ss@).take(i as int),
        decreases ss.len() - i,
    {
        let ghost bk = keys@;
        let ghost bt = times@;
        keys.push(key_of(ss[i].name.as_str()));
        times.push(copy_text(&ss[i].updated_at));
        proof {
            assert(texts(keys@) =~= texts(bk).push(name_key(ss@[i as int].name@)));
            assert(texts(times@) =~= texts(bt).push(ss@[i as int].updated_at@));
            assert(setting_keys(ss@).take(i + 1) =~= setting_keys(ss@).take(i as int).push(
                name_key(ss@[i as int].name@),
            ));
            assert(setting_times(ss@).take(i + 1) =~= setting_times(ss@).take(i as int).push(
                ss@[i as int].updated_at@,
            ));
        }
        i = i + 1;
    }
    proof {
        assert(setting_keys(ss@).take(i as int) =~= setting_keys(ss@));
        assert(setting_times(ss@).take(i as int) =~= setting_times(ss@));
    }
    (keys, times)
}

fn merge_setting_group(ss: &Vec<SettingRecord>, g: &Vec<usize>) -> (res: SettingMergePlan)
    requires
        g@.len() > 1,
        forall|j: int| 0 <= j < g@.len() ==> g@[j] < ss@.len(),
    ensures
        setting_plan_view(res) == setting_group_plan(ss@, g@.map_values(|q: usize| q as int)),
{
    let ghost ms = g@.map_values(|q: usize| q as int).map_values(|i: int| ss@[i]);
    let ghost dups = ms.drop_first();
    let first = &ss[g[0]];
    assert(ms[0] == *first);
    let mut properties = match &first.properties {
        Some(p) => Some(copy_pairs(p)),
        None => None,
    };
    let mut evidence = copy_texts(&first.evidence);
    let mut description = copy_opt(&first.description);
    let mut removed: Vec<String> = Vec::new();
    let mut k: usize = 1;
    proof {
        assert(dups.take(0) =~= Seq::<SettingRecord>::empty());
        assert(texts(removed@) =~= ids_of_settings(dups.take(0)));
    }
    while k < g.len()
        invariant
            1 <= k <= g@.len(),
            forall|j: int| 0 <= j < g@.len() ==> g@[j] < ss@.len(),
            ms == g@.map_values(|q: usize| q as int).map_values(|i: int| ss@[i]),
            dups == ms.drop_first(),
            ms[0] == *first,
            (opt_pairs(properties), texts(evidence@), opt_view(description)) == take_in_settings(
                setting_state(*first),
                dups.take(k - 1),
            ),
            texts(removed@) == ids_of_settings(dups.take(k - 1)),
        decreases g.len() - k,
    {
        let d = &ss[g[k]];
        proof {
            assert(dups[k - 1] == *d);
            assert(dups.take(k as int).drop_last() =~= dups.take(k - 1));
            assert(dups.take(k as int).last() == *d);
        }
        properties = merge_properties(properties, &d.properties);
        merge_new(&mut evidence, d.evidence.as_slice());
        description = longer(description, &d.description);
        let ghost before = removed@;
        removed.push(copy_text(&d.id));
        proof {
            assert(texts(removed@) =~= texts(before).push(d.id@));
            assert(ids_of_settings(dups.take(k as int)) =~= ids_of_settings(dups.take(k - 1)).push(d.id@));
        }
        k = k + 1;
    }
    proof {
        assert(dups.take(k - 1) =~= dups);
    }
    SettingMergePlan { keep_id: copy_text(&first.id), properties, evidence, description, remove_ids: removed }
}

/// How the settings that share a name are merged: one plan for each name held by
/// more than one setting, in the order names are first met (see
/// `setting_group_plan` and `duplicate_groups`).
pub fn plan_setting_merges(ss: &Vec<SettingRecord>) -> (res: Vec<SettingMergePlan>)
    ensures
        res@.len() == duplicate_groups(setting_keys(ss@), setting_times(ss@)).len(),
        forall|g: int|
            0 <= g < res@.len() ==> setting_plan_view(#[trigger] res@[g]) == setting_group_plan(
                ss@,
                duplicate_groups(setting_keys(ss@), setting_times(ss@))[g],
            ),
{
    let (keys, times) = setting_keys_times(ss);
    let groups = find_duplicate_groups(&keys, &times);
    let ghost gs = duplicate_groups(setting_keys(ss@), setting_times(ss@));
    let mut out: Vec<SettingMergePlan> = Vec::new();
    let mut i: usize = 0;
    while i < groups.len()
        invariant
            i <= groups@.len(),
            keys@.len() == ss@.len(),
            gs == duplicate_groups(setting_keys(ss@), setting_times(ss@)),
            groups@.len() == gs.len(),
            forall|g: int| 0 <= g < groups@.len() ==> (#[trigger] groups@[g])@.map_values(|q: usize| q as int) == gs[g],
            forall|g: int, j: int| 0 <= g < groups@.len() && 0 <= j < groups@[g]@.len() ==> #[trigger] groups@[g]@[j] < keys@.len(),
            forall|g: int| 0 <= g < groups@.len() ==> (#[trigger] groups@[g])@.len() > 1,
            out@.len() == i,
            forall|g: int| 0 <= g < i ==> setting_plan_view(#[trigger] out@[g]) == setting_group_plan(ss@, gs[g]),
        decreases groups.len() - i,
    {
        let gi = &groups[i];
        assert(gi@.len() > 1);
        assert forall|j: int| 0 <= j < gi@.len() implies gi@[j] < ss@.len() by {
            assert(groups@[i as int]@[j] < keys@.len());
        }
        let plan = merge_setting_group(ss, gi);
        out.push(plan);
        i = i + 1;
    }
    out
}

} // verus!
