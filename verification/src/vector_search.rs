//! Finding the known entities that a text mentions.
use vstd::prelude::*;
use crate::text::{
    blank, byte_len, char_width, chars_of, contains, contains_chars, find_from, is_blank, is_whitespace,
    is_ws, lowercase, occurs_at, string_of, to_lowercase,
};

verus! {

/// A known entity: id, name, aliases and kind.
pub struct EntityInfo {
    pub id: String,
    pub name: String,
    pub aliases: Vec<String>,
    pub entity_type: String,
}

/// All known entities of a book, by kind.
pub struct AllEntities {
    pub characters: Vec<EntityInfo>,
    pub settings: Vec<EntityInfo>,
    pub events: Vec<EntityInfo>,
}

/// A known entity that a text mentions, with the byte ranges where it occurs.
pub struct EntityMention {
    pub entity_id: String,
    pub entity_name: String,
    pub entity_type: String,
    /// (start, end) positions in text
    pub positions: Vec<(usize, usize)>,
}

// ---------------------------------------------------------------------------
// Normalized matching
// ---------------------------------------------------------------------------

/// Punctuation that entity matching ignores.
pub open spec fn is_match_punct(c: char) -> bool {
    c == '·' || c == '•' || c == '.' || c == ',' || c == '，' || c == '。' || c == '、' || c == '\''
        || c == '"' || c == '“' || c == '”' || c == '(' || c == ')' || c == '（' || c == '）' || c
        == '-' || c == '_' || c == ':'
}

fn match_punct(c: char) -> (res: bool)
    ensures
        res == is_match_punct(c),
{
    c == '·' || c == '•' || c == '.' || c == ',' || c == '，' || c == '。' || c == '、' || c == '\''
        || c == '"' || c == '“' || c == '”' || c == '(' || c == ')' || c == '（' || c == '）' || c
        == '-' || c == '_' || c == ':'
}

/// `s` without whitespace and without the ignored punctuation.
pub open spec fn without_spacing(s: Seq<char>) -> Seq<char>
    decreases s.len(),
{
    if s.len() == 0 {
        Seq::<char>::empty()
    } else {
        let rest = without_spacing(s.drop_last());
        if is_ws(s.last()) || is_match_punct(s.last()) {
            rest
        } else {
            rest.push(s.last())
        }
    }
}

/// The form in which entity names and texts are compared: whitespace and
/// punctuation removed, then lowercased.
pub open spec fn entity_key(s: Seq<char>) -> Seq<char> {
    lowercase(without_spacing(s))
}

/// Normalizes a text or name for entity matching.
pub fn normalize_for_entity_match(input: &str) -> (res: String)
    ensures
        res@ == entity_key(input@),
{
    let chars = chars_of(input);
    let mut kept: Vec<char> = Vec::new();
    let mut i: usize = 0;
    while i < chars.len()
        invariant
            i <= chars@.len(),
            chars@ == input@,
            kept@ == without_spacing(input@.take(i as int)),
        decreases chars.len() - i,
    {
        proof {
            assert(input@.take(i + 1).drop_last() == input@.take(i as int));
            assert(input@.take(i + 1).last() == input@[i as int]);
        }
        let c = chars[i];
        if !is_whitespace(c) && !match_punct(c) {
            kept.push(c);
        }
        i = i + 1;
    }
    proof {
        assert(input@.take(input@.len() as int) == input@);
    }
    let s = string_of(kept.as_slice());
    to_lowercase(s.as_str())
}

/// The names an entity goes by: its name, then its aliases.
pub open spec fn candidates(e: EntityInfo) -> Seq<Seq<char>> {
    seq![e.name@] + e.aliases@.map_values(|a: String| a@)
}

/// A name is found in a text when it is not blank and the lowercased text contains
/// the lowercased name, or the normalized text contains the (nonempty) normalized name.
pub open spec fn candidate_found(text_lower: Seq<char>, normalized_text: Seq<char>, c: Seq<char>) -> bool {
    &&& !is_blank(c)
    &&& contains(text_lower, lowercase(c)) || (entity_key(c).len() > 0 && contains(
        normalized_text,
        entity_key(c),
    ))
}

/// Some name of the entity is found in the text.
pub open spec fn mentions_entity(text_lower: Seq<char>, normalized_text: Seq<char>, e: EntityInfo) -> bool {
    exists|k: int|
        0 <= k < candidates(e).len() && candidate_found(
            text_lower,
            normalized_text,
            #[trigger] candidates(e)[k],
        )
}

/// Whether one name of an entity is found in the text.
fn candidate_matches(tl: &Vec<char>, nt: &Vec<char>, cand: &str) -> (res: bool)
    ensures
        res == candidate_found(tl@, nt@, cand@),
{
    let cc = chars_of(cand);
    if blank(cc.as_slice()) {
        return false;
    }
    let lower = to_lowercase(cand);
    let lc = chars_of(lower.as_str());
    if contains_chars(tl.as_slice(), lc.as_slice()) {
        return true;
    }
    let key = normalize_for_entity_match(cand);
    let kc = chars_of(key.as_str());
    kc.len() > 0 && contains_chars(nt.as_slice(), kc.as_slice())
}

/// Checks whether a text contains an entity's name or one of its aliases
/// (case-insensitive, or after normalization).
pub fn text_contains_entity_or_alias(text_lower: &str, normalized_text: &str, entity: &EntityInfo) -> (res:
    bool)
    ensures
        res == mentions_entity(text_lower@, normalized_text@, *entity),
{
    let tl = chars_of(text_lower);
    let nt = chars_of(normalized_text);
    let ghost cs = candidates(*entity);
    if candidate_matches(&tl, &nt, entity.name.as_str()) {
        assert(candidate_found(text_lower@, normalized_text@, cs[0]));
        return true;
    }
    let mut j: usize = 0;
    while j < entity.aliases.len()
        invariant
            j <= entity.aliases@.len(),
            cs == candidates(*entity),
            cs.len() == entity.aliases@.len() + 1,
            tl@ == text_lower@,
            nt@ == normalized_text@,
            forall|m: int|
                0 <= m <= j ==> !candidate_found(text_lower@, normalized_text@, #[trigger] cs[m]),
        decreases entity.aliases.len() - j,
    {
        assert(cs[j + 1] == entity.aliases@[j as int]@);
        if candidate_matches(&tl, &nt, entity.aliases[j].as_str()) {
            assert(candidate_found(text_lower@, normalized_text@, cs[j + 1]));
            return true;
        }
        j = j + 1;
    }
    false
}

// ---------------------------------------------------------------------------
// Positions
// ---------------------------------------------------------------------------

/// The byte ranges of the occurrences of `ln` in `lt` at character index `i` or later,
/// each `name_bytes` long.
pub open spec fn occurrences_from(lt: Seq<char>, ln: Seq<char>, name_bytes: nat, i: int) -> Seq<
    (usize, usize),
>
    decreases lt.len() + 1 - i,
{
    if i > lt.len() || i < 0 {
        Seq::<(usize, usize)>::empty()
    } else {
        let rest = occurrences_from(lt, ln, name_bytes, i + 1);
        if occurs_at(lt, ln, i) {
            let start = byte_len(lt.take(i));
            seq![(start as usize, (start + name_bytes) as usize)] + rest
        } else {
            rest
        }
    }
}

/// Where a name occurs in a text: the byte ranges, in the lowercased text, of every
/// occurrence of the lowercased name (overlapping ones included), each as long as the
/// name itself.
pub open spec fn occurrence_positions(text: Seq<char>, name: Seq<char>) -> Seq<(usize, usize)> {
    occurrences_from(lowercase(text), lowercase(name), byte_len(name), 0)
}

proof fn lemma_occurrences_skip(lt: Seq<char>, ln: Seq<char>, nb: nat, a: int, b: int)
    requires
        0 <= a <= b,
        forall|j: int| a <= j < b ==> !occurs_at(lt, ln, j),
    ensures
        occurrences_from(lt, ln, nb, a) == occurrences_from(lt, ln, nb, b),
    decreases b - a,
{
    if a < b {
        lemma_occurrences_skip(lt, ln, nb, a + 1, b);
    }
}

/// Byte offsets of every character boundary: `res[i]` is the byte length of `s[..i]`.
fn byte_offsets(s: &[char]) -> (res: Vec<u128>)
    ensures
        res@.len() == s@.len() + 1,
        forall|i: int| 0 <= i <= s@.len() ==> #[trigger] res@[i] == byte_len(s@.take(i)),
        forall|i: int| 0 <= i <= s@.len() ==> #[trigger] res@[i] <= 4 * i,
{
    let mut res: Vec<u128> = Vec::new();
    let mut n: u128 = 0;
    res.push(0);
    proof {
        assert(s@.take(0) == Seq::<char>::empty());
        assert(vstd::utf8::encode_utf8(Seq::<char>::empty()) == Seq::<u8>::empty());
    }
    let mut i: usize = 0;
    while i < s.len()
        invariant
            i <= s@.len(),
            res@.len() == i + 1,
            n == byte_len(s@.take(i as int)),
            n <= 4 * i,
            forall|j: int| 0 <= j <= i ==> #[trigger] res@[j] == byte_len(s@.take(j)),
            forall|j: int| 0 <= j <= i ==> #[trigger] res@[j] <= 4 * j,
        decreases s.len() - i,
    {
        proof {
            assert(s@.take(i + 1) == s@.take(i as int).push(s@[i as int]));
            crate::text::lemma_byte_len_push(s@.take(i as int), s@[i as int]);
        }
        n = n + char_width(s[i]);
        res.push(n);
        i = i + 1;
    }
    res
}

/// Finds all positions where an entity name appears in a text: byte ranges in the
/// lowercased text of each occurrence of the lowercased name.
pub fn find_entity_positions(text: &str, entity_name: &str) -> (res: Vec<(usize, usize)>)
    requires
        lowercase(entity_name@).len() > 0,
    ensures
        res@ == occurrence_positions(text@, entity_name@),
{
    let lower_text = to_lowercase(text);
    let lower_name = to_lowercase(entity_name);
    let lt = chars_of(lower_text.as_str());
    let ln = chars_of(lower_name.as_str());
    let name_chars = chars_of(entity_name);
    let name_bytes = crate::text::utf8_byte_len(name_chars.as_slice());
    assert(entity_name@.len() == name_chars.len());
    let offs = byte_offsets(lt.as_slice());
    let ghost nb = byte_len(entity_name@);
    let mut positions: Vec<(usize, usize)> = Vec::new();
    let mut start: usize = 0;
    while start <= lt.len()
        invariant
            lt@ == lowercase(text@),
            ln@ == lowercase(entity_name@),
            ln@.len() > 0,
            name_bytes == nb,
            offs@.len() == lt@.len() + 1,
            forall|i: int| 0 <= i <= lt@.len() ==> #[trigger] offs@[i] == byte_len(lt@.take(i)),
            forall|i: int| 0 <= i <= lt@.len() ==> #[trigger] offs@[i] <= 4 * i,
            name_bytes <= 4 * entity_name@.len(),
            entity_name@.len() <= usize::MAX,
            lt@.len() == lt.len(),
            occurrence_positions(text@, entity_name@) == positions@ + occurrences_from(
                lt@,
                ln@,
                nb,
                start as int,
            ),
        decreases lt.len() + 1 - start,
    {
        match find_from(lt.as_slice(), ln.as_slice(), start) {
            Some(j) => {
                proof {
                    lemma_occurrences_skip(lt@, ln@, nb, start as int, j as int);
                }
                let s = offs[j];
                let e = s + name_bytes;
                let pos = (#[verifier::truncate] (s as usize), #[verifier::truncate] (e as usize));
                proof {
                    assert(occurrences_from(lt@, ln@, nb, j as int) == seq![pos] + occurrences_from(
                        lt@,
                        ln@,
                        nb,
                        j + 1,
                    ));
                    assert(positions@ + (seq![pos] + occurrences_from(lt@, ln@, nb, j + 1))
                        == positions@.push(pos) + occurrences_from(lt@, ln@, nb, j + 1));
                }
                positions.push(pos);
                start = j + 1;
            },
            None => {
                proof {
                    lemma_occurrences_skip(lt@, ln@, nb, start as int, (lt@.len() + 1) as int);
                    assert(occurrences_from(lt@, ln@, nb, (lt@.len() + 1) as int) == Seq::<
                        (usize, usize),
                    >::empty());
                    assert(positions@ + Seq::<(usize, usize)>::empty() == positions@);
                }
                return positions;
            },
        }
    }
    proof {
        assert(occurrences_from(lt@, ln@, nb, start as int) == Seq::<(usize, usize)>::empty());
        assert(positions@ + Seq::<(usize, usize)>::empty() == positions@);
    }
    positions
}


// ---------------------------------------------------------------------------
// Positions of an entity
// ---------------------------------------------------------------------------

/// A name whose positions are searched: not blank, with a nonempty lowercase form.
pub open spec fn eligible(c: Seq<char>) -> bool {
    !is_blank(c) && lowercase(c).len() > 0
}

/// The positions of all eligible names in `cs`, name after name.
pub open spec fn positions_of_names(text: Seq<char>, cs: Seq<Seq<char>>) -> Seq<(usize, usize)>
    decreases cs.len(),
{
    if cs.len() == 0 {
        Seq::<(usize, usize)>::empty()
    } else {
        let prev = positions_of_names(text, cs.drop_last());
        if eligible(cs.last()) {
            prev + occurrence_positions(text, cs.last())
        } else {
            prev
        }
    }
}

/// `a` comes before `b`: by start, then by end.
pub open spec fn pos_lt(a: (usize, usize), b: (usize, usize)) -> bool {
    a.0 < b.0 || (a.0 == b.0 && a.1 < b.1)
}

/// Strictly increasing, hence without repetitions.
pub open spec fn strictly_sorted(s: Seq<(usize, usize)>) -> bool {
    forall|i: int, j: int| 0 <= i < j < s.len() ==> pos_lt(#[trigger] s[i], #[trigger] s[j])
}

/// The same positions, regardless of order and repetition.
pub open spec fn same_positions(a: Seq<(usize, usize)>, b: Seq<(usize, usize)>) -> bool {
    forall|q: (usize, usize)| a.contains(q) <==> b.contains(q)
}

fn pos_less(a: (usize, usize), b: (usize, usize)) -> (res: bool)
    ensures
        res == pos_lt(a, b),
{
    a.0 < b.0 || (a.0 == b.0 && a.1 < b.1)
}

/// Adds `p` to a strictly increasing vector, keeping it strictly increasing.
fn insert_sorted_unique(v: &mut Vec<(usize, usize)>, p: (usize, usize))
    requires
        strictly_sorted(old(v)@),
    ensures
        strictly_sorted(final(v)@),
        forall|q: (usize, usize)| final(v)@.contains(q) <==> (old(v)@.contains(q) || q == p),
{
    let mut k: usize = 0;
    while k < v.len() && pos_less(v[k], p)
        invariant
            k <= v@.len(),
            forall|m: int| 0 <= m < k ==> pos_lt(#[trigger] v@[m], p),
        decreases v.len() - k,
    {
        k = k + 1;
    }
    if k < v.len() && v[k].0 == p.0 && v[k].1 == p.1 {
        assert(v@[k as int] == p);
        return;
    }
    let ghost old_v = v@;
    v.insert(k, p);
    proof {
        old_v.insert_ensures(k as int, p);
        let nv = v@;
        assert forall|i: int, j: int| 0 <= i < j < nv.len() implies pos_lt(
            #[trigger] nv[i],
            #[trigger] nv[j],
        ) by {
            if j < k {
                assert(nv[i] == old_v[i] && nv[j] == old_v[j]);
            } else if j == k {
                assert(nv[i] == old_v[i]);
            } else if i < k {
                assert(nv[i] == old_v[i]);
                assert(nv[j] == old_v[j - 1]);
                assert(pos_lt(old_v[i], p));
                assert(!pos_lt(old_v[k as int], p));
                if j - 1 > k {
                    assert(pos_lt(old_v[k as int], old_v[j - 1]));
                }
            } else if i == k {
                assert(nv[j] == old_v[j - 1]);
                assert(!pos_lt(old_v[k as int], p));
                assert(old_v[k as int] != p);
                if j - 1 > k {
                    assert(pos_lt(old_v[k as int], old_v[j - 1]));
                }
            } else {
                assert(nv[i] == old_v[i - 1]);
                assert(nv[j] == old_v[j - 1]);
            }
        }
        assert forall|q: (usize, usize)| nv.contains(q) <==> (old_v.contains(q) || q == p) by {
            if nv.contains(q) {
                let i = choose|i: int| 0 <= i < nv.len() && #[trigger] nv[i] == q;
                if i < k {
                    assert(old_v[i] == q);
                } else if i > k {
                    assert(old_v[i - 1] == q);
                }
            }
            if old_v.contains(q) {
                let i = choose|i: int| 0 <= i < old_v.len() && #[trigger] old_v[i] == q;
                if i < k {
                    assert(nv[i] == q);
                } else {
                    assert(nv[i + 1] == q);
                }
            }
            if q == p {
                assert(nv[k as int] == q);
            }
        }
    }
}

/// Appends the positions of `name` in `text`, when the name is eligible.
fn append_name_positions(all: &mut Vec<(usize, usize)>, text: &str, name: &str)
    ensures
        final(all)@ == if eligible(name@) {
            old(all)@ + occurrence_positions(text@, name@)
        } else {
            old(all)@
        },
{
    let cc = chars_of(name);
    if blank(cc.as_slice()) {
        return;
    }
    let lower = to_lowercase(name);
    let lc = chars_of(lower.as_str());
    if lc.len() == 0 {
        return;
    }
    let found = find_entity_positions(text, name);
    let mut m: usize = 0;
    let ghost before = all@;
    while m < found.len()
        invariant
            m <= found@.len(),
            all@ == before + found@.take(m as int),
        decreases found.len() - m,
    {
        all.push(found[m]);
        m = m + 1;
        assert(all@ == before + found@.take(m as int));
    }
    assert(found@.take(found@.len() as int) == found@);
}

/// The positions of an entity in a text: the occurrences of its name and of its
/// aliases (blank ones skipped), without repetitions, sorted by start then end.
pub fn find_entity_positions_for_entity(text: &str, entity: &EntityInfo) -> (res: Vec<(usize, usize)>)
    ensures
        strictly_sorted(res@),
        same_positions(res@, positions_of_names(text@, candidates(*entity))),
{
    let ghost cs = candidates(*entity);
    let mut all: Vec<(usize, usize)> = Vec::new();
    proof {
        assert(cs.take(1).drop_last() == cs.take(0));
        assert(cs.take(0) == Seq::<Seq<char>>::empty());
        assert(cs.take(1).last() == entity.name@);
    }
    append_name_positions(&mut all, text, entity.name.as_str());
    proof {
        assert(Seq::<(usize, usize)>::empty() + occurrence_positions(text@, entity.name@)
            == occurrence_positions(text@, entity.name@));
        assert(positions_of_names(text@, cs.take(0)) == Seq::<(usize, usize)>::empty());
        assert(all@ == positions_of_names(text@, cs.take(1)));
    }
    let count = entity.aliases.len();
    let mut k: usize = 0;
    while k < count
        invariant
            count == entity.aliases@.len(),
            cs == candidates(*entity),
            cs.len() == count + 1,
            k <= count,
            all@ == positions_of_names(text@, cs.take(k + 1)),
        decreases count - k,
    {
        proof {
            assert(cs[k + 1] == entity.aliases@[k as int]@);
            assert(cs.take(k + 2).drop_last() == cs.take(k + 1));
            assert(cs.take(k + 2).last() == cs[k + 1]);
        }
        append_name_positions(&mut all, text, entity.aliases[k].as_str());
        k = k + 1;
    }
    proof {
        assert(cs.take(count + 1) == cs);
    }
    let mut out: Vec<(usize, usize)> = Vec::new();
    let mut i: usize = 0;
    while i < all.len()
        invariant
            i <= all@.len(),
            strictly_sorted(out@),
            forall|q: (usize, usize)| out@.contains(q) <==> all@.take(i as int).contains(q),
        decreases all.len() - i,
    {
        let ghost old_out = out@;
        insert_sorted_unique(&mut out, all[i]);
        proof {
            assert forall|q: (usize, usize)| all@.take(i + 1).contains(q) <==> (all@.take(
                i as int,
            ).contains(q) || q == all@[i as int]) by {
                if all@.take(i + 1).contains(q) {
                    let j = choose|j: int| 0 <= j < i + 1 && #[trigger] all@.take(i + 1)[j] == q;
                    if j < i {
                        assert(all@.take(i as int)[j] == q);
                    }
                }
                if all@.take(i as int).contains(q) {
                    let j = choose|j: int| 0 <= j < i && #[trigger] all@.take(i as int)[j] == q;
                    assert(all@.take(i + 1)[j] == q);
                }
                if q == all@[i as int] {
                    assert(all@.take(i + 1)[i as int] == q);
                }
            }
            assert forall|q: (usize, usize)| out@.contains(q) <==> all@.take(i + 1).contains(q) by {
                assert(out@.contains(q) <==> (old_out.contains(q) || q == all@[i as int]));
            }
        }
        i = i + 1;
    }
    proof {
        assert(all@.take(all@.len() as int) == all@);
    }
    out
}


// ---------------------------------------------------------------------------
// Mentions
// ---------------------------------------------------------------------------

/// The entities of `ents`, each with its kind, that the text mentions, in order.
pub open spec fn mentioned(
    text_lower: Seq<char>,
    normalized_text: Seq<char>,
    ents: Seq<EntityInfo>,
    kind: Seq<char>,
) -> Seq<(EntityInfo, Seq<char>)>
    decreases ents.len(),
{
    if ents.len() == 0 {
        Seq::<(EntityInfo, Seq<char>)>::empty()
    } else {
        let prev = mentioned(text_lower, normalized_text, ents.drop_last(), kind);
        if mentions_entity(text_lower, normalized_text, ents.last()) {
            prev.push((ents.last(), kind))
        } else {
            prev
        }
    }
}

/// The mentions of `text`: characters, then settings, then events, each in the
/// order of the known entities.
pub open spec fn mention_targets(text: Seq<char>, known: AllEntities) -> Seq<(EntityInfo, Seq<char>)> {
    let tl = lowercase(text);
    let nt = entity_key(tl);
    mentioned(tl, nt, known.characters@, "character"@) + mentioned(tl, nt, known.settings@, "setting"@)
        + mentioned(tl, nt, known.events@, "event"@)
}

/// `m` reports entity `e` of the given kind, with its positions in `text`.
pub open spec fn mention_is(m: EntityMention, e: EntityInfo, kind: Seq<char>, text: Seq<char>) -> bool {
    &&& m.entity_id@ == e.id@
    &&& m.entity_name@ == e.name@
    &&& m.entity_type@ == kind
    &&& strictly_sorted(m.positions@)
    &&& same_positions(m.positions@, positions_of_names(text, candidates(e)))
}

fn copy_string(s: &String) -> (res: String)
    ensures
        res@ == s@,
{
    String::from_str(s.as_str())
}

/// Appends the mentions of the entities of `ents` to `out`.
fn collect_mentions(
    out: &mut Vec<EntityMention>,
    text: &str,
    text_lower: &str,
    normalized_text: &str,
    ents: &Vec<EntityInfo>,
    kind: &str,
)
    ensures
        final(out)@.len() == old(out)@.len() + mentioned(text_lower@, normalized_text@, ents@, kind@).len(),
        forall|i: int| 0 <= i < old(out)@.len() ==> #[trigger] final(out)@[i] == old(out)@[i],
        forall|i: int|
            0 <= i < mentioned(text_lower@, normalized_text@, ents@, kind@).len() ==> mention_is(
                #[trigger] final(out)@[old(out)@.len() + i],
                mentioned(text_lower@, normalized_text@, ents@, kind@)[i].0,
                kind@,
                text@,
            ),
{
    let ghost start = old(out)@;
    let mut i: usize = 0;
    while i < ents.len()
        invariant
            i <= ents@.len(),
            out@.len() == start.len() + mentioned(text_lower@, normalized_text@, ents@.take(i as int), kind@).len(),
            forall|j: int| 0 <= j < start.len() ==> #[trigger] out@[j] == start[j],
            forall|j: int|
                0 <= j < mentioned(text_lower@, normalized_text@, ents@.take(i as int), kind@).len() ==> mention_is(
                    #[trigger] out@[start.len() + j],
                    mentioned(text_lower@, normalized_text@, ents@.take(i as int), kind@)[j].0,
                    kind@,
                    text@,
                ),
        decreases ents.len() - i,
    {
        proof {
            assert(ents@.take(i + 1).drop_last() == ents@.take(i as int));
            assert(ents@.take(i + 1).last() == ents@[i as int]);
        }
        let e = &ents[i];
        if text_contains_entity_or_alias(text_lower, normalized_text, e) {
            let positions = find_entity_positions_for_entity(text, e);
            let m = EntityMention {
                entity_id: copy_string(&e.id),
                entity_name: copy_string(&e.name),
                entity_type: String::from_str(kind),
                positions,
            };
            out.push(m);
        }
        i = i + 1;
    }
    proof {
        assert(ents@.take(ents@.len() as int) == ents@);
    }
}

/// Extracts the known entities that a text mentions, with their positions.
pub fn extract_entity_mentions(text: &str, known_entities: &AllEntities) -> (res: Vec<EntityMention>)
    ensures
        res@.len() == mention_targets(text@, *known_entities).len(),
        forall|i: int|
            0 <= i < res@.len() ==> mention_is(
                #[trigger] res@[i],
                mention_targets(text@, *known_entities)[i].0,
                mention_targets(text@, *known_entities)[i].1,
                text@,
            ),
{
    let text_lower = to_lowercase(text);
    let normalized_text = normalize_for_entity_match(text_lower.as_str());
    let ghost tl = text_lower@;
    let ghost nt = normalized_text@;
    let mut mentions: Vec<EntityMention> = Vec::new();
    collect_mentions(
        &mut mentions,
        text,
        text_lower.as_str(),
        normalized_text.as_str(),
        &known_entities.characters,
        "character",
    );
    let ghost m1 = mentions@;
    collect_mentions(
        &mut mentions,
        text,
        text_lower.as_str(),
        normalized_text.as_str(),
        &known_entities.settings,
        "setting",
    );
    let ghost m2 = mentions@;
    collect_mentions(
        &mut mentions,
        text,
        text_lower.as_str(),
        normalized_text.as_str(),
        &known_entities.events,
        "event",
    );
    proof {
        let a = mentioned(tl, nt, known_entities.characters@, "character"@);
        let b = mentioned(tl, nt, known_entities.settings@, "setting"@);
        let c = mentioned(tl, nt, known_entities.events@, "event"@);
        lemma_mentioned_kind(tl, nt, known_entities.characters@, "character"@);
        lemma_mentioned_kind(tl, nt, known_entities.settings@, "setting"@);
        lemma_mentioned_kind(tl, nt, known_entities.events@, "event"@);
        let all = mention_targets(text@, *known_entities);
        assert(all == a + b + c);
        assert forall|i: int| 0 <= i < mentions@.len() implies mention_is(
            #[trigger] mentions@[i],
            all[i].0,
            all[i].1,
            text@,
        ) by {
            assert(m1.len() == a.len());
            assert(m2.len() == a.len() + b.len());
            if i < a.len() {
                assert(mentions@[i] == m2[i]);
                assert(m2[i] == m1[i]);
                assert(m1[0 + i] == m1[i]);
                assert(all[i] == a[i]);
            } else if i < a.len() + b.len() {
                let j = i - a.len();
                assert(mentions@[i] == m2[i]);
                assert(m2[m1.len() + j] == m2[i]);
                assert(all[i] == b[j]);
            } else {
                let j = i - a.len() - b.len();
                assert(mentions@[m2.len() + j] == mentions@[i]);
                assert(all[i] == c[j]);
            }
        }
    }
    mentions
}

proof fn lemma_mentioned_kind(tl: Seq<char>, nt: Seq<char>, ents: Seq<EntityInfo>, kind: Seq<char>)
    ensures
        forall|i: int|
            0 <= i < mentioned(tl, nt, ents, kind).len() ==> (#[trigger] mentioned(tl, nt, ents, kind)[i]).1
                == kind,
    decreases ents.len(),
{
    if ents.len() > 0 {
        lemma_mentioned_kind(tl, nt, ents.drop_last(), kind);
        let prev = mentioned(tl, nt, ents.drop_last(), kind);
        let cur = mentioned(tl, nt, ents, kind);
        assert forall|i: int| 0 <= i < cur.len() implies (#[trigger] cur[i]).1 == kind by {
            if i < prev.len() {
                assert(cur[i] == prev[i]);
            }
        }
    }
}


/// Why a vector search failed.
#[derive(Debug)]
pub enum VectorSearchError {
    VectorDbError(String),
    BookDbError(String),
    LibraryError(String),
    IoError(String),
    EmbeddingError(String),
}

/// Where a found chunk lies and what it mentions.
pub struct SearchResultMetadata {
    pub char_start: u32,
    pub char_end: u32,
    pub entities_mentioned: Vec<String>,
}

} // verus!
