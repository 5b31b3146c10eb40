//! Card deduplication: combo names, names contained in one another, and the order
//! in which a new name is checked against known entities.
use vstd::prelude::*;
use crate::pattern::{compile, regex_compiles, regex_replace_first, replace_first};
use crate::text::{
    blank, byte_len, chars_of, contains, contains_chars, ends_with, ends_with_chars, is_blank, lemma_split_nonempty,
    lowercase, replace_all, replace_chars, slice_to_vec, split, split_chars, string_of, str_eq,
    to_lowercase, trim, trim_chars, utf8_byte_len, views,
};

verus! {

/// Result of a deduplication check.
pub struct DedupResult {
    /// Whether the name should be skipped
    pub should_skip: bool,
    /// Reason for skipping (if applicable)
    pub reason: Option<String>,
    /// ID of the existing entity to merge with (if applicable)
    pub merge_with: Option<String>,
    /// Name of the existing entity (for logging)
    pub merge_with_name: Option<String>,
}

pub open spec fn opt_str_view(o: Option<String>) -> Option<Seq<char>> {
    match o {
        Some(s) => Some(s@),
        None => None,
    }
}

impl DedupResult {
    /// Keep the name as a new entity.
    pub fn accept() -> (res: Self)
        ensures
            !res.should_skip,
            res.reason is None,
            res.merge_with is None,
            res.merge_with_name is None,
    {
        DedupResult { should_skip: false, reason: None, merge_with: None, merge_with_name: None }
    }

    /// Drop the name, for the given reason.
    pub fn skip(reason: &str) -> (res: Self)
        ensures
            res.should_skip,
            opt_str_view(res.reason) == Some(reason@),
            res.merge_with is None,
            res.merge_with_name is None,
    {
        DedupResult {
            should_skip: true,
            reason: Some(String::from_str(reason)),
            merge_with: None,
            merge_with_name: None,
        }
    }

    /// Merge the name into the existing entity `id` called `name`, for the given reason.
    pub fn merge(id: &str, name: &str, reason: &str) -> (res: Self)
        ensures
            !res.should_skip,
            opt_str_view(res.reason) == Some(reason@),
            opt_str_view(res.merge_with) == Some(id@),
            opt_str_view(res.merge_with_name) == Some(name@),
    {
        DedupResult {
            should_skip: false,
            reason: Some(String::from_str(reason)),
            merge_with: Some(String::from_str(id)),
            merge_with_name: Some(String::from_str(name)),
        }
    }
}

/// Known entity info for deduplication matching.
pub struct KnownEntity {
    pub id: String,
    pub name: String,
    pub aliases: Vec<String>,
}

// ---------------------------------------------------------------------------
// Combo names
// ---------------------------------------------------------------------------

/// The separators that join several entities into one name.
pub open spec fn combo_separator(k: int) -> Seq<char> {
    if k == 0 {
        "&"@
    } else if k == 1 {
        " & "@
    } else if k == 2 {
        "和"@
    } else if k == 3 {
        "与"@
    } else if k == 4 {
        "、"@
    } else if k == 5 {
        " and "@
    } else {
        " AND "@
    }
}

pub const COMBO_SEPARATOR_COUNT: usize = 7;

fn combo_separator_str(k: usize) -> (res: &'static str)
    requires
        k < COMBO_SEPARATOR_COUNT,
    ensures
        res@ == combo_separator(k as int),
{
    if k == 0 {
        "&"
    } else if k == 1 {
        " & "
    } else if k == 2 {
        "和"
    } else if k == 3 {
        "与"
    } else if k == 4 {
        "、"
    } else if k == 5 {
        " and "
    } else {
        " AND "
    }
}

/// `name` splits at `sep` into two or more parts, none of them blank.
pub open spec fn splits_into_names(name: Seq<char>, sep: Seq<char>) -> bool {
    let parts = split(name, sep);
    &&& contains(name, sep)
    &&& parts.len() >= 2
    &&& forall|i: int| 0 <= i < parts.len() ==> !is_blank(#[trigger] parts[i])
}

/// A combo name joins several entities, such as 张三 & 李四 or 王五和赵六.
pub open spec fn combo_name(name: Seq<char>) -> bool {
    exists|k: int| 0 <= k < COMBO_SEPARATOR_COUNT && splits_into_names(name, #[trigger] combo_separator(k))
}

/// Checks whether a name is a combo name (multiple entities combined).
pub fn is_combo_name(name: &str) -> (res: bool)
    ensures
        res == combo_name(name@),
{
    let chars = chars_of(name);
    let mut k: usize = 0;
    while k < COMBO_SEPARATOR_COUNT
        invariant
            k <= COMBO_SEPARATOR_COUNT,
            chars@ == name@,
            forall|j: int| 0 <= j < k ==> !splits_into_names(name@, #[trigger] combo_separator(j)),
        decreases COMBO_SEPARATOR_COUNT - k,
    {
        let sep = chars_of(combo_separator_str(k));
        proof {
            reveal_strlit("&");
            reveal_strlit(" & ");
            reveal_strlit("和");
            reveal_strlit("与");
            reveal_strlit("、");
            reveal_strlit(" and ");
            reveal_strlit(" AND ");
            assert(sep@.len() > 0);
        }
        if contains_chars(chars.as_slice(), sep.as_slice()) {
            let parts = split_chars(chars.as_slice(), sep.as_slice());
            let mut all_named = parts.len() >= 2;
            let mut i: usize = 0;
            while i < parts.len()
                invariant
                    i <= parts@.len(),
                    all_named == (parts@.len() >= 2 && forall|m: int|
                        0 <= m < i ==> !is_blank(#[trigger] views(parts@)[m])),
                decreases parts.len() - i,
            {
                assert(views(parts@)[i as int] == parts@[i as int]@);
                if blank(parts[i].as_slice()) {
                    all_named = false;
                }
                i = i + 1;
            }
            if all_named {
                assert(splits_into_names(name@, combo_separator(k as int)));
                return true;
            }
        }
        k = k + 1;
    }
    false
}

// ---------------------------------------------------------------------------
// Name normalization
// ---------------------------------------------------------------------------

/// Trailing list markers such as `~1`, `#2`, ` (3)` and `（4）`.
pub open spec fn list_marker_pattern(k: int) -> Seq<char> {
    if k == 0 {
        r"[~#]\d+$"@
    } else if k == 1 {
        r"\s*\(\d+\)$"@
    } else {
        r"\s*（\d+）$"@
    }
}

fn list_marker_pattern_str(k: usize) -> (res: &'static str)
    requires
        k < 3,
    ensures
        res@ == list_marker_pattern(k as int),
{
    if k == 0 {
        r"[~#]\d+$"
    } else if k == 1 {
        r"\s*\(\d+\)$"
    } else {
        r"\s*（\d+）$"
    }
}

/// The first match of the marker pattern removed (the patterns always compile;
/// a pattern that did not would leave the name as it is).
pub open spec fn strip_marker(n: Seq<char>, p: Seq<char>) -> Seq<char> {
    if regex_compiles(p) {
        regex_replace_first(p, n, Seq::<char>::empty())
    } else {
        n
    }
}

/// Common suffixes of setting names.
pub open spec fn name_suffix(k: int) -> Seq<char> {
    if k == 0 {
        "种族"@
    } else if k == 1 {
        "族"@
    } else if k == 2 {
        "人种"@
    } else if k == 3 {
        "城市"@
    } else {
        "城"@
    }
}

fn name_suffix_str(k: usize) -> (res: &'static str)
    requires
        k < 5,
    ensures
        res@ == name_suffix(k as int),
{
    if k == 0 {
        "种族"
    } else if k == 1 {
        "族"
    } else if k == 2 {
        "人种"
    } else if k == 3 {
        "城市"
    } else {
        "城"
    }
}

/// `n` without the suffix, when it ends with it and is more than one byte longer.
pub open spec fn strip_suffix(n: Seq<char>, suf: Seq<char>) -> Seq<char> {
    if ends_with(n, suf) && byte_len(n) > byte_len(suf) + 1 {
        n.take(n.len() - suf.len())
    } else {
        n
    }
}

/// Markers removed one after the other.
pub open spec fn strip_markers(n: Seq<char>, k: int) -> Seq<char>
    decreases k,
{
    if k <= 0 {
        n
    } else {
        strip_marker(strip_markers(n, k - 1), list_marker_pattern(k - 1))
    }
}

/// Suffixes removed one after the other.
pub open spec fn strip_suffixes(n: Seq<char>, k: int) -> Seq<char>
    decreases k,
{
    if k <= 0 {
        n
    } else {
        strip_suffix(strip_suffixes(n, k - 1), name_suffix(k - 1))
    }
}

/// A name as compared for deduplication: lowercased, list markers and setting
/// suffixes removed, `·`, `-`, `_` and spaces dropped, and trimmed.
pub open spec fn normalized_name(name: Seq<char>) -> Seq<char> {
    let a = strip_suffixes(strip_markers(lowercase(name), 3), 5);
    trim(
        replace_all(
            replace_all(replace_all(replace_all(a, "·"@, Seq::<char>::empty()), "-"@, Seq::<char>::empty()), "_"@, Seq::<char>::empty()),
            " "@,
            Seq::<char>::empty(),
        ),
    )
}

/// Drops every occurrence of `p` from `v`.
fn drop_all(v: &Vec<char>, p: &str) -> (res: Vec<char>)
    requires
        p@.len() > 0,
    ensures
        res@ == replace_all(v@, p@, Seq::<char>::empty()),
{
    let pc = chars_of(p);
    let empty: Vec<char> = Vec::new();
    replace_chars(v.as_slice(), pc.as_slice(), empty.as_slice())
}

/// Normalizes a name for comparison.
pub fn normalize_name(name: &str) -> (res: String)
    ensures
        res@ == normalized_name(name@),
{
    let mut normalized = to_lowercase(name);
    let mut k: usize = 0;
    while k < 3
        invariant
            k <= 3,
            normalized@ == strip_markers(lowercase(name@), k as int),
        decreases 3 - k,
    {
        proof {
            reveal_strlit("");
            assert(""@ == Seq::<char>::empty());
        }
        match compile(list_marker_pattern_str(k)) {
            Some(re) => {
                normalized = replace_first(&re, normalized.as_str(), "");
            },
            None => {},
        }
        k = k + 1;
    }
    let mut k: usize = 0;
    while k < 5
        invariant
            k <= 5,
            normalized@ == strip_suffixes(strip_markers(lowercase(name@), 3), k as int),
        decreases 5 - k,
    {
        let suffix = name_suffix_str(k);
        let n = chars_of(normalized.as_str());
        let sc = chars_of(suffix);
        let nb = utf8_byte_len(n.as_slice());
        let sb = utf8_byte_len(sc.as_slice());
        if ends_with_chars(n.as_slice(), sc.as_slice()) && nb > sb && nb - sb > 1 {
            let cut = slice_to_vec(n.as_slice(), 0, n.len() - sc.len());
            normalized = string_of(cut.as_slice());
        }
        k = k + 1;
    }
    let a = chars_of(normalized.as_str());
    proof {
        reveal_strlit("·");
        reveal_strlit("-");
        reveal_strlit("_");
        reveal_strlit(" ");
    }
    let b = drop_all(&a, "·");
    let c = drop_all(&b, "-");
    let d = drop_all(&c, "_");
    let e = drop_all(&d, " ");
    let t = trim_chars(e.as_slice());
    string_of(t.as_slice())
}

/// The new name and the existing one, once normalized, are each at least two bytes
/// long, one contains the other, and the shorter (by bytes; the existing one on a
/// tie) has at least two characters.
pub open spec fn name_contained(new_name: Seq<char>, existing_name: Seq<char>) -> bool {
    let a = normalized_name(new_name);
    let b = normalized_name(existing_name);
    let shorter = if byte_len(a) < byte_len(b) {
        a
    } else {
        b
    };
    &&& byte_len(a) >= 2
    &&& byte_len(b) >= 2
    &&& contains(b, a) || contains(a, b)
    &&& shorter.len() >= 2
}

/// Checks whether `new_name` is contained in or contains `existing_name`.
pub fn is_name_contained(new_name: &str, existing_name: &str) -> (res: bool)
    ensures
        res == name_contained(new_name@, existing_name@),
{
    let a = normalize_name(new_name);
    let b = normalize_name(existing_name);
    let ac = chars_of(a.as_str());
    let bc = chars_of(b.as_str());
    let la = utf8_byte_len(ac.as_slice());
    let lb = utf8_byte_len(bc.as_slice());
    if la < 2 || lb < 2 {
        return false;
    }
    if contains_chars(bc.as_slice(), ac.as_slice()) || contains_chars(ac.as_slice(), bc.as_slice()) {
        let shorter_len = if la < lb {
            ac.len()
        } else {
            bc.len()
        };
        if shorter_len >= 2 {
            return true;
        }
    }
    false
}

// ---------------------------------------------------------------------------
// Deduplication decision
// ---------------------------------------------------------------------------

/// What deduplication decides for a new name.
pub enum DedupDecision {
    /// The name combines several entities.
    Combo,
    /// Same normalized name as entity `.0`.
    ExactMatch(usize),
    /// Same normalized name as alias `.1` of entity `.0`.
    AliasMatch(usize, usize),
    /// One name contains the other, for entity `.0`.
    Containment(usize),
    /// Similar to the name of entity `.0`.
    Similar(usize),
    /// A new entity.
    Accept,
}

/// The first alias from index `j` on whose normalized form is `nn`.
pub open spec fn first_alias_match(aliases: Seq<String>, nn: Seq<char>, j: int) -> Option<nat>
    decreases aliases.len() - j,
{
    if j >= aliases.len() || j < 0 {
        None
    } else if normalized_name(aliases[j]@) == nn {
        Some(j as nat)
    } else {
        first_alias_match(aliases, nn, j + 1)
    }
}

/// The decision for entity `i`, if the new name matches it: exact, then alias, then
/// containment, then similarity.
pub open spec fn entity_decision(new_name: Seq<char>, e: KnownEntity, similar: bool, i: nat) -> Option<
    DedupDecision,
> {
    let nn = normalized_name(new_name);
    if normalized_name(e.name@) == nn {
        Some(DedupDecision::ExactMatch(i as usize))
    } else if first_alias_match(e.aliases@, nn, 0) is Some {
        Some(DedupDecision::AliasMatch(i as usize, first_alias_match(e.aliases@, nn, 0)->0 as usize))
    } else if name_contained(new_name, e.name@) {
        Some(DedupDecision::Containment(i as usize))
    } else if similar {
        Some(DedupDecision::Similar(i as usize))
    } else {
        None
    }
}

/// The decision from entity `i` on: the first entity that matches decides.
pub open spec fn decide_from(
    new_name: Seq<char>,
    ents: Seq<KnownEntity>,
    similar: Seq<bool>,
    i: int,
) -> DedupDecision
    decreases ents.len() - i,
{
    if i >= ents.len() || i < 0 {
        DedupDecision::Accept
    } else {
        match entity_decision(new_name, ents[i], similar[i], i as nat) {
            Some(d) => d,
            None => decide_from(new_name, ents, similar, i + 1),
        }
    }
}

/// The deduplication decision: combo names are skipped; otherwise the existing
/// entities are checked in order.
pub open spec fn dedup_decision_spec(new_name: Seq<char>, ents: Seq<KnownEntity>, similar: Seq<bool>) -> DedupDecision {
    if combo_name(new_name) {
        DedupDecision::Combo
    } else {
        decide_from(new_name, ents, similar, 0)
    }
}

/// Decides how a new entity name relates to the existing entities. `similar[i]`
/// says whether the new name is similar enough to the name of `existing[i]`.
pub fn dedup_decision(new_name: &str, existing: &[KnownEntity], similar: &[bool]) -> (res:
    DedupDecision)
    requires
        similar@.len() == existing@.len(),
    ensures
        res == dedup_decision_spec(new_name@, existing@, similar@),
{
    if is_combo_name(new_name) {
        return DedupDecision::Combo;
    }
    let nn = normalize_name(new_name);
    let mut i: usize = 0;
    while i < existing.len()
        invariant
            i <= existing@.len(),
            similar@.len() == existing@.len(),
            nn@ == normalized_name(new_name@),
            !combo_name(new_name@),
            decide_from(new_name@, existing@, similar@, 0) == decide_from(
                new_name@,
                existing@,
                similar@,
                i as int,
            ),
        decreases existing.len() - i,
    {
        let e = &existing[i];
        let en = normalize_name(e.name.as_str());
        if str_eq(en.as_str(), nn.as_str()) {
            return DedupDecision::ExactMatch(i);
        }
        let mut j: usize = 0;
        while j < e.aliases.len()
            invariant
                j <= e.aliases@.len(),
                i < existing@.len(),
                *e == existing@[i as int],
                similar@.len() == existing@.len(),
                !combo_name(new_name@),
                normalized_name(e.name@) != nn@,
                decide_from(new_name@, existing@, similar@, 0) == decide_from(
                    new_name@,
                    existing@,
                    similar@,
                    i as int,
                ),
                nn@ == normalized_name(new_name@),
                first_alias_match(e.aliases@, nn@, 0) == first_alias_match(
                    e.aliases@,
                    nn@,
                    j as int,
                ),
            decreases e.aliases.len() - j,
        {
            let an = normalize_name(e.aliases[j].as_str());
            if str_eq(an.as_str(), nn.as_str()) {
                return DedupDecision::AliasMatch(i, j);
            }
            j = j + 1;
        }
        if is_name_contained(new_name, e.name.as_str()) {
            return DedupDecision::Containment(i);
        }
        if similar[i] {
            return DedupDecision::Similar(i);
        }
        i = i + 1;
    }
    DedupDecision::Accept
}

} // verus!
