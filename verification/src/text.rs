//! Character-level text toolkit.
//!
//! Every text operation of the library is expressed over `Seq<char>`, the view
//! that vstd gives to `str` and `String`. The executable functions below work on
//! `Vec<char>` / `&[char]` and are proved against the spec functions next to them.
use vstd::prelude::*;
use vstd::utf8::{encode_scalar, encode_utf8};

verus! {

// ---------------------------------------------------------------------------
// Whitespace
// ---------------------------------------------------------------------------

/// The Unicode `White_Space` property, which is what std's `char::is_whitespace`
/// and `str::trim` go by.
pub open spec fn is_ws(c: char) -> bool {
    let u = c as u32;
    ||| 0x09 <= u <= 0x0D
    ||| u == 0x20
    ||| u == 0x85
    ||| u == 0xA0
    ||| u == 0x1680
    ||| 0x2000 <= u <= 0x200A
    ||| u == 0x2028
    ||| u == 0x2029
    ||| u == 0x202F
    ||| u == 0x205F
    ||| u == 0x3000
}

/// Whether `c` is Unicode whitespace.
pub fn is_whitespace(c: char) -> (res: bool)
    ensures
        res == is_ws(c),
{
    let u = c as u32;
    (0x09 <= u && u <= 0x0D) || u == 0x20 || u == 0x85 || u == 0xA0 || u == 0x1680 || (0x2000
        <= u && u <= 0x200A) || u == 0x2028 || u == 0x2029 || u == 0x202F || u == 0x205F || u
        == 0x3000
}

/// `s` without its leading whitespace.
pub open spec fn trim_start(s: Seq<char>) -> Seq<char>
    decreases s.len(),
{
    if s.len() > 0 && is_ws(s[0]) {
        trim_start(s.drop_first())
    } else {
        s
    }
}

/// `s` without its trailing whitespace.
pub open spec fn trim_end(s: Seq<char>) -> Seq<char>
    decreases s.len(),
{
    if s.len() > 0 && is_ws(s.last()) {
        trim_end(s.drop_last())
    } else {
        s
    }
}

/// `s` without leading and trailing whitespace (std's `str::trim`).
pub open spec fn trim(s: Seq<char>) -> Seq<char> {
    trim_end(trim_start(s))
}

/// Whether `s` holds nothing but whitespace (std: `s.trim().is_empty()`).
pub open spec fn is_blank(s: Seq<char>) -> bool {
    forall|i: int| 0 <= i < s.len() ==> is_ws(#[trigger] s[i])
}

/// The number of characters of `s` that are not whitespace.
pub open spec fn count_non_ws(s: Seq<char>) -> nat
    decreases s.len(),
{
    if s.len() == 0 {
        0
    } else {
        count_non_ws(s.drop_last()) + if is_ws(s.last()) {
            0nat
        } else {
            1nat
        }
    }
}

/// Trimming the first `i` whitespace characters does not change `trim_start`.
pub proof fn lemma_trim_start_skip(s: Seq<char>, i: int)
    requires
        0 <= i <= s.len(),
        forall|j: int| 0 <= j < i ==> is_ws(#[trigger] s[j]),
    ensures
        trim_start(s) == trim_start(s.subrange(i, s.len() as int)),
    decreases i,
{
    if i > 0 {
        assert(s.drop_first() == s.subrange(1, s.len() as int));
        lemma_trim_start_skip(s.drop_first(), i - 1);
        assert(s.drop_first().subrange(i - 1, s.drop_first().len() as int) == s.subrange(
            i,
            s.len() as int,
        ));
    } else {
        assert(s.subrange(0, s.len() as int) == s);
    }
}

/// Trimming the last characters down to `j` when they are whitespace does not change `trim_end`.
pub proof fn lemma_trim_end_take(s: Seq<char>, j: int)
    requires
        0 <= j <= s.len(),
        forall|k: int| j <= k < s.len() ==> is_ws(#[trigger] s[k]),
    ensures
        trim_end(s) == trim_end(s.subrange(0, j)),
    decreases s.len() - j,
{
    if j < s.len() {
        assert(s.drop_last() == s.subrange(0, s.len() - 1));
        lemma_trim_end_take(s.drop_last(), j);
        assert(s.drop_last().subrange(0, j) == s.subrange(0, j));
    } else {
        assert(s.subrange(0, s.len() as int) == s);
    }
}

/// Whitespace-only text trims to nothing, and only such text does.
pub proof fn lemma_trim_empty_iff_blank(s: Seq<char>)
    ensures
        (trim(s).len() == 0) == is_blank(s),
        trim_start(s).len() == 0 ==> is_blank(s),
        is_blank(s) ==> trim_start(s).len() == 0,
    decreases s.len(),
{
    if s.len() > 0 && is_ws(s[0]) {
        lemma_trim_empty_iff_blank(s.drop_first());
        if is_blank(s.drop_first()) {
            assert forall|i: int| 0 <= i < s.len() implies is_ws(#[trigger] s[i]) by {
                if i > 0 {
                    assert(s[i] == s.drop_first()[i - 1]);
                }
            }
        }
        if is_blank(s) {
            assert forall|i: int| 0 <= i < s.drop_first().len() implies is_ws(
                #[trigger] s.drop_first()[i],
            ) by {
                assert(s.drop_first()[i] == s[i + 1]);
            }
        }
    } else {
        if s.len() > 0 {
            assert(!is_blank(s));
            lemma_trim_end_nonblank_start(s);
        }
    }
}

/// Trimming the end of a text that does not begin with whitespace leaves it nonempty.
proof fn lemma_trim_end_nonblank_start(s: Seq<char>)
    requires
        s.len() > 0,
        !is_ws(s[0]),
    ensures
        trim_end(s).len() > 0,
    decreases s.len(),
{
    if is_ws(s.last()) {
        assert(s.len() > 1);
        assert(s.drop_last()[0] == s[0]);
        lemma_trim_end_nonblank_start(s.drop_last());
    }
}

/// Index of the first character of `s` that is not whitespace (or `s.len()`).
fn first_non_ws(s: &[char], from: usize, to: usize) -> (res: usize)
    requires
        from <= to <= s@.len(),
    ensures
        from <= res <= to,
        forall|k: int| from <= k < res ==> is_ws(#[trigger] s@[k]),
        res < to ==> !is_ws(s@[res as int]),
{
    let mut i = from;
    while i < to
        invariant
            from <= i <= to,
            to <= s@.len(),
            forall|k: int| from <= k < i ==> is_ws(#[trigger] s@[k]),
        decreases to - i,
    {
        if !is_whitespace(s[i]) {
            return i;
        }
        i = i + 1;
    }
    i
}

/// One past the index of the last character of `s[from..to]` that is not whitespace (or `from`).
fn last_non_ws_end(s: &[char], from: usize, to: usize) -> (res: usize)
    requires
        from <= to <= s@.len(),
    ensures
        from <= res <= to,
        forall|k: int| res <= k < to ==> is_ws(#[trigger] s@[k]),
        res > from ==> !is_ws(s@[res - 1]),
{
    let mut j = to;
    while j > from
        invariant
            from <= j <= to,
            to <= s@.len(),
            forall|k: int| j <= k < to ==> is_ws(#[trigger] s@[k]),
        decreases j - from,
    {
        if !is_whitespace(s[j - 1]) {
            return j;
        }
        j = j - 1;
    }
    j
}

/// The bounds `(start, end)` such that `s[start..end]` is `trim(s[from..to])`.
pub fn trim_bounds(s: &[char], from: usize, to: usize) -> (res: (usize, usize))
    requires
        from <= to <= s@.len(),
    ensures
        from <= res.0 <= res.1 <= to,
        s@.subrange(res.0 as int, res.1 as int) == trim(s@.subrange(from as int, to as int)),
{
    let a = first_non_ws(s, from, to);
    let b = last_non_ws_end(s, a, to);
    proof {
        let whole = s@.subrange(from as int, to as int);
        assert forall|j: int| 0 <= j < a - from implies is_ws(#[trigger] whole[j]) by {
            assert(whole[j] == s@[from + j]);
        }
        lemma_trim_start_skip(whole, a - from);
        let rest = whole.subrange(a - from, whole.len() as int);
        assert(rest == s@.subrange(a as int, to as int));
        if a < to {
            assert(rest[0] == s@[a as int]);
        }
        assert(trim_start(rest) == rest);
        assert forall|k: int| b - a <= k < rest.len() implies is_ws(#[trigger] rest[k]) by {
            assert(rest[k] == s@[a + k]);
        }
        lemma_trim_end_take(rest, b - a);
        let mid = rest.subrange(0, b - a);
        assert(mid == s@.subrange(a as int, b as int));
        if b > a {
            assert(mid.last() == s@[b - 1]);
        }
        assert(trim_end(mid) == mid);
    }
    (a, b)
}

/// `trim` of a character vector.
pub fn trim_chars(s: &[char]) -> (res: Vec<char>)
    ensures
        res@ == trim(s@),
{
    let (a, b) = trim_bounds(s, 0, s.len());
    proof {
        assert(s@.subrange(0, s@.len() as int) == s@);
    }
    slice_to_vec(s, a, b)
}

/// `trim_start` of a character vector.
pub fn trim_start_chars(s: &[char]) -> (res: Vec<char>)
    ensures
        res@ == trim_start(s@),
{
    let a = first_non_ws(s, 0, s.len());
    proof {
        lemma_trim_start_skip(s@, a as int);
        let rest = s@.subrange(a as int, s@.len() as int);
        if a < s.len() {
            assert(rest[0] == s@[a as int]);
        }
        assert(trim_start(rest) == rest);
    }
    slice_to_vec(s, a, s.len())
}

/// Whether `s` is whitespace only.
pub fn blank(s: &[char]) -> (res: bool)
    ensures
        res == is_blank(s@),
{
    let a = first_non_ws(s, 0, s.len());
    a == s.len()
}

/// The characters `s[a..b]` as a new vector.
pub fn slice_to_vec(s: &[char], a: usize, b: usize) -> (res: Vec<char>)
    requires
        a <= b <= s@.len(),
    ensures
        res@ == s@.subrange(a as int, b as int),
{
    let mut res: Vec<char> = Vec::new();
    let mut i = a;
    while i < b
        invariant
            a <= i <= b,
            b <= s@.len(),
            res@ == s@.subrange(a as int, i as int),
        decreases b - i,
    {
        res.push(s[i]);
        i = i + 1;
        assert(res@ == s@.subrange(a as int, i as int));
    }
    res
}

/// Appends `t` to the end of `v`.
pub fn append_chars(v: &mut Vec<char>, t: &[char])
    ensures
        final(v)@ == old(v)@ + t@,
{
    let mut i: usize = 0;
    while i < t.len()
        invariant
            i <= t@.len(),
            v@ == old(v)@ + t@.subrange(0, i as int),
        decreases t.len() - i,
    {
        v.push(t[i]);
        i = i + 1;
        assert(v@ == old(v)@ + t@.subrange(0, i as int));
    }
    assert(t@.subrange(0, t@.len() as int) == t@);
}

/// Counts the characters of `s` that are not whitespace.
pub fn count_non_whitespace(s: &[char]) -> (res: usize)
    ensures
        res == count_non_ws(s@),
{
    let mut n: usize = 0;
    let mut i: usize = 0;
    while i < s.len()
        invariant
            i <= s@.len(),
            n == count_non_ws(s@.subrange(0, i as int)),
            n <= i,
        decreases s.len() - i,
    {
        proof {
            assert(s@.subrange(0, i + 1).drop_last() == s@.subrange(0, i as int));
        }
        if !is_whitespace(s[i]) {
            n = n + 1;
        }
        i = i + 1;
    }
    proof {
        assert(s@.subrange(0, s@.len() as int) == s@);
    }
    n
}

// ---------------------------------------------------------------------------
// Strings and characters
// ---------------------------------------------------------------------------

/// Appends one character to a string.
///
/// Wraps `String::push`, which std documents as appending the given `char`
/// to the end of the string.
#[verifier::external_body]
pub(crate) fn push_char(s: &mut String, c: char)
    ensures
        final(s)@ == old(s)@.push(c),
{
    s.push(c);
}

/// The characters of a string slice, in order.
pub fn chars_of(s: &str) -> (res: Vec<char>)
    ensures
        res@ == s@,
{
    let mut res: Vec<char> = Vec::new();
    for c in it: s.chars()
        invariant
            res@ == it.seq().take(it.index() as int),
            it.seq() == s@,
    {
        res.push(c);
    }
    res
}

/// A string holding the characters of `v`.
pub fn string_of(v: &[char]) -> (res: String)
    ensures
        res@ == v@,
{
    let mut res = String::new();
    let mut i: usize = 0;
    while i < v.len()
        invariant
            i <= v@.len(),
            res@ == v@.subrange(0, i as int),
        decreases v.len() - i,
    {
        push_char(&mut res, v[i]);
        i = i + 1;
        assert(res@ == v@.subrange(0, i as int));
    }
    assert(v@.subrange(0, v@.len() as int) == v@);
    res
}

/// Whether two character sequences are equal.
pub fn chars_eq(a: &[char], b: &[char]) -> (res: bool)
    ensures
        res == (a@ == b@),
{
    if a.len() != b.len() {
        return false;
    }
    let mut i: usize = 0;
    while i < a.len()
        invariant
            i <= a@.len(),
            a@.len() == b@.len(),
            forall|k: int| 0 <= k < i ==> a@[k] == b@[k],
        decreases a.len() - i,
    {
        if a[i] != b[i] {
            return false;
        }
        i = i + 1;
    }
    assert(a@ == b@);
    true
}

/// Whether two string slices hold the same characters.
pub fn str_eq(a: &str, b: &str) -> (res: bool)
    ensures
        res == (a@ == b@),
{
    let x = chars_of(a);
    let y = chars_of(b);
    chars_eq(&x, &y)
}

// ---------------------------------------------------------------------------
// Occurrences
// ---------------------------------------------------------------------------

/// `p` occurs in `s` starting at index `i`.
pub open spec fn occurs_at(s: Seq<char>, p: Seq<char>, i: int) -> bool {
    0 <= i && i + p.len() <= s.len() && s.subrange(i, i + p.len()) == p
}

/// `p` occurs somewhere in `s` (std: `s.contains(p)`).
pub open spec fn contains(s: Seq<char>, p: Seq<char>) -> bool {
    exists|i: int| occurs_at(s, p, i)
}

/// `s` begins with `p`.
pub open spec fn starts_with(s: Seq<char>, p: Seq<char>) -> bool {
    occurs_at(s, p, 0)
}

/// `s` ends with `p`.
pub open spec fn ends_with(s: Seq<char>, p: Seq<char>) -> bool {
    p.len() <= s.len() && occurs_at(s, p, s.len() - p.len())
}

/// Whether `p` occurs in `s` at index `i`.
pub fn matches_at(s: &[char], p: &[char], i: usize) -> (res: bool)
    ensures
        res == occurs_at(s@, p@, i as int),
{
    if i > s.len() || p.len() > s.len() - i {
        return false;
    }
    let mut k: usize = 0;
    while k < p.len()
        invariant
            k <= p@.len(),
            i + p@.len() <= s@.len(),
            s@.len() == s.len(),
            forall|m: int| 0 <= m < k ==> s@[i + m] == p@[m],
        decreases p.len() - k,
    {
        if s[i + k] != p[k] {
            assert(s@.subrange(i as int, i + p@.len())[k as int] != p@[k as int]);
            return false;
        }
        k = k + 1;
    }
    assert(s@.subrange(i as int, i + p@.len()) == p@);
    true
}

/// The first index at or after `from` where `p` occurs in `s`.
pub fn find_from(s: &[char], p: &[char], from: usize) -> (res: Option<usize>)
    ensures
        match res {
            Some(i) => from <= i && occurs_at(s@, p@, i as int) && forall|j: int|
                from <= j < i ==> !occurs_at(s@, p@, j),
            None => forall|j: int| from <= j ==> !occurs_at(s@, p@, j),
        },
{
    if from > s.len() || p.len() > s.len() {
        return None;
    }
    let last = s.len() - p.len();
    let mut i = from;
    while i < last
        invariant
            from <= i,
            last + p@.len() == s@.len(),
            forall|j: int| from <= j < i ==> !occurs_at(s@, p@, j),
        decreases last - i,
    {
        if matches_at(s, p, i) {
            return Some(i);
        }
        i = i + 1;
    }
    if i == last && matches_at(s, p, i) {
        return Some(i);
    }
    None
}

/// Whether `p` occurs in `s`.
pub fn contains_chars(s: &[char], p: &[char]) -> (res: bool)
    ensures
        res == contains(s@, p@),
{
    match find_from(s, p, 0) {
        Some(i) => true,
        None => {
            assert(!contains(s@, p@));
            false
        },
    }
}

/// Whether `s` begins with `p`.
pub fn starts_with_chars(s: &[char], p: &[char]) -> (res: bool)
    ensures
        res == starts_with(s@, p@),
{
    matches_at(s, p, 0)
}

/// Whether `s` ends with `p`.
pub fn ends_with_chars(s: &[char], p: &[char]) -> (res: bool)
    ensures
        res == ends_with(s@, p@),
{
    if p.len() > s.len() {
        false
    } else {
        matches_at(s, p, s.len() - p.len())
    }
}


// ---------------------------------------------------------------------------
// Splitting, joining and replacing
// ---------------------------------------------------------------------------

/// The character views of a vector of character vectors.
pub open spec fn views(v: Seq<Vec<char>>) -> Seq<Seq<char>> {
    v.map_values(|x: Vec<char>| x@)
}

/// The pieces of `s` between the non-overlapping occurrences of `sep`, scanning
/// from the left (std's `str::split` with a string pattern). Always at least one piece.
pub open spec fn split(s: Seq<char>, sep: Seq<char>) -> Seq<Seq<char>>
    decreases s.len(),
{
    if s.len() == 0 {
        seq![Seq::<char>::empty()]
    } else if sep.len() > 0 && starts_with(s, sep) {
        seq![Seq::<char>::empty()] + split(s.skip(sep.len() as int), sep)
    } else {
        let rest = split(s.drop_first(), sep);
        rest.update(0, seq![s[0]] + rest[0])
    }
}

/// `c` put in front of the first piece of `ps`.
pub open spec fn prepend_first(c: Seq<char>, ps: Seq<Seq<char>>) -> Seq<Seq<char>> {
    ps.update(0, c + ps[0])
}

/// The pieces of `ps` joined by `sep` (std's `join`).
pub open spec fn join(ps: Seq<Seq<char>>, sep: Seq<char>) -> Seq<char>
    decreases ps.len(),
{
    if ps.len() == 0 {
        Seq::<char>::empty()
    } else if ps.len() == 1 {
        ps[0]
    } else {
        join(ps.drop_last(), sep) + sep + ps.last()
    }
}

/// Every occurrence of `p` in `s` replaced by `r`, scanning from the left
/// (std's `str::replace` with a string pattern).
pub open spec fn replace_all(s: Seq<char>, p: Seq<char>, r: Seq<char>) -> Seq<char>
    decreases s.len(),
{
    if s.len() == 0 {
        Seq::<char>::empty()
    } else if p.len() > 0 && starts_with(s, p) {
        r + replace_all(s.skip(p.len() as int), p, r)
    } else {
        seq![s[0]] + replace_all(s.drop_first(), p, r)
    }
}

/// A line without the carriage return that ended it.
pub open spec fn strip_cr(l: Seq<char>) -> Seq<char> {
    if l.len() > 0 && l.last() == '\r' {
        l.drop_last()
    } else {
        l
    }
}

/// The lines of `s` (std's `str::lines`): the text is cut at each `'\n'`, a `'\r'`
/// just before a `'\n'` is dropped, and a final empty line is not counted.
pub open spec fn lines(s: Seq<char>) -> Seq<Seq<char>> {
    let ps = split(s, seq!['\n']);
    Seq::new((ps.len() - 1) as nat, |i: int| strip_cr(ps[i])) + if ps.last().len() > 0 {
        seq![ps.last()]
    } else {
        Seq::<Seq<char>>::empty()
    }
}

/// The trimmed pieces of `ps` that are not empty, in order.
pub open spec fn trimmed_nonempty(ps: Seq<Seq<char>>) -> Seq<Seq<char>>
    decreases ps.len(),
{
    if ps.len() == 0 {
        Seq::<Seq<char>>::empty()
    } else {
        let t = trimmed_nonempty(ps.drop_last());
        if trim(ps.last()).len() > 0 {
            t.push(trim(ps.last()))
        } else {
            t
        }
    }
}

pub proof fn lemma_split_nonempty(s: Seq<char>, sep: Seq<char>)
    ensures
        split(s, sep).len() >= 1,
    decreases s.len(),
{
    if s.len() == 0 {
    } else if sep.len() > 0 && starts_with(s, sep) {
        lemma_split_nonempty(s.skip(sep.len() as int), sep);
    } else {
        lemma_split_nonempty(s.drop_first(), sep);
    }
}

/// Joining a sequence whose first piece stands alone.
pub proof fn lemma_join_cons(a: Seq<char>, x: Seq<Seq<char>>, sep: Seq<char>)
    requires
        x.len() >= 1,
    ensures
        join(seq![a] + x, sep) == a + sep + join(x, sep),
    decreases x.len(),
{
    let whole = seq![a] + x;
    assert(join(whole, sep) == join(whole.drop_last(), sep) + sep + whole.last());
    if x.len() == 1 {
        assert(whole.drop_last() == seq![a]);
        assert(whole.last() == x[0]);
        assert(join(whole.drop_last(), sep) == a);
    } else {
        assert(join(x, sep) == join(x.drop_last(), sep) + sep + x.last());
        assert(whole.drop_last() == seq![a] + x.drop_last());
        lemma_join_cons(a, x.drop_last(), sep);
        assert(whole.last() == x.last());
        assert(a + sep + join(x.drop_last(), sep) + sep + x.last() == a + sep + (join(
            x.drop_last(),
            sep,
        ) + sep + x.last()));
    }
}

/// Putting `c` in front of the first piece puts it in front of the joined text.
pub proof fn lemma_join_prepend(c: Seq<char>, ps: Seq<Seq<char>>, sep: Seq<char>)
    requires
        ps.len() >= 1,
    ensures
        join(prepend_first(c, ps), sep) == c + join(ps, sep),
    decreases ps.len(),
{
    let q = prepend_first(c, ps);
    if ps.len() == 1 {
    } else {
        assert(q.drop_last() == prepend_first(c, ps.drop_last()));
        lemma_join_prepend(c, ps.drop_last(), sep);
        assert(q.last() == ps.last());
        assert(c + join(ps.drop_last(), sep) + sep + ps.last() == c + (join(ps.drop_last(), sep)
            + sep + ps.last()));
    }
}

/// Joining the pieces of a split with the separator gives back the text.
pub proof fn lemma_join_split(s: Seq<char>, sep: Seq<char>)
    requires
        sep.len() > 0,
    ensures
        join(split(s, sep), sep) == s,
    decreases s.len(),
{
    if s.len() == 0 {
    } else if starts_with(s, sep) {
        let rest = s.skip(sep.len() as int);
        lemma_split_nonempty(rest, sep);
        lemma_join_split(rest, sep);
        lemma_join_cons(Seq::<char>::empty(), split(rest, sep), sep);
        assert(s.subrange(0, sep.len() as int) == sep);
        assert(sep + rest == s);
        assert(Seq::<char>::empty() + sep + rest == sep + rest);
    } else {
        let rest = s.drop_first();
        lemma_split_nonempty(rest, sep);
        lemma_join_split(rest, sep);
        lemma_join_prepend(seq![s[0]], split(rest, sep), sep);
        assert(seq![s[0]] + rest == s);
    }
}

/// The text cut at each occurrence of `sep`.
pub fn split_chars(s: &[char], sep: &[char]) -> (res: Vec<Vec<char>>)
    requires
        sep@.len() > 0,
    ensures
        views(res@) == split(s@, sep@),
{
    let mut pieces: Vec<Vec<char>> = Vec::new();
    let mut cur: Vec<char> = Vec::new();
    let mut i: usize = 0;
    proof {
        assert(s@.skip(0) == s@);
        lemma_split_nonempty(s@, sep@);
        assert(prepend_first(Seq::<char>::empty(), split(s@, sep@)) == split(s@, sep@));
        assert(views(pieces@) + split(s@, sep@) == split(s@, sep@));
    }
    while i < s.len()
        invariant
            i <= s@.len(),
            sep@.len() > 0,
            split(s@, sep@) == views(pieces@) + prepend_first(cur@, split(s@.skip(i as int), sep@)),
        decreases s.len() - i,
    {
        let ghost t = s@.skip(i as int);
        if matches_at(s, sep, i) {
            proof {
                assert(t.subrange(0, sep@.len() as int) == s@.subrange(
                    i as int,
                    i + sep@.len(),
                ));
                assert(starts_with(t, sep@));
                let k = sep@.len() as int;
                assert(t.skip(k) == s@.skip(i + k));
                let x = split(s@.skip(i + k), sep@);
                lemma_split_nonempty(s@.skip(i + k), sep@);
                assert(split(t, sep@) == seq![Seq::<char>::empty()] + x);
                assert(prepend_first(cur@, split(t, sep@)) == seq![cur@] + x);
                assert(prepend_first(Seq::<char>::empty(), x) == x);
                assert(views(pieces@.push(cur)) == views(pieces@).push(cur@));
            }
            pieces.push(cur);
            cur = Vec::new();
            i = i + sep.len();
        } else {
            proof {
                assert(!starts_with(t, sep@)) by {
                    if starts_with(t, sep@) {
                        assert(t.subrange(0, sep@.len() as int) == s@.subrange(
                            i as int,
                            i + sep@.len(),
                        ));
                    }
                }
                assert(t.drop_first() == s@.skip(i + 1));
                let r = split(s@.skip(i + 1), sep@);
                lemma_split_nonempty(s@.skip(i + 1), sep@);
                assert(t[0] == s@[i as int]);
                assert(t.len() > 0);
                assert(split(t, sep@) == r.update(0, seq![t[0]] + r[0]));
                assert(cur@ + (seq![t[0]] + r[0]) == cur@.push(s@[i as int]) + r[0]);
                assert(prepend_first(cur@, split(t, sep@)) =~= prepend_first(
                    cur@.push(s@[i as int]),
                    r,
                ));
            }
            cur.push(s[i]);
            i = i + 1;
        }
    }
    proof {
        assert(s@.skip(i as int).len() == 0);
        assert(prepend_first(cur@, split(s@.skip(i as int), sep@)) == seq![cur@]);
        assert(views(pieces@.push(cur)) == views(pieces@).push(cur@));
    }
    pieces.push(cur);
    pieces
}

/// Every occurrence of `p` in `s` replaced by `r`.
pub fn replace_chars(s: &[char], p: &[char], r: &[char]) -> (res: Vec<char>)
    requires
        p@.len() > 0,
    ensures
        res@ == replace_all(s@, p@, r@),
{
    let mut out: Vec<char> = Vec::new();
    let mut i: usize = 0;
    proof {
        assert(s@.skip(0) == s@);
    }
    while i < s.len()
        invariant
            i <= s@.len(),
            p@.len() > 0,
            replace_all(s@, p@, r@) == out@ + replace_all(s@.skip(i as int), p@, r@),
        decreases s.len() - i,
    {
        let ghost t = s@.skip(i as int);
        if matches_at(s, p, i) {
            proof {
                assert(t.subrange(0, p@.len() as int) == s@.subrange(i as int, i + p@.len()));
                assert(t.skip(p@.len() as int) == s@.skip(i + p@.len()));
                assert(out@ + (r@ + replace_all(s@.skip(i + p@.len()), p@, r@)) == (out@ + r@)
                    + replace_all(s@.skip(i + p@.len()), p@, r@));
            }
            append_chars(&mut out, r);
            i = i + p.len();
        } else {
            proof {
                assert(!starts_with(t, p@)) by {
                    if starts_with(t, p@) {
                        assert(t.subrange(0, p@.len() as int) == s@.subrange(
                            i as int,
                            i + p@.len(),
                        ));
                    }
                }
                assert(t.drop_first() == s@.skip(i + 1));
                assert(t[0] == s@[i as int]);
                assert(out@ + (seq![s@[i as int]] + replace_all(s@.skip(i + 1), p@, r@))
                    == out@.push(s@[i as int]) + replace_all(s@.skip(i + 1), p@, r@));
            }
            out.push(s[i]);
            i = i + 1;
        }
    }
    proof {
        assert(s@.skip(i as int).len() == 0);
        assert(out@ + Seq::<char>::empty() == out@);
    }
    out
}

/// The pieces of `ps` joined by `sep`.
pub fn join_chars(ps: &Vec<Vec<char>>, sep: &[char]) -> (res: Vec<char>)
    ensures
        res@ == join(views(ps@), sep@),
{
    let mut out: Vec<char> = Vec::new();
    let mut i: usize = 0;
    while i < ps.len()
        invariant
            i <= ps@.len(),
            out@ == join(views(ps@).take(i as int), sep@),
        decreases ps.len() - i,
    {
        proof {
            let v = views(ps@);
            assert(v.take(i + 1).drop_last() == v.take(i as int));
            assert(v.take(i + 1).last() == ps@[i as int]@);
        }
        if i > 0 {
            append_chars(&mut out, sep);
        }
        append_chars(&mut out, ps[i].as_slice());
        i = i + 1;
    }
    assert(views(ps@).take(ps@.len() as int) == views(ps@));
    out
}

/// The lines of `s`.
pub fn lines_of(s: &[char]) -> (res: Vec<Vec<char>>)
    ensures
        views(res@) == lines(s@),
{
    let nl = vec!['\n'];
    assert(nl@ == seq!['\n']);
    let ps = split_chars(s, nl.as_slice());
    proof {
        lemma_split_nonempty(s@, nl@);
    }
    let n = ps.len();
    let mut out: Vec<Vec<char>> = Vec::new();
    let mut i: usize = 0;
    while i + 1 < n
        invariant
            n == ps@.len(),
            n >= 1,
            i + 1 <= n,
            views(ps@) == split(s@, seq!['\n']),
            views(out@) == Seq::new(i as nat, |k: int| strip_cr(views(ps@)[k])),
        decreases n - i,
    {
        let piece = &ps[i];
        let l = piece.len();
        let line = if l > 0 && piece[l - 1] == '\r' {
            slice_to_vec(piece.as_slice(), 0, l - 1)
        } else {
            slice_to_vec(piece.as_slice(), 0, l)
        };
        proof {
            assert(piece@.subrange(0, l as int) == piece@);
            if l > 0 {
                assert(piece@.subrange(0, l - 1) == piece@.drop_last());
            }
            assert(views(ps@)[i as int] == piece@);
            assert(line@ == strip_cr(views(ps@)[i as int]));
            assert(views(out@.push(line)) =~= views(out@).push(line@));
            assert(views(out@).push(line@) =~= Seq::new(
                (i + 1) as nat,
                |k: int| strip_cr(views(ps@)[k]),
            ));
        }
        out.push(line);
        i = i + 1;
    }
    let last = &ps[n - 1];
    if last.len() > 0 {
        let copy = slice_to_vec(last.as_slice(), 0, last.len());
        proof {
            assert(last@.subrange(0, last@.len() as int) == last@);
            assert(views(out@.push(copy)) == views(out@) + seq![views(ps@).last()]);
        }
        out.push(copy);
    } else {
        assert(views(out@) + Seq::<Seq<char>>::empty() == views(out@));
    }
    out
}

/// The trimmed, nonempty pieces of `ps`, in order.
pub fn trimmed_nonempty_pieces(ps: &Vec<Vec<char>>) -> (res: Vec<Vec<char>>)
    ensures
        views(res@) == trimmed_nonempty(views(ps@)),
{
    let mut out: Vec<Vec<char>> = Vec::new();
    let mut i: usize = 0;
    while i < ps.len()
        invariant
            i <= ps@.len(),
            views(out@) == trimmed_nonempty(views(ps@).take(i as int)),
        decreases ps.len() - i,
    {
        proof {
            let v = views(ps@);
            assert(v.take(i + 1).drop_last() == v.take(i as int));
            assert(v.take(i + 1).last() == ps@[i as int]@);
        }
        let t = trim_chars(ps[i].as_slice());
        if t.len() > 0 {
            proof {
                assert(views(out@.push(t)) == views(out@).push(t@));
            }
            out.push(t);
        }
        i = i + 1;
    }
    assert(views(ps@).take(ps@.len() as int) == views(ps@));
    out
}


// ---------------------------------------------------------------------------
// Length bounds
// ---------------------------------------------------------------------------

pub proof fn lemma_count_le_len(s: Seq<char>)
    ensures
        count_non_ws(s) <= s.len(),
    decreases s.len(),
{
    if s.len() > 0 {
        lemma_count_le_len(s.drop_last());
    }
}

pub proof fn lemma_trim_start_len(s: Seq<char>)
    ensures
        trim_start(s).len() <= s.len(),
    decreases s.len(),
{
    if s.len() > 0 && is_ws(s[0]) {
        lemma_trim_start_len(s.drop_first());
    }
}

pub proof fn lemma_trim_end_len(s: Seq<char>)
    ensures
        trim_end(s).len() <= s.len(),
    decreases s.len(),
{
    if s.len() > 0 && is_ws(s.last()) {
        lemma_trim_end_len(s.drop_last());
    }
}

pub proof fn lemma_trim_len(s: Seq<char>)
    ensures
        trim(s).len() <= s.len(),
{
    lemma_trim_start_len(s);
    lemma_trim_end_len(trim_start(s));
}

/// A split has at most one more piece than the text has characters, and no piece
/// is longer than the text.
pub proof fn lemma_split_bounds(s: Seq<char>, sep: Seq<char>)
    ensures
        split(s, sep).len() <= s.len() + 1,
        forall|k: int| 0 <= k < split(s, sep).len() ==> (#[trigger] split(s, sep)[k]).len() <= s.len(),
    decreases s.len(),
{
    if s.len() == 0 {
    } else if sep.len() > 0 && starts_with(s, sep) {
        let rest = s.skip(sep.len() as int);
        lemma_split_bounds(rest, sep);
        let x = split(rest, sep);
        assert forall|k: int| 0 <= k < split(s, sep).len() implies (#[trigger] split(
            s,
            sep,
        )[k]).len() <= s.len() by {
            if k > 0 {
                assert(split(s, sep)[k] == x[k - 1]);
            }
        }
    } else {
        let rest = s.drop_first();
        lemma_split_bounds(rest, sep);
        lemma_split_nonempty(rest, sep);
    }
}

/// Keeping the trimmed nonempty pieces neither adds pieces nor lengthens any.
pub proof fn lemma_trimmed_nonempty_bounds(ps: Seq<Seq<char>>, bound: nat)
    requires
        forall|j: int| 0 <= j < ps.len() ==> (#[trigger] ps[j]).len() <= bound,
    ensures
        trimmed_nonempty(ps).len() <= ps.len(),
        forall|k: int|
            0 <= k < trimmed_nonempty(ps).len() ==> (#[trigger] trimmed_nonempty(ps)[k]).len()
                <= bound && trimmed_nonempty(ps)[k].len() > 0,
    decreases ps.len(),
{
    if ps.len() > 0 {
        let prev = ps.drop_last();
        assert forall|j: int| 0 <= j < prev.len() implies (#[trigger] prev[j]).len() <= bound by {
            assert(prev[j] == ps[j]);
        }
        lemma_trimmed_nonempty_bounds(prev, bound);
        lemma_trim_len(ps.last());
    }
}

// ---------------------------------------------------------------------------
// Decimal numbers
// ---------------------------------------------------------------------------

/// The ASCII digit for `d < 10`.
pub open spec fn digit_char(d: nat) -> char {
    if d == 0 {
        '0'
    } else if d == 1 {
        '1'
    } else if d == 2 {
        '2'
    } else if d == 3 {
        '3'
    } else if d == 4 {
        '4'
    } else if d == 5 {
        '5'
    } else if d == 6 {
        '6'
    } else if d == 7 {
        '7'
    } else if d == 8 {
        '8'
    } else {
        '9'
    }
}

/// The decimal notation of `n`, as `format!("{}", n)` writes it.
pub open spec fn decimal(n: nat) -> Seq<char>
    decreases n,
{
    if n < 10 {
        seq![digit_char(n)]
    } else {
        decimal(n / 10).push(digit_char(n % 10))
    }
}

fn digit(d: u32) -> (res: char)
    requires
        d < 10,
    ensures
        res == digit_char(d as nat),
{
    if d == 0 {
        '0'
    } else if d == 1 {
        '1'
    } else if d == 2 {
        '2'
    } else if d == 3 {
        '3'
    } else if d == 4 {
        '4'
    } else if d == 5 {
        '5'
    } else if d == 6 {
        '6'
    } else if d == 7 {
        '7'
    } else if d == 8 {
        '8'
    } else {
        '9'
    }
}

/// The decimal notation of `n`.
pub fn decimal_chars(n: u32) -> (res: Vec<char>)
    ensures
        res@ == decimal(n as nat),
    decreases n,
{
    if n < 10 {
        let mut v: Vec<char> = Vec::new();
        v.push(digit(n));
        v
    } else {
        let mut v = decimal_chars(n / 10);
        v.push(digit(n % 10));
        v
    }
}


// ---------------------------------------------------------------------------
// Case
// ---------------------------------------------------------------------------

/// The lowercase form of `s` under Unicode's case mapping (std's `str::to_lowercase`).
pub uninterp spec fn lowercase(s: Seq<char>) -> Seq<char>;

/// The lowercase form of a string.
///
/// Calls `str::to_lowercase`, whose result depends on the text alone (Unicode's
/// lowercase mapping); the contract names it rather than restating the tables.
#[verifier::external_body]
pub(crate) fn to_lowercase(s: &str) -> (res: String)
    ensures
        res@ == lowercase(s@),
{
    s.to_lowercase()
}

/// The character with scalar value `v`, if there is one.
///
/// Calls `char::from_u32`, which std documents as `None` exactly for values above
/// `0x10FFFF` and for surrogates `0xD800..=0xDFFF`.
#[verifier::external_body]
pub(crate) fn char_from_u32(v: u32) -> (res: Option<char>)
    ensures
        res.is_some() == (v <= 0x10FFFF && !(0xD800 <= v <= 0xDFFF)),
        res matches Some(c) ==> c == v as char,
{
    char::from_u32(v)
}


// ---------------------------------------------------------------------------
// UTF-8 lengths
// ---------------------------------------------------------------------------

/// The length of a text in UTF-8 bytes (std's `str::len`).
pub open spec fn byte_len(s: Seq<char>) -> nat {
    encode_utf8(s).len()
}

proof fn lemma_encode_utf8_push(s: Seq<char>, c: char)
    ensures
        encode_utf8(s.push(c)) == encode_utf8(s) + encode_scalar(c as u32),
    decreases s.len(),
{
    if s.len() == 0 {
        assert(s.push(c).drop_first() == Seq::<char>::empty());
        assert(encode_utf8(Seq::<char>::empty()) == Seq::<u8>::empty());
        assert(encode_scalar(c as u32) + Seq::<u8>::empty() == encode_scalar(c as u32));
    } else {
        assert(s.push(c).drop_first() == s.drop_first().push(c));
        lemma_encode_utf8_push(s.drop_first(), c);
        assert(s.push(c)[0] == s[0]);
    }
}

/// Adding a character adds its UTF-8 width to the byte length.
pub proof fn lemma_byte_len_push(s: Seq<char>, c: char)
    ensures
        byte_len(s.push(c)) == byte_len(s) + encode_scalar(c as u32).len(),
{
    lemma_encode_utf8_push(s, c);
}

/// The number of bytes that `c` takes in UTF-8.
pub fn char_width(c: char) -> (w: u128)
    ensures
        w == encode_scalar(c as u32).len(),
        1 <= w <= 4,
{
    proof {
        vstd::utf8::char_is_scalar(c);
    }
    let u = c as u32;
    if u <= 0x7F {
        1
    } else if u <= 0x7FF {
        2
    } else if u <= 0xFFFF {
        3
    } else {
        4
    }
}

/// The number of bytes that `s` takes in UTF-8.
pub fn utf8_byte_len(s: &[char]) -> (n: u128)
    ensures
        n == byte_len(s@),
        n <= 4 * s@.len(),
{
    let mut n: u128 = 0;
    let mut i: usize = 0;
    while i < s.len()
        invariant
            i <= s@.len(),
            n == byte_len(s@.take(i as int)),
            n <= 4 * i,
        decreases s.len() - i,
    {
        proof {
            assert(s@.take(i + 1) == s@.take(i as int).push(s@[i as int]));
            lemma_encode_utf8_push(s@.take(i as int), s@[i as int]);
        }
        n = n + char_width(s[i]);
        i = i + 1;
    }
    assert(s@.take(s@.len() as int) == s@);
    n
}


// ---------------------------------------------------------------------------
// Total lengths of pieces
// ---------------------------------------------------------------------------

/// The total length of the pieces, counting `extra` more for each piece.
pub open spec fn total_len(ps: Seq<Seq<char>>, extra: nat) -> nat
    decreases ps.len(),
{
    if ps.len() == 0 {
        0
    } else {
        total_len(ps.drop_last(), extra) + ps.last().len() + extra
    }
}

proof fn lemma_total_len_cons(a: Seq<char>, x: Seq<Seq<char>>, extra: nat)
    ensures
        total_len(seq![a] + x, extra) == a.len() + extra + total_len(x, extra),
    decreases x.len(),
{
    let w = seq![a] + x;
    if x.len() == 0 {
        assert(w.drop_last() == Seq::<Seq<char>>::empty());
        assert(total_len(w.drop_last(), extra) == 0);
        assert(w.last() == a);
    } else {
        assert(w.drop_last() == seq![a] + x.drop_last());
        lemma_total_len_cons(a, x.drop_last(), extra);
        assert(w.last() == x.last());
        assert(total_len(x, extra) == total_len(x.drop_last(), extra) + x.last().len() + extra);
    }
}

proof fn lemma_total_len_prepend(c: Seq<char>, ps: Seq<Seq<char>>, extra: nat)
    requires
        ps.len() >= 1,
    ensures
        total_len(prepend_first(c, ps), extra) == c.len() + total_len(ps, extra),
    decreases ps.len(),
{
    let q = prepend_first(c, ps);
    if ps.len() == 1 {
        assert(q.drop_last() == Seq::<Seq<char>>::empty());
        assert(ps.drop_last() == Seq::<Seq<char>>::empty());
    } else {
        assert(q.drop_last() == prepend_first(c, ps.drop_last()));
        lemma_total_len_prepend(c, ps.drop_last(), extra);
    }
}

/// The pieces of a split, each counted with one separator, make up the text and one
/// separator more.
pub proof fn lemma_split_total(s: Seq<char>, sep: Seq<char>)
    requires
        sep.len() > 0,
    ensures
        total_len(split(s, sep), sep.len()) == s.len() + sep.len(),
    decreases s.len(),
{
    if s.len() == 0 {
        assert(split(s, sep).drop_last() == Seq::<Seq<char>>::empty());
        assert(total_len(split(s, sep).drop_last(), sep.len()) == 0);
    } else if starts_with(s, sep) {
        let rest = s.skip(sep.len() as int);
        lemma_split_total(rest, sep);
        lemma_total_len_cons(Seq::<char>::empty(), split(rest, sep), sep.len());
        assert(split(s, sep) == seq![Seq::<char>::empty()] + split(rest, sep));
        assert(rest.len() == s.len() - sep.len());
    } else {
        let rest = s.drop_first();
        lemma_split_total(rest, sep);
        lemma_split_nonempty(rest, sep);
        lemma_total_len_prepend(seq![s[0]], split(rest, sep), sep.len());
    }
}

/// Keeping the trimmed nonempty pieces does not increase the total length.
pub proof fn lemma_trimmed_total(ps: Seq<Seq<char>>, extra: nat)
    ensures
        total_len(trimmed_nonempty(ps), extra) <= total_len(ps, extra),
    decreases ps.len(),
{
    if ps.len() > 0 {
        lemma_trimmed_total(ps.drop_last(), extra);
        lemma_trim_len(ps.last());
        let t = trimmed_nonempty(ps.drop_last());
        if trim(ps.last()).len() > 0 {
            assert(t.push(trim(ps.last())).drop_last() == t);
        }
    }
}

} // verus!
