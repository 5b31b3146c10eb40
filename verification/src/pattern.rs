//! Regular expressions, through the `regex` crate.
//!
//! What a regular expression matches is the `regex` crate's business; the library
//! names those results and proves its own logic relative to them.
use vstd::prelude::*;

verus! {

#[verifier::external_type_specification]
#[verifier::external_body]
pub struct ExRegex(regex::Regex);

/// Whether the `regex` crate accepts `pattern` (`Regex::new(pattern).is_ok()`).
pub uninterp spec fn regex_compiles(pattern: Seq<char>) -> bool;

/// The text of the leftmost-first match of `pattern` in `text` (`Regex::find`).
pub uninterp spec fn regex_first_match(pattern: Seq<char>, text: Seq<char>) -> Option<Seq<char>>;

/// The text of capture group 1 of the leftmost-first match of `pattern` in `text`
/// (`Regex::captures(text)?.get(1)`).
pub uninterp spec fn regex_first_group(pattern: Seq<char>, text: Seq<char>) -> Option<Seq<char>>;

/// Capture group 1 of each of the successive non-overlapping matches of `pattern` in
/// `text` (`Regex::captures_iter`, then `get(1)` of each), `None` where it took no part.
pub uninterp spec fn regex_match_groups(pattern: Seq<char>, text: Seq<char>) -> Seq<Option<Seq<char>>>;

/// The groups that took part, in order.
pub open spec fn present_groups(gs: Seq<Option<Seq<char>>>) -> Seq<Seq<char>>
    decreases gs.len(),
{
    if gs.len() == 0 {
        Seq::empty()
    } else {
        let prev = present_groups(gs.drop_last());
        match gs.last() {
            Some(g) => prev.push(g),
            None => prev,
        }
    }
}

/// The texts of capture group 1 of the successive matches of `pattern` in `text`,
/// leaving out matches where it took no part.
pub open spec fn regex_all_groups(pattern: Seq<char>, text: Seq<char>) -> Seq<Seq<char>> {
    present_groups(regex_match_groups(pattern, text))
}

/// `text` with the first match of `pattern` replaced by the literal `rep` (`Regex::replace`).
pub uninterp spec fn regex_replace_first(pattern: Seq<char>, text: Seq<char>, rep: Seq<char>) -> Seq<
    char,
>;

/// `text` with every non-overlapping match of `pattern` replaced by the literal `rep`
/// (`Regex::replace_all`).
pub uninterp spec fn regex_replace_every(pattern: Seq<char>, text: Seq<char>, rep: Seq<char>) -> Seq<
    char,
>;

/// A compiled regular expression together with the pattern it was compiled from.
///
/// Values are made only by [`compile`], so `re` is always the compilation of `source`.
pub struct Pattern {
    source: String,
    re: regex::Regex,
}

impl View for Pattern {
    type V = Seq<char>;

    /// The pattern text this regular expression was compiled from.
    closed spec fn view(&self) -> Seq<char> {
        self.source@
    }
}

/// Compiles `pattern`.
///
/// Calls `regex::Regex::new`. Trusted: the result is `Some` exactly when the crate
/// accepts the pattern, and the compiled value carries the pattern's text.
#[verifier::external_body]
pub(crate) fn compile(pattern: &str) -> (res: Option<Pattern>)
    ensures
        res.is_some() == regex_compiles(pattern@),
        res matches Some(p) ==> p@ == pattern@,
{
    match regex::Regex::new(pattern) {
        Ok(re) => Some(Pattern { source: pattern.to_string(), re }),
        Err(_) => None,
    }
}

/// The text of the first match of `p` in `text`.
///
/// Calls `regex::Regex::find` and takes the match's `as_str`. Trusted: the result is
/// the named result `regex_first_match` of the pattern and the text.
#[verifier::external_body]
pub(crate) fn first_match(p: &Pattern, text: &str) -> (res: Option<String>)
    ensures
        res.is_some() == regex_first_match(p@, text@).is_some(),
        res matches Some(m) ==> m@ == regex_first_match(p@, text@).unwrap(),
{
    match p.re.find(text) {
        Some(m) => Some(m.as_str().to_string()),
        None => None,
    }
}

/// Whether `p` matches anywhere in `text`.
///
/// Calls `regex::Regex::is_match`, which the crate documents as true if and only if
/// there is a match anywhere in the haystack, that is, exactly when `find` finds one.
#[verifier::external_body]
pub(crate) fn is_match(p: &Pattern, text: &str) -> (res: bool)
    ensures
        res == regex_first_match(p@, text@).is_some(),
{
    p.re.is_match(text)
}

/// The text of capture group 1 of the first match of `p` in `text`.
///
/// Calls `regex::Regex::captures` and takes group 1. Trusted: the result is the
/// named result `regex_first_group`.
#[verifier::external_body]
pub(crate) fn first_group(p: &Pattern, text: &str) -> (res: Option<String>)
    ensures
        res.is_some() == regex_first_group(p@, text@).is_some(),
        res matches Some(g) ==> g@ == regex_first_group(p@, text@).unwrap(),
{
    match p.re.captures(text) {
        Some(c) => match c.get(1) {
            Some(m) => Some(m.as_str().to_string()),
            None => None,
        },
        None => None,
    }
}

/// `text` with the first match of `p` replaced by the literal text `rep`.
///
/// Calls `regex::Regex::replace` with `regex::NoExpand`, so that `rep` is inserted as
/// it stands. Trusted: the result is the named result `regex_replace_first`.
#[verifier::external_body]
pub(crate) fn replace_first(p: &Pattern, text: &str, rep: &str) -> (res: String)
    ensures
        res@ == regex_replace_first(p@, text@, rep@),
{
    p.re.replace(text, regex::NoExpand(rep)).into_owned()
}

/// `text` with every match of `p` replaced by the literal text `rep`.
///
/// Calls `regex::Regex::replace_all` with `regex::NoExpand`. Trusted: the result is the
/// named result `regex_replace_every`.
#[verifier::external_body]
pub(crate) fn replace_every(p: &Pattern, text: &str, rep: &str) -> (res: String)
    ensures
        res@ == regex_replace_every(p@, text@, rep@),
{
    p.re.replace_all(text, regex::NoExpand(rep)).into_owned()
}

/// Capture group 1 of every match of `p` in `text`, in order, `None` where it took
/// no part in the match.
///
/// Calls `regex::Regex::captures_iter` and takes `get(1)` of each match. Trusted: the
/// result is the named result `regex_match_groups`.
#[verifier::external_body]
fn match_groups(p: &Pattern, text: &str) -> (res: Vec<Option<String>>)
    ensures
        res@.map_values(|g: Option<String>| match g {
            Some(s) => Some(s@),
            None => None,
        }) == regex_match_groups(p@, text@),
{
    p.re.captures_iter(text).map(|c| c.get(1).map(|m| m.as_str().to_string())).collect()
}

/// The texts of capture group 1 of every match of `p` in `text`, in order.
pub(crate) fn all_groups(p: &Pattern, text: &str) -> (res: Vec<String>)
    ensures
        res@.map_values(|s: String| s@) == regex_all_groups(p@, text@),
{
    let gs = match_groups(p, text);
    let ghost gv = gs@.map_values(|g: Option<String>| match g {
        Some(s) => Some(s@),
        None => None,
    });
    let mut out: Vec<String> = Vec::new();
    let mut i: usize = 0;
    while i < gs.len()
        invariant
            i <= gs@.len(),
            gv == gs@.map_values(|g: Option<String>| match g {
                Some(s) => Some(s@),
                None => None,
            }),
            out@.map_values(|s: String| s@) == present_groups(gv.take(i as int)),
        decreases gs.len() - i,
    {
        proof {
            assert(gv.take(i + 1).drop_last() =~= gv.take(i as int));
            assert(gv.take(i + 1).last() == gv[i as int]);
        }
        match &gs[i] {
            Some(g) => {
                let ghost before = out@;
                out.push(crate::text::string_of(crate::text::chars_of(g.as_str()).as_slice()));
                proof {
                    assert(out@.map_values(|s: String| s@) =~= before.map_values(|s: String| s@).push(g@));
                }
            },
            None => {},
        }
        i = i + 1;
    }
    assert(gv.take(i as int) =~= gv);
    out
}

} // verus!
