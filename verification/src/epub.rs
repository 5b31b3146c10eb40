//! Text helpers for EPUB content: entity decoding, image sniffing, resource paths
//! and chapter titles.
use vstd::prelude::*;
use vstd::utf8::{decode_utf8, encode_utf8, valid_utf8};
use crate::text::{
    append_chars, chars_of, contains, matches_at, occurs_at, contains_chars, starts_with,
    starts_with_chars, string_of, to_lowercase, lowercase, trim, trim_chars, trim_start, slice_to_vec,
    trim_start_chars,
};

verus! {

// ---------------------------------------------------------------------------
// HTML entities
// ---------------------------------------------------------------------------

/// The common HTML entities and the characters they stand for: `&nbsp;`, `&lt;`,
/// `&gt;`, `&amp;`, `&quot;`, `&apos;`, `&#39;`, `&mdash;`, `&ndash;`, `&hellip;`,
/// `&lsquo;`, `&rsquo;`, `&ldquo;`, `&rdquo;`, `&#8212;`, `&#8211;`, `&#8230;`.
pub open spec fn entity_rules() -> Seq<(Seq<char>, char)> {
    seq![
        (seq!['&', 'n', 'b', 's', 'p', ';'], ' '),
        (seq!['&', 'l', 't', ';'], '<'),
        (seq!['&', 'g', 't', ';'], '>'),
        (seq!['&', 'a', 'm', 'p', ';'], '&'),
        (seq!['&', 'q', 'u', 'o', 't', ';'], '"'),
        (seq!['&', 'a', 'p', 'o', 's', ';'], '\''),
        (seq!['&', '#', '3', '9', ';'], '\''),
        (seq!['&', 'm', 'd', 'a', 's', 'h', ';'], '\u{2014}'),
        (seq!['&', 'n', 'd', 'a', 's', 'h', ';'], '\u{2013}'),
        (seq!['&', 'h', 'e', 'l', 'l', 'i', 'p', ';'], '\u{2026}'),
        (seq!['&', 'l', 's', 'q', 'u', 'o', ';'], '\u{2018}'),
        (seq!['&', 'r', 's', 'q', 'u', 'o', ';'], '\u{2019}'),
        (seq!['&', 'l', 'd', 'q', 'u', 'o', ';'], '\u{201C}'),
        (seq!['&', 'r', 'd', 'q', 'u', 'o', ';'], '\u{201D}'),
        (seq!['&', '#', '8', '2', '1', '2', ';'], '\u{2014}'),
        (seq!['&', '#', '8', '2', '1', '1', ';'], '\u{2013}'),
        (seq!['&', '#', '8', '2', '3', '0', ';'], '\u{2026}')
    ]
}

/// The first of `rules` whose entity occurs at position `i` of `s`.
pub open spec fn rule_at(s: Seq<char>, i: int, rules: Seq<(Seq<char>, char)>) -> Option<(Seq<char>, char)>
    decreases rules.len(),
{
    if rules.len() == 0 {
        None
    } else if occurs_at(s, rules[0].0, i) {
        Some(rules[0])
    } else {
        rule_at(s, i, rules.drop_first())
    }
}

/// The entity a rule search finds occurs where it was looked for.
pub proof fn lemma_rule_at_occurs(s: Seq<char>, i: int, rules: Seq<(Seq<char>, char)>)
    ensures
        match rule_at(s, i, rules) {
            Some(r) => occurs_at(s, r.0, i),
            None => true,
        },
    decreases rules.len(),
{
    if rules.len() > 0 && !occurs_at(s, rules[0].0, i) {
        lemma_rule_at_occurs(s, i, rules.drop_first());
    }
}

/// `s` from position `i` on with its entities decoded in one pass from the left:
/// an entity becomes its character, and what a replacement gives is not read again.
pub open spec fn decoded_from(s: Seq<char>, i: int) -> Seq<char>
    decreases s.len() - i,
{
    if i < 0 || i >= s.len() {
        Seq::empty()
    } else {
        match rule_at(s, i, entity_rules()) {
            Some(r) => if r.0.len() > 0 {
                proof {
                    lemma_rule_at_occurs(s, i, entity_rules());
                }
                seq![r.1] + decoded_from(s, i + r.0.len())
            } else {
                seq![s[i]] + decoded_from(s, i + 1)
            },
            None => seq![s[i]] + decoded_from(s, i + 1),
        }
    }
}

/// The text with its common HTML entities decoded, each once.
pub open spec fn entities_decoded(s: Seq<char>) -> Seq<char> {
    decoded_from(s, 0)
}

pub open spec fn rules_view(v: Seq<(Vec<char>, char)>) -> Seq<(Seq<char>, char)> {
    v.map_values(|r: (Vec<char>, char)| (r.0@, r.1))
}

fn entity_rule_table() -> (res: Vec<(Vec<char>, char)>)
    ensures
        rules_view(res@) == entity_rules(),
{
    let mut t: Vec<(Vec<char>, char)> = Vec::new();
    let p = vec!['&', 'n', 'b', 's', 'p', ';'];
    assert(p@ =~= seq!['&', 'n', 'b', 's', 'p', ';']);
    t.push((p, ' '));
    let p = vec!['&', 'l', 't', ';'];
    assert(p@ =~= seq!['&', 'l', 't', ';']);
    t.push((p, '<'));
    let p = vec!['&', 'g', 't', ';'];
    assert(p@ =~= seq!['&', 'g', 't', ';']);
    t.push((p, '>'));
    let p = vec!['&', 'a', 'm', 'p', ';'];
    assert(p@ =~= seq!['&', 'a', 'm', 'p', ';']);
    t.push((p, '&'));
    let p = vec!['&', 'q', 'u', 'o', 't', ';'];
    assert(p@ =~= seq!['&', 'q', 'u', 'o', 't', ';']);
    t.push((p, '"'));
    let p = vec!['&', 'a', 'p', 'o', 's', ';'];
    assert(p@ =~= seq!['&', 'a', 'p', 'o', 's', ';']);
    t.push((p, '\''));
    let p = vec!['&', '#', '3', '9', ';'];
    assert(p@ =~= seq!['&', '#', '3', '9', ';']);
    t.push((p, '\''));
    let p = vec!['&', 'm', 'd', 'a', 's', 'h', ';'];
    assert(p@ =~= seq!['&', 'm', 'd', 'a', 's', 'h', ';']);
    t.push((p, '\u{2014}'));
    let p = vec!['&', 'n', 'd', 'a', 's', 'h', ';'];
    assert(p@ =~= seq!['&', 'n', 'd', 'a', 's', 'h', ';']);
    t.push((p, '\u{2013}'));
    let p = vec!['&', 'h', 'e', 'l', 'l', 'i', 'p', ';'];
    assert(p@ =~= seq!['&', 'h', 'e', 'l', 'l', 'i', 'p', ';']);
    t.push((p, '\u{2026}'));
    let p = vec!['&', 'l', 's', 'q', 'u', 'o', ';'];
    assert(p@ =~= seq!['&', 'l', 's', 'q', 'u', 'o', ';']);
    t.push((p, '\u{2018}'));
    let p = vec!['&', 'r', 's', 'q', 'u', 'o', ';'];
    assert(p@ =~= seq!['&', 'r', 's', 'q', 'u', 'o', ';']);
    t.push((p, '\u{2019}'));
    let p = vec!['&', 'l', 'd', 'q', 'u', 'o', ';'];
    assert(p@ =~= seq!['&', 'l', 'd', 'q', 'u', 'o', ';']);
    t.push((p, '\u{201C}'));
    let p = vec!['&', 'r', 'd', 'q', 'u', 'o', ';'];
    assert(p@ =~= seq!['&', 'r', 'd', 'q', 'u', 'o', ';']);
    t.push((p, '\u{201D}'));
    let p = vec!['&', '#', '8', '2', '1', '2', ';'];
    assert(p@ =~= seq!['&', '#', '8', '2', '1', '2', ';']);
    t.push((p, '\u{2014}'));
    let p = vec!['&', '#', '8', '2', '1', '1', ';'];
    assert(p@ =~= seq!['&', '#', '8', '2', '1', '1', ';']);
    t.push((p, '\u{2013}'));
    let p = vec!['&', '#', '8', '2', '3', '0', ';'];
    assert(p@ =~= seq!['&', '#', '8', '2', '3', '0', ';']);
    t.push((p, '\u{2026}'));
    assert(rules_view(t@) =~= entity_rules());
    t
}

fn rule_index(s: &[char], i: usize, rules: &Vec<(Vec<char>, char)>) -> (res: Option<usize>)
    ensures
        match res {
            Some(k) => k < rules@.len() && rule_at(s@, i as int, rules_view(rules@)) == Some(
                rules_view(rules@)[k as int],
            ),
            None => rule_at(s@, i as int, rules_view(rules@)) is None,
        },
{
    let ghost all = rules_view(rules@);
    let mut k: usize = 0;
    assert(all.skip(0) =~= all);
    while k < rules.len()
        invariant
            k <= rules@.len(),
            all == rules_view(rules@),
            rule_at(s@, i as int, all) == rule_at(s@, i as int, all.skip(k as int)),
        decreases rules.len() - k,
    {
        proof {
            assert(all.skip(k as int)[0] == all[k as int]);
            assert(all.skip(k as int).drop_first() =~= all.skip(k + 1));
        }
        if matches_at(s, rules[k].0.as_slice(), i) {
            return Some(k);
        }
        k = k + 1;
    }
    None
}

/// Decode the common HTML entities of `text`, each once, from left to right.
pub fn decode_html_entities(text: &str) -> (res: String)
    ensures
        res@ == entities_decoded(text@),
{
    let s = chars_of(text);
    let rules = entity_rule_table();
    let n = s.len();
    let mut out: Vec<char> = Vec::new();
    let mut i: usize = 0;
    while i < n
        invariant
            i <= n == s@.len(),
            s@ == text@,
            rules_view(rules@) == entity_rules(),
            decoded_from(s@, 0) == out@ + decoded_from(s@, i as int),
        decreases n - i,
    {
        match rule_index(s.as_slice(), i, &rules) {
            Some(k) => {
                let len = rules[k].0.len();
                proof {
                    lemma_rule_at_occurs(s@, i as int, entity_rules());
                    assert(rules_view(rules@)[k as int] == (rules@[k as int].0@, rules@[k as int].1));
                }
                if len > 0 {
                    proof {
                        assert(rules_view(rules@)[k as int] == (rules@[k as int].0@, rules@[k as int].1));
                        assert(decoded_from(s@, i as int) == seq![rules@[k as int].1] + decoded_from(s@, i + len));
                    }
                    out.push(rules[k].1);
                    proof {
                        assert(decoded_from(s@, 0) == out@ + decoded_from(s@, i + len));
                    }
                    i = i + len;
                } else {
                    proof {
                        assert(decoded_from(s@, i as int) == seq![s@[i as int]] + decoded_from(s@, i + 1));
                    }
                    out.push(s[i]);
                    i = i + 1;
                }
            },
            None => {
                proof {
                    assert(decoded_from(s@, i as int) == seq![s@[i as int]] + decoded_from(s@, i + 1));
                }
                out.push(s[i]);
                i = i + 1;
            },
        }
    }
    assert(out@ =~= out@ + decoded_from(s@, i as int));
    string_of(out.as_slice())
}

// ---------------------------------------------------------------------------
// Image types
// ---------------------------------------------------------------------------

/// Whether `d` begins with the bytes `sig`.
pub open spec fn has_signature(d: Seq<u8>, sig: Seq<u8>) -> bool {
    d.len() >= sig.len() && d.take(sig.len() as int) == sig
}

/// The MIME type that the leading bytes of an image announce: PNG, JPEG, GIF
/// (87a or 89a) or WebP (`RIFF`, four bytes, `WEBP`), tried in that order;
/// anything else is `application/octet-stream`.
pub open spec fn image_mime(d: Seq<u8>) -> Seq<char> {
    if has_signature(d, seq![0x89u8, 0x50u8, 0x4Eu8, 0x47u8, 0x0Du8, 0x0Au8, 0x1Au8, 0x0Au8]) {
        "image/png"@
    } else if has_signature(d, seq![0xFFu8, 0xD8u8]) {
        "image/jpeg"@
    } else if has_signature(d, seq![0x47u8, 0x49u8, 0x46u8, 0x38u8, 0x39u8, 0x61u8])
        || has_signature(d, seq![0x47u8, 0x49u8, 0x46u8, 0x38u8, 0x37u8, 0x61u8]) {
        "image/gif"@
    } else if d.len() >= 12 && has_signature(d, seq![0x52u8, 0x49u8, 0x46u8, 0x46u8])
        && d.subrange(8, 12) == seq![0x57u8, 0x45u8, 0x42u8, 0x50u8] {
        "image/webp"@
    } else {
        "application/octet-stream"@
    }
}

/// Whether `data` holds `sig` from index `at` on.
fn bytes_at(data: &[u8], at: usize, sig: &[u8]) -> (res: bool)
    ensures
        res == (at + sig@.len() <= data@.len() && data@.subrange(at as int, at + sig@.len())
            == sig@),
{
    if sig.len() > data.len() || at > data.len() - sig.len() {
        return false;
    }
    let mut i: usize = 0;
    while i < sig.len()
        invariant
            i <= sig@.len(),
            at + sig@.len() <= data@.len(),
            data@.len() == data.len(),
            forall|k: int| 0 <= k < i ==> data@[at + k] == sig@[k],
        decreases sig.len() - i,
    {
        assert(at + i < data@.len());
        if data[at + i] != sig[i] {
            proof {
                assert(data@.subrange(at as int, at + sig@.len())[i as int] != sig@[i as int]);
            }
            return false;
        }
        i = i + 1;
    }
    proof {
        assert(data@.subrange(at as int, at + sig@.len()) =~= sig@);
    }
    true
}

/// The MIME type of an image, told from its first bytes.
pub fn detect_image_mime(data: &[u8]) -> (res: String)
    ensures
        res@ == image_mime(data@),
{
    let png: [u8; 8] = [0x89, 0x50, 0x4E, 0x47, 0x0D, 0x0A, 0x1A, 0x0A];
    let jpeg: [u8; 2] = [0xFF, 0xD8];
    let gif89: [u8; 6] = [0x47, 0x49, 0x46, 0x38, 0x39, 0x61];
    let gif87: [u8; 6] = [0x47, 0x49, 0x46, 0x38, 0x37, 0x61];
    let riff: [u8; 4] = [0x52, 0x49, 0x46, 0x46];
    let webp: [u8; 4] = [0x57, 0x45, 0x42, 0x50];
    proof {
        assert(png@ =~= seq![0x89u8, 0x50u8, 0x4Eu8, 0x47u8, 0x0Du8, 0x0Au8, 0x1Au8, 0x0Au8]);
        assert(jpeg@ =~= seq![0xFFu8, 0xD8u8]);
        assert(gif89@ =~= seq![0x47u8, 0x49u8, 0x46u8, 0x38u8, 0x39u8, 0x61u8]);
        assert(gif87@ =~= seq![0x47u8, 0x49u8, 0x46u8, 0x38u8, 0x37u8, 0x61u8]);
        assert(riff@ =~= seq![0x52u8, 0x49u8, 0x46u8, 0x46u8]);
        assert(webp@ =~= seq![0x57u8, 0x45u8, 0x42u8, 0x50u8]);
        assert(data@.subrange(0, 8) == data@.take(8));
        assert(data@.subrange(0, 2) == data@.take(2));
        assert(data@.subrange(0, 6) == data@.take(6));
        assert(data@.subrange(0, 4) == data@.take(4));
    }
    if bytes_at(data, 0, &png) {
        String::from_str("image/png")
    } else if bytes_at(data, 0, &jpeg) {
        String::from_str("image/jpeg")
    } else if bytes_at(data, 0, &gif89) || bytes_at(data, 0, &gif87) {
        String::from_str("image/gif")
    } else if data.len() >= 12 && bytes_at(data, 0, &riff) && bytes_at(data, 8, &webp) {
        String::from_str("image/webp")
    } else {
        String::from_str("application/octet-stream")
    }
}

// ---------------------------------------------------------------------------
// Resource paths
// ---------------------------------------------------------------------------

/// The part of `s` after its last `/` (all of `s` when it has none).
pub open spec fn after_last_slash(s: Seq<char>) -> Seq<char>
    decreases s.len(),
{
    if s.len() == 0 {
        s
    } else if s.last() == '/' {
        Seq::<char>::empty()
    } else {
        after_last_slash(s.drop_last()).push(s.last())
    }
}

/// The file name of a resource path: what follows its last `/`.
pub fn extract_filename(path: &str) -> (res: String)
    ensures
        res@ == after_last_slash(path@),
{
    let s = chars_of(path);
    let mut start = s.len();
    proof {
        assert(s@.subrange(start as int, s@.len() as int) =~= Seq::<char>::empty());
        assert(s@.take(start as int) =~= s@);
        assert(s@ + Seq::<char>::empty() =~= s@);
    }
    while start > 0 && s[start - 1] != '/'
        invariant
            start <= s@.len(),
            after_last_slash(s@) == after_last_slash(s@.take(start as int)) + s@.subrange(
                start as int,
                s@.len() as int,
            ),
        decreases start,
    {
        proof {
            let t = s@.take(start as int);
            assert(t.drop_last() == s@.take(start - 1));
            assert(t.last() == s@[start - 1]);
            assert(s@.subrange(start - 1, s@.len() as int) =~= seq![s@[start - 1]]
                + s@.subrange(start as int, s@.len() as int));
        }
        start = start - 1;
    }
    proof {
        if start > 0 {
            assert(s@.take(start as int).last() == s@[start - 1]);
        }
        assert(s@.take(start as int) == s@.take(0) || start > 0);
        assert(after_last_slash(s@.take(start as int)) =~= Seq::<char>::empty());
        assert(s@.take(s@.len() as int) == s@);
    }
    let out = slice_to_vec(s.as_slice(), start, s.len());
    string_of(&out)
}

/// `s` without every leading `../`.
pub open spec fn strip_parent_dirs(s: Seq<char>) -> Seq<char>
    decreases s.len(),
{
    if starts_with(s, seq!['.', '.', '/']) {
        strip_parent_dirs(s.skip(3))
    } else {
        s
    }
}

/// `s` without every leading `./`.
pub open spec fn strip_current_dirs(s: Seq<char>) -> Seq<char>
    decreases s.len(),
{
    if starts_with(s, seq!['.', '/']) {
        strip_current_dirs(s.skip(2))
    } else {
        s
    }
}

/// A resource path with its leading `../` and `./` steps and one leading `/` removed.
pub open spec fn stripped_path(s: Seq<char>) -> Seq<char> {
    let r = strip_current_dirs(strip_parent_dirs(s));
    if r.len() > 0 && r[0] == '/' {
        r.skip(1)
    } else {
        r
    }
}

/// Remove the leading `../` and `./` steps and one leading `/` of a path.
pub fn strip_path_prefixes(path: &[char]) -> (res: Vec<char>)
    ensures
        res@ == stripped_path(path@),
{
    let parent = vec!['.', '.', '/'];
    let current = vec!['.', '/'];
    let mut i: usize = 0;
    proof {
        assert(path@.skip(0) == path@);
    }
    while i < path.len() && crate::text::matches_at(path, parent.as_slice(), i)
        invariant
            i <= path@.len(),
            parent@ == seq!['.', '.', '/'],
            strip_parent_dirs(path@) == strip_parent_dirs(path@.skip(i as int)),
        decreases path.len() - i,
    {
        proof {
            let t = path@.skip(i as int);
            assert(t.subrange(0, 3) == path@.subrange(i as int, i + 3));
            assert(t.skip(3) == path@.skip(i + 3));
        }
        i = i + 3;
    }
    proof {
        let t = path@.skip(i as int);
        if starts_with(t, seq!['.', '.', '/']) {
            assert(t.subrange(0, 3) == path@.subrange(i as int, i + 3));
        }
    }
    let ghost after_parent = path@.skip(i as int);
    while i < path.len() && crate::text::matches_at(path, current.as_slice(), i)
        invariant
            i <= path@.len(),
            current@ == seq!['.', '/'],
            strip_parent_dirs(path@) == after_parent,
            strip_current_dirs(after_parent) == strip_current_dirs(path@.skip(i as int)),
        decreases path.len() - i,
    {
        proof {
            let t = path@.skip(i as int);
            assert(t.subrange(0, 2) == path@.subrange(i as int, i + 2));
            assert(t.skip(2) == path@.skip(i + 2));
        }
        i = i + 2;
    }
    proof {
        let t = path@.skip(i as int);
        if starts_with(t, seq!['.', '/']) {
            assert(t.subrange(0, 2) == path@.subrange(i as int, i + 2));
        }
    }
    if i < path.len() && path[i] == '/' {
        i = i + 1;
        proof {
            assert(path@.skip(i - 1).skip(1) == path@.skip(i as int));
        }
    }
    let out = slice_to_vec(path, i, path.len());
    proof {
        assert(path@.subrange(i as int, path@.len() as int) == path@.skip(i as int));
    }
    out
}

/// The value of an ASCII hexadecimal digit.
pub open spec fn hex_value(b: u8) -> Option<u8> {
    if 48 <= b <= 57 {
        Some((b - 48) as u8)
    } else if 65 <= b <= 70 {
        Some((b - 55) as u8)
    } else if 97 <= b <= 102 {
        Some((b - 87) as u8)
    } else {
        None
    }
}

/// Bytes with each `%` followed by two hexadecimal digits replaced by the byte they
/// give; any other `%` stays, and nothing else changes (`+` included).
pub open spec fn percent_bytes(d: Seq<u8>) -> Seq<u8>
    decreases d.len(),
{
    if d.len() == 0 {
        d
    } else if d[0] == 37 {
        if d.len() < 3 {
            d
        } else {
            match hex_value(d[1]) {
                Some(hi) => match hex_value(d[2]) {
                    Some(lo) => seq![(hi * 16 + lo) as u8] + percent_bytes(d.skip(3)),
                    None => seq![37u8, d[1]] + percent_bytes(d.skip(2)),
                },
                None => seq![37u8] + percent_bytes(d.skip(1)),
            }
        }
    } else {
        seq![d[0]] + percent_bytes(d.drop_first())
    }
}

/// What `urlencoding::decode` gives for a string: its UTF-8 bytes percent-decoded,
/// read as UTF-8; `None` where they are not UTF-8.
pub open spec fn percent_decoded(s: Seq<char>) -> Option<Seq<char>> {
    let b = percent_bytes(encode_utf8(s));
    if valid_utf8(b) {
        Some(decode_utf8(b))
    } else {
        None
    }
}

/// `urlencoding::decode`: decodes each `%` with two hexadecimal digits into a byte,
/// keeps every other byte, and reads the bytes as UTF-8, failing where they are
/// not UTF-8; a text without `%` comes back as it is.
#[verifier::external_body]
fn percent_decode(s: &str) -> (res: Option<String>)
    ensures
        match res {
            Some(r) => percent_decoded(s@) == Some(r@),
            None => percent_decoded(s@) is None,
        },
{
    match urlencoding::decode(s) {
        Ok(d) => Some(d.into_owned()),
        Err(_) => None,
    }
}

/// A resource path as it is compared: lower-cased, percent-decoded where it holds
/// a `%` and decodes, then stripped of its leading relative steps.
pub open spec fn normalized_resource_path(lowered: Seq<char>, decoded: Option<Seq<char>>) -> Seq<
    char,
> {
    let r = if contains(lowered, seq!['%']) && decoded is Some {
        decoded.unwrap()
    } else {
        lowered
    };
    stripped_path(r)
}

/// Normalise a resource path so that two references to one file compare equal.
pub fn normalize_path(path: &str) -> (res: String)
    ensures
        res@ == normalized_resource_path(lowercase(path@), percent_decoded(lowercase(path@))),
{
    let lowered = to_lowercase(path);
    let lc = chars_of(lowered.as_str());
    let mut r = lc;
    let pct = vec!['%'];
    assert(pct@ == seq!['%']);
    if contains_chars(r.as_slice(), pct.as_slice()) {
        match percent_decode(lowered.as_str()) {
            Some(d) => {
                r = chars_of(d.as_str());
            },
            None => {},
        }
    }
    let out = strip_path_prefixes(r.as_slice());
    string_of(&out)
}

/// A path as resource paths are compared.
pub open spec fn comparable_path(p: Seq<char>) -> Seq<char> {
    normalized_resource_path(lowercase(p), percent_decoded(lowercase(p)))
}

/// Whether a resource whose comparable path is `rn` is the one that the comparable
/// path `pn` refers to: the same path, the same file name, or a path ending with it.
pub open spec fn refers_to(pn: Seq<char>, rn: Seq<char>) -> bool {
    rn == pn || after_last_slash(pn) == after_last_slash(rn) || crate::text::ends_with(rn, pn)
}

/// The id of the first of the resources (id and path) that `path` refers to.
pub open spec fn resource_for_path(resources: Seq<(String, String)>, pn: Seq<char>) -> Option<Seq<char>>
    decreases resources.len(),
{
    if resources.len() == 0 {
        None
    } else if refers_to(pn, comparable_path(lowercase(resources[0].1@))) {
        Some(resources[0].0@)
    } else {
        resource_for_path(resources.drop_first(), pn)
    }
}

/// Finds the id of the resource (id and path) that a path of the book refers to,
/// trying the resources in order.
pub fn find_resource_id_by_path(resources: &[(String, String)], path: &str) -> (res: Option<String>)
    ensures
        match res {
            Some(id) => resource_for_path(resources@, comparable_path(path@)) == Some(id@),
            None => resource_for_path(resources@, comparable_path(path@)) is None,
        },
{
    let pn = normalize_path(path);
    let pnc = chars_of(pn.as_str());
    let pf = extract_filename(pn.as_str());
    let mut i: usize = 0;
    proof {
        assert(resources@.skip(0) == resources@);
    }
    while i < resources.len()
        invariant
            i <= resources@.len(),
            pn@ == comparable_path(path@),
            pnc@ == pn@,
            pf@ == after_last_slash(pn@),
            resource_for_path(resources@, pn@) == resource_for_path(resources@.skip(i as int), pn@),
        decreases resources.len() - i,
    {
        proof {
            assert(resources@.skip(i as int)[0] == resources@[i as int]);
            assert(resources@.skip(i as int).drop_first() == resources@.skip(i + 1));
        }
        let lowered = to_lowercase(resources[i].1.as_str());
        let rn = normalize_path(lowered.as_str());
        let rnc = chars_of(rn.as_str());
        let rf = extract_filename(rn.as_str());
        if crate::text::str_eq(rn.as_str(), pn.as_str()) || crate::text::str_eq(
            pf.as_str(),
            rf.as_str(),
        ) || crate::text::ends_with_chars(rnc.as_slice(), pnc.as_slice()) {
            return Some(String::from_str(resources[i].0.as_str()));
        }
        i = i + 1;
    }
    None
}

// ---------------------------------------------------------------------------
// Chapter titles
// ---------------------------------------------------------------------------

/// Chapter text with a leading title taken off: the trimmed text, and where it
/// begins with `title`, what follows the title with its leading whitespace removed.
pub open spec fn without_title(text: Seq<char>, title: Seq<char>) -> Seq<char> {
    let t = trim(text);
    if starts_with(t, title) {
        trim_start(t.skip(title.len() as int))
    } else {
        t
    }
}

/// Remove the title from the beginning of chapter text.
pub fn remove_title_from_content(text: &str, title: &str) -> (res: String)
    ensures
        res@ == without_title(text@, title@),
{
    let t = trim_chars(chars_of(text).as_slice());
    let ti = chars_of(title);
    if starts_with_chars(t.as_slice(), ti.as_slice()) {
        let rest = slice_to_vec(t.as_slice(), ti.len(), t.len());
        proof {
            assert(t@.subrange(ti@.len() as int, t@.len() as int) == t@.skip(ti@.len() as int));
        }
        let out = trim_start_chars(rest.as_slice());
        string_of(&out)
    } else {
        string_of(&t)
    }
}

} // verus!
