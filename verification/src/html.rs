//! Plain text from the HTML of EPUB pages, and chapter titles found in it.
use vstd::prelude::*;
use crate::epub::{decode_html_entities, entities_decoded};
use crate::pattern::{compile, first_group, first_match, regex_compiles, regex_first_group, regex_first_match, regex_replace_every, replace_every};
use crate::text::{
    chars_of, contains, contains_chars, ends_with, ends_with_chars, join, join_chars, lines,
    lines_of, lowercase, starts_with, starts_with_chars, string_of, to_lowercase, trim, trim_chars,
    views,
};

verus! {

/// The state of reading HTML: the text so far, whether a tag is open, the open tag's
/// text, and the elements whose content is being skipped (innermost last).
pub type HtmlState = (Seq<char>, bool, Seq<char>, Seq<Seq<char>>);

/// The index of the first `>` of `s` at or after `k`, or the length of `s`.
pub open spec fn close_index(s: Seq<char>, k: int) -> int
    decreases s.len() - k,
{
    if k >= s.len() {
        s.len() as int
    } else if k >= 0 && s[k] == '>' {
        k
    } else {
        close_index(s, k + 1)
    }
}

/// The skipped elements after a tag met inside skipped content: the end tag of the
/// innermost skipped element closes it; its start tag (not self-closing) opens it again.
pub open spec fn skip_after_tag(skip: Seq<Seq<char>>, tag: Seq<char>) -> Seq<Seq<char>> {
    let tl = lowercase(tag);
    let cur = skip.last();
    if starts_with(tl, seq!['<', '/'] + cur) {
        skip.drop_last()
    } else if starts_with(tl, seq!['<'] + cur) && !contains(tl, seq!['/', '>']) && !ends_with(
        tl,
        seq!['/', '>'],
    ) {
        skip.push(cur)
    } else {
        skip
    }
}

/// The element whose content a (lower-cased) start tag makes skipped: script, style,
/// svg, title or head, unless the tag closes itself.
pub open spec fn skipped_element(tl: Seq<char>) -> Option<Seq<char>> {
    if ends_with(tl, seq!['/', '>']) {
        None
    } else if starts_with(tl, "<script"@) {
        Some("script"@)
    } else if starts_with(tl, "<style"@) {
        Some("style"@)
    } else if starts_with(tl, "<svg"@) {
        Some("svg"@)
    } else if starts_with(tl, "<title"@) {
        Some("title"@)
    } else if starts_with(tl, "<head"@) {
        Some("head"@)
    } else {
        None
    }
}

/// The number of tag prefixes that end a line of text.
pub const BLOCK_TAG_COUNT: usize = 30;

/// The tag prefixes (start and end tags of block elements) that end a line of text.
pub open spec fn block_tag_prefix(k: int) -> Seq<char> {
    if k == 0 { "<p"@ } else if k == 1 { "</p"@ } else if k == 2 { "<div"@ } else if k == 3 {
        "</div"@
    } else if k == 4 { "<br"@ } else if k == 5 { "<h1"@ } else if k == 6 { "</h1"@ } else if k
        == 7 { "<h2"@ } else if k == 8 { "</h2"@ } else if k == 9 { "<h3"@ } else if k == 10 {
        "</h3"@
    } else if k == 11 { "<h4"@ } else if k == 12 { "</h4"@ } else if k == 13 { "<h5"@ } else if k
        == 14 { "</h5"@ } else if k == 15 { "<h6"@ } else if k == 16 { "</h6"@ } else if k == 17 {
        "<li"@
    } else if k == 18 { "</li"@ } else if k == 19 { "<tr"@ } else if k == 20 { "</tr"@ } else if k
        == 21 { "<section"@ } else if k == 22 { "</section"@ } else if k == 23 { "<article"@ } else if k
        == 24 { "</article"@ } else if k == 25 { "<figure"@ } else { "</figure"@ }
}

/// Whether a (lower-cased) tag ends a line of text.
pub open spec fn block_tag(tl: Seq<char>) -> bool {
    exists|k: int| 0 <= k < BLOCK_TAG_COUNT && starts_with(tl, #[trigger] block_tag_prefix(k))
}

/// Reading HTML from position `i` in state `st`, giving the text outside tags: inside
/// skipped content only tags count (each read up to its `>`); a `<` opens a tag; its
/// `>` closes it, possibly starting skipped content and adding a line break for a
/// block element; other characters are text.
pub open spec fn html_scan(s: Seq<char>, i: int, st: HtmlState) -> Seq<char>
    decreases s.len() - i,
{
    if i >= s.len() || i < 0 {
        st.0
    } else if st.3.len() > 0 {
        if s[i] == '<' {
            let j = close_index(s, i + 1);
            let end = if j < s.len() && j > i {
                j + 1
            } else {
                s.len() as int
            };
            html_scan(s, end, (st.0, st.1, st.2, skip_after_tag(st.3, s.subrange(i, end))))
        } else {
            html_scan(s, i + 1, st)
        }
    } else if s[i] == '<' {
        html_scan(s, i + 1, (st.0, true, seq!['<'], st.3))
    } else if s[i] == '>' && st.1 {
        let tl = lowercase(st.2.push('>'));
        let skip = match skipped_element(tl) {
            Some(e) => st.3.push(e),
            None => st.3,
        };
        let text = if block_tag(tl) {
            st.0.push('\n')
        } else {
            st.0
        };
        html_scan(s, i + 1, (text, false, Seq::<char>::empty(), skip))
    } else if st.1 {
        html_scan(s, i + 1, (st.0, true, st.2.push(s[i]), st.3))
    } else {
        html_scan(s, i + 1, (st.0.push(s[i]), st.1, st.2, st.3))
    }
}

/// The text of HTML outside its tags, before entities are decoded.
pub open spec fn html_raw_text(html: Seq<char>) -> Seq<char> {
    html_scan(html, 0, (Seq::<char>::empty(), false, Seq::<char>::empty(), Seq::<Seq<char>>::empty()))
}

/// Runs of spaces and tabs.
pub open spec fn space_runs() -> Seq<char> {
    r"[ \t]+"@
}

/// Runs of three or more line breaks.
pub open spec fn newline_runs() -> Seq<char> {
    r"\n{3,}"@
}

/// The trimmed lines of a text joined by line breaks, the whole trimmed.
pub open spec fn trimmed_lines(t: Seq<char>) -> Seq<char> {
    trim(join(lines(t).map_values(|l: Seq<char>| trim(l)), seq!['\n']))
}

/// The plain text of HTML: the text outside tags with entities decoded, runs of
/// spaces and tabs made one space, runs of three or more line breaks made two, each
/// line trimmed, and the whole trimmed.
pub open spec fn html_text(html: Seq<char>) -> Seq<char> {
    let t = entities_decoded(html_raw_text(html));
    let t = regex_replace_every(space_runs(), t, " "@);
    let t = regex_replace_every(newline_runs(), t, "\n\n"@);
    trimmed_lines(t)
}

fn block_prefix(k: usize) -> (res: &'static str)
    requires
        k < BLOCK_TAG_COUNT,
    ensures
        res@ == block_tag_prefix(k as int),
{
    if k == 0 { "<p" } else if k == 1 { "</p" } else if k == 2 { "<div" } else if k == 3 {
        "</div"
    } else if k == 4 { "<br" } else if k == 5 { "<h1" } else if k == 6 { "</h1" } else if k == 7 {
        "<h2"
    } else if k == 8 { "</h2" } else if k == 9 { "<h3" } else if k == 10 { "</h3" } else if k
        == 11 { "<h4" } else if k == 12 { "</h4" } else if k == 13 { "<h5" } else if k == 14 {
        "</h5"
    } else if k == 15 { "<h6" } else if k == 16 { "</h6" } else if k == 17 { "<li" } else if k
        == 18 { "</li" } else if k == 19 { "<tr" } else if k == 20 { "</tr" } else if k == 21 {
        "<section"
    } else if k == 22 { "</section" } else if k == 23 { "<article" } else if k == 24 {
        "</article"
    } else if k == 25 { "<figure" } else { "</figure" }
}

fn is_block_tag(tl: &Vec<char>) -> (res: bool)
    ensures
        res == block_tag(tl@),
{
    let mut k: usize = 0;
    while k < BLOCK_TAG_COUNT
        invariant
            k <= BLOCK_TAG_COUNT,
            forall|j: int| 0 <= j < k ==> !starts_with(tl@, #[trigger] block_tag_prefix(j)),
        decreases BLOCK_TAG_COUNT - k,
    {
        let p = chars_of(block_prefix(k));
        if starts_with_chars(tl.as_slice(), p.as_slice()) {
            return true;
        }
        k = k + 1;
    }
    false
}

fn skipped_element_of(tl: &Vec<char>) -> (res: Option<Vec<char>>)
    ensures
        match res {
            Some(e) => skipped_element(tl@) == Some(e@),
            None => skipped_element(tl@) is None,
        },
{
    let sc = vec!['/', '>'];
    assert(sc@ =~= seq!['/', '>']);
    if ends_with_chars(tl.as_slice(), sc.as_slice()) {
        return None;
    }
    if starts_with_chars(tl.as_slice(), chars_of("<script").as_slice()) {
        Some(chars_of("script"))
    } else if starts_with_chars(tl.as_slice(), chars_of("<style").as_slice()) {
        Some(chars_of("style"))
    } else if starts_with_chars(tl.as_slice(), chars_of("<svg").as_slice()) {
        Some(chars_of("svg"))
    } else if starts_with_chars(tl.as_slice(), chars_of("<title").as_slice()) {
        Some(chars_of("title"))
    } else if starts_with_chars(tl.as_slice(), chars_of("<head").as_slice()) {
        Some(chars_of("head"))
    } else {
        None
    }
}

fn lowered(t: &Vec<char>) -> (res: Vec<char>)
    ensures
        res@ == lowercase(t@),
{
    let s = string_of(t.as_slice());
    let l = to_lowercase(s.as_str());
    chars_of(l.as_str())
}

fn copy_chars(v: &Vec<char>) -> (res: Vec<char>)
    ensures
        res@ == v@,
{
    crate::text::slice_to_vec(v.as_slice(), 0, v.len())
}

proof fn lemma_close_index(s: Seq<char>, k: int)
    requires
        0 <= k,
    ensures
        k <= close_index(s, k) <= s.len() || (k > s.len() && close_index(s, k) == s.len()),
        close_index(s, k) < s.len() ==> s[close_index(s, k)] == '>',
        forall|m: int| k <= m < close_index(s, k) ==> s[m] != '>',
    decreases s.len() - k,
{
    if k < s.len() && s[k] != '>' {
        lemma_close_index(s, k + 1);
    }
}

/// The text of HTML outside its tags, before entities are decoded.
pub fn html_tags_removed(html: &str) -> (res: Vec<char>)
    ensures
        res@ == html_raw_text(html@),
{
    let s = chars_of(html);
    let mut result: Vec<char> = Vec::new();
    let mut in_tag = false;
    let mut tag: Vec<char> = Vec::new();
    let mut skip: Vec<Vec<char>> = Vec::new();
    let mut i: usize = 0;
    proof {
        assert(views(skip@) =~= Seq::<Seq<char>>::empty());
        assert(result@ =~= Seq::<char>::empty());
        assert(tag@ =~= Seq::<char>::empty());
    }
    while i < s.len()
        invariant
            i <= s@.len(),
            s@ == html@,
            html_raw_text(html@) == html_scan(s@, i as int, (result@, in_tag, tag@, views(skip@))),
        decreases s.len() - i,
    {
        let ghost st: HtmlState = (result@, in_tag, tag@, views(skip@));
        let ghost i0 = i as int;
        let c = s[i];
        if skip.len() > 0 {
            if c == '<' {
                let mut tag_buf: Vec<char> = Vec::new();
                tag_buf.push('<');
                let mut j = i + 1;
                let mut found = false;
                proof {
                    assert(tag_buf@ =~= s@.subrange(i as int, j as int));
                }
                while j < s.len() && !found
                    invariant
                        i < j <= s@.len(),
                        tag_buf@ == s@.subrange(i as int, j as int),
                        found ==> j >= i + 2 && s@[j - 1] == '>',
                        forall|m: int| i + 1 <= m < (if found { j - 1 } else { j as int }) ==> s@[m] != '>',
                    decreases s.len() - j,
                {
                    let nc = s[j];
                    tag_buf.push(nc);
                    j = j + 1;
                    proof {
                        assert(tag_buf@ =~= s@.subrange(i as int, j as int));
                    }
                    if nc == '>' {
                        found = true;
                    }
                }
                proof {
                    lemma_close_index(s@, i + 1);
                    let ci = close_index(s@, i + 1);
                    if found {
                        assert(ci == j - 1);
                    } else {
                        assert(j == s@.len());
                        assert(ci == s@.len());
                    }
                }
                let tl = lowered(&tag_buf);
                let sc = vec!['/', '>'];
                assert(sc@ =~= seq!['/', '>']);
                let cur = copy_chars(&skip[skip.len() - 1]);
                let mut close = vec!['<', '/'];
                assert(close@ =~= seq!['<', '/']);
                crate::text::append_chars(&mut close, cur.as_slice());
                let mut open = vec!['<'];
                assert(open@ =~= seq!['<']);
                crate::text::append_chars(&mut open, cur.as_slice());
                proof {
                    assert(views(skip@).last() == cur@);
                    assert(close@ == seq!['<', '/'] + cur@);
                    assert(open@ == seq!['<'] + cur@);
                    assert(tl@ == lowercase(s@.subrange(i0, j as int)));
                }
                let ghost new_skip = skip_after_tag(st.3, s@.subrange(i0, j as int));
                if starts_with_chars(tl.as_slice(), close.as_slice()) {
                    let ghost before = skip@;
                    skip.pop();
                    proof {
                        assert(views(skip@) =~= views(before).drop_last());
                    }
                } else if starts_with_chars(tl.as_slice(), open.as_slice()) && !contains_chars(
                    tl.as_slice(),
                    sc.as_slice(),
                ) && !ends_with_chars(tl.as_slice(), sc.as_slice()) {
                    let ghost before = skip@;
                    skip.push(cur);
                    proof {
                        assert(views(skip@) =~= views(before).push(cur@));
                    }
                }
                i = j;
                assert(views(skip@) == new_skip);
                assert(html_scan(s@, i0, st) == html_scan(s@, i as int, (result@, in_tag, tag@, views(skip@))));
            } else {
                i = i + 1;
                assert(html_scan(s@, i0, st) == html_scan(s@, i as int, (result@, in_tag, tag@, views(skip@))));
            }
        } else if c == '<' {
            in_tag = true;
            tag = Vec::new();
            tag.push('<');
            i = i + 1;
            assert(html_scan(s@, i0, st) == html_scan(s@, i as int, (result@, in_tag, tag@, views(skip@))));

        } else if c == '>' && in_tag {
            tag.push('>');
            in_tag = false;
            let tl = lowered(&tag);
            match skipped_element_of(&tl) {
                Some(e) => {
                    let ghost before = skip@;
                    skip.push(e);
                    proof {
                        assert(views(skip@) =~= views(before).push(e@));
                    }
                },
                None => {},
            }
            if is_block_tag(&tl) {
                result.push('\n');
            }
            tag = Vec::new();
            i = i + 1;
            assert(html_scan(s@, i0, st) == html_scan(s@, i as int, (result@, in_tag, tag@, views(skip@))));
        } else if in_tag {
            tag.push(c);
            i = i + 1;
            assert(html_scan(s@, i0, st) == html_scan(s@, i as int, (result@, in_tag, tag@, views(skip@))));
        } else {
            result.push(c);
            i = i + 1;
            assert(html_scan(s@, i0, st) == html_scan(s@, i as int, (result@, in_tag, tag@, views(skip@))));
        }
    }
    result
}

/// The trimmed lines of a text joined by line breaks, the whole trimmed.
pub fn trim_lines(t: &str) -> (res: String)
    ensures
        res@ == trimmed_lines(t@),
{
    let cs = chars_of(t);
    let ls = lines_of(cs.as_slice());
    let ghost want = lines(t@).map_values(|l: Seq<char>| trim(l));
    let mut out: Vec<Vec<char>> = Vec::new();
    let mut i: usize = 0;
    while i < ls.len()
        invariant
            i <= ls@.len(),
            views(ls@) == lines(t@),
            want == lines(t@).map_values(|l: Seq<char>| trim(l)),
            views(out@) == want.take(i as int),
        decreases ls.len() - i,
    {
        let l = trim_chars(ls[i].as_slice());
        let ghost before = out@;
        out.push(l);
        proof {
            assert(views(out@) =~= views(before).push(trim(ls@[i as int]@)));
            assert(want.take(i + 1) =~= want.take(i as int).push(want[i as int]));
        }
        i = i + 1;
    }
    proof {
        assert(want.take(i as int) == want);
    }
    let nl = vec!['\n'];
    assert(nl@ =~= seq!['\n']);
    let joined = join_chars(&out, nl.as_slice());
    let trimmed = trim_chars(joined.as_slice());
    string_of(trimmed.as_slice())
}

/// The plain text of HTML. The two whitespace patterns must compile (they are
/// fixed; see `html_plain_text` for the form that checks).
pub fn html_to_text(html: &str) -> (res: String)
    requires
        regex_compiles(space_runs()),
        regex_compiles(newline_runs()),
    ensures
        res@ == html_text(html@),
{
    let raw = html_tags_removed(html);
    let decoded = decode_html_entities(string_of(raw.as_slice()).as_str());
    let spaces = compile(r"[ \t]+").unwrap();
    let newlines = compile(r"\n{3,}").unwrap();
    let t1 = replace_every(&spaces, decoded.as_str(), " ");
    let t2 = replace_every(&newlines, t1.as_str(), "\n\n");
    trim_lines(t2.as_str())
}

/// The plain text of HTML, or `None` where the whitespace patterns do not compile.
pub fn html_plain_text(html: &str) -> (res: Option<String>)
    ensures
        res is Some <==> regex_compiles(space_runs()) && regex_compiles(newline_runs()),
        res matches Some(t) ==> t@ == html_text(html@),
{
    let a = compile(r"[ \t]+");
    let b = compile(r"\n{3,}");
    if a.is_some() && b.is_some() {
        Some(html_to_text(html))
    } else {
        None
    }
}

// ---------------------------------------------------------------------------
// Chapter titles
// ---------------------------------------------------------------------------

/// A chapter heading at the start of a line of plain text.
pub open spec fn heading_pattern() -> Seq<char> {
    r"(?m)^[\s\u{3000}]*(第[零一二三四五六七八九十百千万\d]+[章节回卷集部篇][\s\u{3000}]*[^\n]*|[Cc]hapter\s+\d+[:\s]*[^\n]*|楔子|序章|序言|序|引子|尾声|终章|番外|后记)"@
}

/// The content of the first `h1` element.
pub open spec fn h1_pattern() -> Seq<char> {
    r"(?is)<h1[^>]*>(.*?)</h1>"@
}

/// The content of the first `h2` element.
pub open spec fn h2_pattern() -> Seq<char> {
    r"(?is)<h2[^>]*>(.*?)</h2>"@
}

/// The content of the first element whose class names a chapter or title.
pub open spec fn class_title_pattern() -> Seq<char> {
    r#"(?is)<[^>]+class="[^"]*(?:chapter|title)[^"]*"[^>]*>(.*?)</[^>]+>"#@
}

/// Whether the patterns that chapter titles are read with compile.
pub open spec fn title_patterns_compile() -> bool {
    &&& regex_compiles(space_runs())
    &&& regex_compiles(newline_runs())
    &&& regex_compiles(h1_pattern())
    &&& regex_compiles(h2_pattern())
    &&& regex_compiles(class_title_pattern())
}

/// Whether a title is usable: not empty and shorter than 100 characters.
pub open spec fn usable_title(t: Seq<char>) -> bool {
    t.len() > 0 && t.len() < 100
}

/// The title inside the first element that `p` captures in `html`, where usable.
pub open spec fn element_title(p: Seq<char>, html: Seq<char>) -> Option<Seq<char>> {
    match regex_first_group(p, html) {
        Some(g) => if usable_title(html_text(g)) {
            Some(trim(html_text(g)))
        } else {
            None
        },
        None => None,
    }
}

/// The chapter heading found in the plain text, where the heading pattern compiles
/// and the heading, trimmed, is usable.
pub open spec fn text_heading(plain: Seq<char>) -> Option<Seq<char>> {
    if regex_compiles(heading_pattern()) {
        match regex_first_match(heading_pattern(), plain) {
            Some(m) => if usable_title(trim(m)) {
                Some(trim(m))
            } else {
                None
            },
            None => None,
        }
    } else {
        None
    }
}

/// The title of a chapter page: a chapter heading in its plain text, else the text of
/// its first `h1`, else of its first `h2`, else of its first element with a chapter or
/// title class; only usable titles count.
pub open spec fn chapter_title(html: Seq<char>, plain: Seq<char>) -> Option<Seq<char>> {
    if text_heading(plain) is Some {
        text_heading(plain)
    } else if element_title(h1_pattern(), html) is Some {
        element_title(h1_pattern(), html)
    } else if element_title(h2_pattern(), html) is Some {
        element_title(h2_pattern(), html)
    } else {
        element_title(class_title_pattern(), html)
    }
}

fn title_in_element(p: &crate::pattern::Pattern, html: &str) -> (res: Option<String>)
    requires
        regex_compiles(space_runs()),
        regex_compiles(newline_runs()),
    ensures
        match res {
            Some(t) => element_title(p@, html@) == Some(t@),
            None => element_title(p@, html@) is None,
        },
{
    match first_group(p, html) {
        Some(g) => {
            let t = html_to_text(g.as_str());
            let tc = chars_of(t.as_str());
            if tc.len() > 0 && tc.len() < 100 {
                let tt = trim_chars(tc.as_slice());
                Some(string_of(tt.as_slice()))
            } else {
                None
            }
        },
        None => None,
    }
}

/// Finds the title of a chapter page from its HTML and its plain text.
pub fn extract_chapter_title(html: &str, plain_text: &str) -> (res: Option<String>)
    requires
        title_patterns_compile(),
    ensures
        match res {
            Some(t) => chapter_title(html@, plain_text@) == Some(t@),
            None => chapter_title(html@, plain_text@) is None,
        },
{
    match compile(
        r"(?m)^[\s\u{3000}]*(第[零一二三四五六七八九十百千万\d]+[章节回卷集部篇][\s\u{3000}]*[^\n]*|[Cc]hapter\s+\d+[:\s]*[^\n]*|楔子|序章|序言|序|引子|尾声|终章|番外|后记)",
    ) {
        Some(re) => {
            match first_match(&re, plain_text) {
                Some(m) => {
                    let t = trim_chars(chars_of(m.as_str()).as_slice());
                    if t.len() > 0 && t.len() < 100 {
                        return Some(string_of(t.as_slice()));
                    }
                },
                None => {},
            }
        },
        None => {},
    }
    let h1 = compile(r"(?is)<h1[^>]*>(.*?)</h1>").unwrap();
    match title_in_element(&h1, html) {
        Some(t) => {
            return Some(t);
        },
        None => {},
    }
    let h2 = compile(r"(?is)<h2[^>]*>(.*?)</h2>").unwrap();
    match title_in_element(&h2, html) {
        Some(t) => {
            return Some(t);
        },
        None => {},
    }
    let class_title = compile(r#"(?is)<[^>]+class="[^"]*(?:chapter|title)[^"]*"[^>]*>(.*?)</[^>]+>"#).unwrap();
    title_in_element(&class_title, html)
}

/// Whether the title patterns compile.
pub fn title_patterns_available() -> (res: bool)
    ensures
        res == title_patterns_compile(),
{
    compile(r"[ \t]+").is_some() && compile(r"\n{3,}").is_some() && compile(
        r"(?is)<h1[^>]*>(.*?)</h1>",
    ).is_some() && compile(r"(?is)<h2[^>]*>(.*?)</h2>").is_some() && compile(
        r#"(?is)<[^>]+class="[^"]*(?:chapter|title)[^"]*"[^>]*>(.*?)</[^>]+>"#,
    ).is_some()
}

/// The chapter that a page of an EPUB's reading order makes: its plain text, unless
/// that holds fewer than 10 characters once trimmed; titled where a title is found,
/// with the title taken off the text; numbered `index`.
pub open spec fn page_chapter(html: Seq<char>) -> Option<(Option<Seq<char>>, Seq<char>)> {
    let text = html_text(html);
    if trim(text).len() < 10 {
        None
    } else {
        match chapter_title(html, text) {
            Some(t) => Some((Some(t), crate::epub::without_title(text, t))),
            None => Some((None, text)),
        }
    }
}

/// The chapter made from one page of an EPUB's reading order, numbered `index`; `None`
/// for a page with too little text.
pub fn page_chapter_segment(html: &str, index: u32) -> (res: Option<crate::segmentation::ChapterSegment>)
    requires
        title_patterns_compile(),
    ensures
        match page_chapter(html@) {
            None => res is None,
            Some(pc) => res matches Some(seg) && seg.index == index && crate::segmentation::opt_view(
                seg.title,
            ) == pc.0 && seg.content@ == pc.1 && seg.char_count as int == pc.1.len() as u32 as int
                && seg.start_line == 0 && seg.parent_title is None,
        },
{
    let text = html_to_text(html);
    let tc = chars_of(text.as_str());
    let trimmed = trim_chars(tc.as_slice());
    if trimmed.len() < 10 {
        return None;
    }
    let title = extract_chapter_title(html, text.as_str());
    let content = match &title {
        Some(t) => crate::epub::remove_title_from_content(text.as_str(), t.as_str()),
        None => text,
    };
    let n = chars_of(content.as_str()).len();
    #[verifier::truncate]
    let char_count = n as u32;
    Some(
        crate::segmentation::ChapterSegment {
            index,
            title,
            content,
            char_count,
            start_line: 0,
            parent_title: None,
        },
    )
}

} // verus!
