//! Chapter segmentation for Chinese novels.
use vstd::prelude::*;
use crate::pattern::{
    compile, first_group, first_match, is_match, regex_compiles, regex_first_group, regex_first_match,
    Pattern,
};
use crate::text::{
    append_chars, chars_of, count_non_whitespace, count_non_ws, decimal, decimal_chars, join,
    join_chars, lemma_count_le_len, lemma_split_nonempty, lines_of, lemma_split_bounds, lemma_trimmed_nonempty_bounds, lines,
    slice_to_vec, split, split_chars, string_of, trim, trim_chars, trimmed_nonempty,
    trimmed_nonempty_pieces, views,
};

verus! {

/// A detected chapter segment.
pub struct ChapterSegment {
    pub index: u32,
    pub title: Option<String>,
    pub content: String,
    pub char_count: u32,
    pub start_line: usize,
    /// Parent title for hierarchical structure (e.g., volume name)
    pub parent_title: Option<String>,
}

/// What a segment should be: title, content, character count and first line.
pub type SegmentPlan = (Option<Seq<char>>, Seq<char>, nat, nat);

pub open spec fn opt_view(o: Option<String>) -> Option<Seq<char>> {
    match o {
        Some(s) => Some(s@),
        None => None,
    }
}

/// `seg` is the `i`-th segment (numbered from 1) and agrees with `plan`.
pub open spec fn segment_is(seg: ChapterSegment, i: int, plan: SegmentPlan) -> bool {
    &&& seg.index == i + 1
    &&& opt_view(seg.title) == plan.0
    &&& seg.content@ == plan.1
    &&& seg.char_count == plan.2
    &&& seg.start_line == plan.3
    &&& seg.parent_title is None
}

/// The segments agree one by one with the plans and are numbered 1, 2, ...
pub open spec fn segments_are(res: Seq<ChapterSegment>, plans: Seq<SegmentPlan>) -> bool {
    &&& res.len() == plans.len()
    &&& forall|i: int| 0 <= i < res.len() ==> segment_is(#[trigger] res[i], i, plans[i])
}

/// The number of characters counted for a text: its non-whitespace characters, as `u32`.
pub open spec fn char_count_of(s: Seq<char>) -> nat {
    (count_non_ws(s) as u32) as nat
}

/// Size of the parts that the fallback cuts a long unmarked text into.
pub const TARGET_CHAPTER_SIZE: u32 = 5000;

/// Texts with fewer counted characters than this stay one chapter when unmarked.
pub const SINGLE_CHAPTER_LIMIT: u32 = 10000;

/// Text before the first chapter becomes a preface when it counts more characters than this.
pub const PREFACE_MIN_CHARS: u32 = 100;

// ---------------------------------------------------------------------------
// Chinese numerals
// ---------------------------------------------------------------------------

/// Whether `c` is an ASCII digit.
pub open spec fn is_digit(c: char) -> bool {
    '0' <= c && c <= '9'
}

/// The value of a string of ASCII digits.
pub open spec fn digits_value(s: Seq<char>) -> nat
    decreases s.len(),
{
    if s.len() == 0 {
        0
    } else {
        digits_value(s.drop_last()) * 10 + ((s.last() as u32) - ('0' as u32)) as nat
    }
}

/// The part of a numeral after an optional leading `+`.
pub open spec fn unsigned_part(s: Seq<char>) -> Seq<char> {
    if s.len() > 0 && s[0] == '+' {
        s.drop_first()
    } else {
        s
    }
}

/// Whether every character of `d` is an ASCII digit.
pub open spec fn all_digits(d: Seq<char>) -> bool {
    forall|i: int| 0 <= i < d.len() ==> is_digit(#[trigger] d[i])
}

/// What `str::parse::<u32>` gives: an optional `+` followed by one or more ASCII
/// digits whose value fits in a `u32`.
pub open spec fn parse_u32_spec(s: Seq<char>) -> Option<u32> {
    let d = unsigned_part(s);
    if d.len() > 0 && all_digits(d) && digits_value(d) <= u32::MAX {
        Some(digits_value(d) as u32)
    } else {
        None
    }
}

/// Parses a decimal `u32` the way `str::parse::<u32>` does.
pub fn parse_u32(s: &[char]) -> (res: Option<u32>)
    ensures
        res == parse_u32_spec(s@),
{
    let start: usize = if s.len() > 0 && s[0] == '+' {
        1
    } else {
        0
    };
    let ghost d = unsigned_part(s@);
    assert(d == s@.subrange(start as int, s@.len() as int));
    if start == s.len() {
        return None;
    }
    let mut v: u64 = 0;
    let mut i = start;
    while i < s.len()
        invariant
            start <= i <= s@.len(),
            d == unsigned_part(s@),
            d == s@.subrange(start as int, s@.len() as int),
            forall|k: int| start <= k < i ==> is_digit(#[trigger] s@[k]),
            v == digits_value(s@.subrange(start as int, i as int)),
            v <= u32::MAX,
        decreases s.len() - i,
    {
        let c = s[i];
        if !('0' <= c && c <= '9') {
            assert(d[i - start] == c);
            assert(!is_digit(d[(i - start) as int]));
            return None;
        }
        let dv = (c as u32 - '0' as u32) as u64;
        proof {
            assert(s@.subrange(start as int, i + 1).drop_last() == s@.subrange(
                start as int,
                i as int,
            ));
            assert(s@.subrange(start as int, i + 1).last() == c);
        }
        v = v * 10 + dv;
        if v > u32::MAX as u64 {
            proof {
                lemma_digits_value_grows(d, (i + 1 - start) as int);
                assert(d.subrange(0, i + 1 - start) == s@.subrange(start as int, i + 1));
                assert(digits_value(d) > u32::MAX);
            }
            return None;
        }
        i = i + 1;
    }
    proof {
        assert forall|k: int| 0 <= k < d.len() implies is_digit(#[trigger] d[k]) by {
            assert(d[k] == s@[start + k]);
        }
    }
    Some(v as u32)
}

/// The value of a digit string is at least the value of any of its prefixes.
proof fn lemma_digits_value_grows(s: Seq<char>, k: int)
    requires
        0 <= k <= s.len(),
    ensures
        digits_value(s.subrange(0, k)) <= digits_value(s),
    decreases s.len() - k,
{
    if k < s.len() {
        assert(s.drop_last() == s.subrange(0, s.len() - 1));
        lemma_digits_value_grows(s.drop_last(), k);
        assert(s.drop_last().subrange(0, k) == s.subrange(0, k));
    } else {
        assert(s.subrange(0, k) == s);
    }
}

/// The value of a Chinese numeral character, if it is one.
pub open spec fn chinese_value(c: char) -> Option<nat> {
    if c == '零' {
        Some(0)
    } else if c == '一' {
        Some(1)
    } else if c == '二' {
        Some(2)
    } else if c == '三' {
        Some(3)
    } else if c == '四' {
        Some(4)
    } else if c == '五' {
        Some(5)
    } else if c == '六' {
        Some(6)
    } else if c == '七' {
        Some(7)
    } else if c == '八' {
        Some(8)
    } else if c == '九' {
        Some(9)
    } else if c == '十' {
        Some(10)
    } else if c == '百' {
        Some(100)
    } else if c == '千' {
        Some(1000)
    } else if c == '万' {
        Some(10000)
    } else {
        None
    }
}

fn chinese_digit(c: char) -> (res: Option<u32>)
    ensures
        res matches Some(v) ==> chinese_value(c) == Some(v as nat),
        res is None ==> chinese_value(c) is None,
{
    if c == '零' {
        Some(0)
    } else if c == '一' {
        Some(1)
    } else if c == '二' {
        Some(2)
    } else if c == '三' {
        Some(3)
    } else if c == '四' {
        Some(4)
    } else if c == '五' {
        Some(5)
    } else if c == '六' {
        Some(6)
    } else if c == '七' {
        Some(7)
    } else if c == '八' {
        Some(8)
    } else if c == '九' {
        Some(9)
    } else if c == '十' {
        Some(10)
    } else if c == '百' {
        Some(100)
    } else if c == '千' {
        Some(1000)
    } else if c == '万' {
        Some(10000)
    } else {
        None
    }
}

/// The running `(result, current)` pair after reading `s` from left to right:
/// a digit becomes the current value, a multiplier (十, 百, 千) adds
/// `current × multiplier` (with a missing current counting as 1), 万 multiplies
/// everything read so far, and other characters are passed over.
pub open spec fn chinese_fold(s: Seq<char>) -> (int, int)
    decreases s.len(),
{
    if s.len() == 0 {
        (0, 0)
    } else {
        let prev = chinese_fold(s.drop_last());
        let r = prev.0;
        let c = prev.1;
        match chinese_value(s.last()) {
            Some(v) => if v >= 10 {
                let c1 = if c == 0 {
                    1
                } else {
                    c
                };
                if v == 10000 {
                    ((r + c1) * 10000, 0)
                } else {
                    (r + c1 * v, 0)
                }
            } else {
                (r, v as int)
            },
            None => (r, c),
        }
    }
}

/// Reading `s` never takes the running values past `u32::MAX`.
pub open spec fn chinese_fits(s: Seq<char>) -> bool {
    &&& forall|k: int| 0 <= k <= s.len() ==> #[trigger] chinese_fold(s.take(k)).0 <= u32::MAX
    &&& chinese_fold(s).0 + chinese_fold(s).1 <= u32::MAX
}

/// The number a chapter numeral stands for: digits as a decimal `u32`, or else the
/// Chinese reading of the text, where zero counts as no number.
pub open spec fn chinese_number(s: Seq<char>) -> Option<u32> {
    match parse_u32_spec(s) {
        Some(n) => Some(n),
        None => {
            let f = chinese_fold(s);
            if f.0 + f.1 > 0 {
                Some((f.0 + f.1) as u32)
            } else {
                None
            }
        },
    }
}

proof fn lemma_chinese_fold_current(s: Seq<char>)
    ensures
        0 <= chinese_fold(s).1 <= 9,
        0 <= chinese_fold(s).0,
    decreases s.len(),
{
    if s.len() > 0 {
        lemma_chinese_fold_current(s.drop_last());
        let prev = chinese_fold(s.drop_last());
        let c1 = if prev.1 == 0 {
            1
        } else {
            prev.1
        };
        assert(c1 * 10 >= 0 && c1 * 100 >= 0 && c1 * 1000 >= 0) by (nonlinear_arith)
            requires
                c1 >= 0,
        ;
    }
}

/// Parses a chapter numeral: a decimal number, or Chinese numerals such as
/// 一百二十三. Returns `None` for an empty text or a value of zero.
pub fn parse_chinese_number(s: &str) -> (res: Option<u32>)
    requires
        parse_u32_spec(s@) is None ==> chinese_fits(s@),
    ensures
        res == chinese_number(s@),
{
    let chars = chars_of(s);
    if let Some(n) = parse_u32(chars.as_slice()) {
        return Some(n);
    }
    if chars.len() == 0 {
        return None;
    }
    let mut result: u32 = 0;
    let mut current: u32 = 0;
    let mut i: usize = 0;
    while i < chars.len()
        invariant
            i <= chars@.len(),
            chars@ == s@,
            chinese_fits(s@),
            (result as int, current as int) == chinese_fold(s@.take(i as int)),
        decreases chars.len() - i,
    {
        proof {
            assert(s@.take(i + 1).drop_last() == s@.take(i as int));
            assert(s@.take(i + 1).last() == s@[i as int]);
            lemma_chinese_fold_current(s@.take(i as int));
            assert(chinese_fold(s@.take(i + 1)).0 <= u32::MAX);
        }
        match chinese_digit(chars[i]) {
            Some(val) => {
                if val >= 10 {
                    if current == 0 {
                        current = 1;
                    }
                    if val == 10000 {
                        result = (result + current) * val;
                        current = 0;
                    } else {
                        result = result + current * val;
                        current = 0;
                    }
                } else {
                    current = val;
                }
            },
            None => {},
        }
        i = i + 1;
    }
    proof {
        assert(s@.take(s@.len() as int) == s@);
    }
    result = result + current;
    if result > 0 {
        Some(result)
    } else {
        None
    }
}

/// Whether reading the Chinese numeral `s` keeps the running values within `u32`.
pub fn chinese_numeral_fits(s: &[char]) -> (res: bool)
    ensures
        res == chinese_fits(s@),
{
    let mut result: u64 = 0;
    let mut current: u64 = 0;
    let mut i: usize = 0;
    proof {
        assert(s@.take(0) =~= Seq::<char>::empty());
    }
    while i < s.len()
        invariant
            i <= s@.len(),
            (result as int, current as int) == chinese_fold(s@.take(i as int)),
            forall|k: int| 0 <= k <= i ==> #[trigger] chinese_fold(s@.take(k)).0 <= u32::MAX,
        decreases s.len() - i,
    {
        proof {
            assert(s@.take(i + 1).drop_last() == s@.take(i as int));
            assert(s@.take(i + 1).last() == s@[i as int]);
            lemma_chinese_fold_current(s@.take(i as int));
        }
        match chinese_digit(s[i]) {
            Some(val) => {
                if val >= 10 {
                    if current == 0 {
                        current = 1;
                    }
                    if val == 10000 {
                        result = (result + current) * 10000;
                    } else {
                        result = result + current * (val as u64);
                    }
                    current = 0;
                } else {
                    current = val as u64;
                }
            },
            None => {},
        }
        i = i + 1;
        if result > 0xFFFF_FFFF {
            proof {
                assert(chinese_fold(s@.take(i as int)).0 > u32::MAX);
            }
            return false;
        }
    }
    proof {
        assert(s@.take(s@.len() as int) == s@);
        assert(chinese_fold(s@.take(i as int)).0 <= u32::MAX);
        lemma_chinese_fold_current(s@);
    }
    result + current <= 0xFFFF_FFFF
}

/// The value of a chapter numeral where reading it stays within `u32`.
pub open spec fn numeral_value(g: Seq<char>) -> Option<u32> {
    if parse_u32_spec(g) is Some || chinese_fits(g) {
        chinese_number(g)
    } else {
        None
    }
}

/// 第X章 and its kin, with the numeral captured.
pub open spec fn numbered_title_pattern() -> Seq<char> {
    r"第([零一二三四五六七八九十百千万\d]+)[章节回卷集部篇]"@
}

/// Chapter X, with the number captured.
pub open spec fn english_title_pattern() -> Seq<char> {
    r"[Cc]hapter\s+(\d+)"@
}

/// A leading number followed by a separator, with the number captured.
pub open spec fn leading_number_pattern() -> Seq<char> {
    r"^(\d+)[\.、．\s]"@
}

/// The chapter number of a title: the numeral of 第X章 (digits or Chinese numerals),
/// else the number of Chapter X, else a leading number; `None` where no pattern
/// applies, a pattern does not compile, or the number does not fit in `u32`.
pub open spec fn chapter_number(title: Seq<char>) -> Option<u32> {
    let p1 = numbered_title_pattern();
    let p2 = english_title_pattern();
    let p3 = leading_number_pattern();
    if !regex_compiles(p1) {
        None
    } else if regex_first_group(p1, title) is Some {
        numeral_value(regex_first_group(p1, title).unwrap())
    } else if !regex_compiles(p2) {
        None
    } else if regex_first_group(p2, title) is Some {
        parse_u32_spec(regex_first_group(p2, title).unwrap())
    } else if !regex_compiles(p3) {
        None
    } else if regex_first_group(p3, title) is Some {
        parse_u32_spec(regex_first_group(p3, title).unwrap())
    } else {
        None
    }
}

/// Reads a chapter numeral, digits or Chinese numerals, where it fits in `u32`.
pub fn read_chapter_numeral(g: &str) -> (res: Option<u32>)
    ensures
        res == numeral_value(g@),
{
    let c = chars_of(g);
    if parse_u32(c.as_slice()).is_some() || chinese_numeral_fits(c.as_slice()) {
        parse_chinese_number(g)
    } else {
        None
    }
}

/// Extracts the chapter number from a chapter title, if it has one.
pub fn extract_chapter_number(title: &str) -> (res: Option<u32>)
    ensures
        res == chapter_number(title@),
{
    let re = match compile(r"第([零一二三四五六七八九十百千万\d]+)[章节回卷集部篇]") {
        Some(r) => r,
        None => {
            return None;
        },
    };
    match first_group(&re, title) {
        Some(g) => {
            return read_chapter_numeral(g.as_str());
        },
        None => {},
    }
    let re = match compile(r"[Cc]hapter\s+(\d+)") {
        Some(r) => r,
        None => {
            return None;
        },
    };
    match first_group(&re, title) {
        Some(g) => {
            let c = chars_of(g.as_str());
            return parse_u32(c.as_slice());
        },
        None => {},
    }
    let re = match compile(r"^(\d+)[\.、．\s]") {
        Some(r) => r,
        None => {
            return None;
        },
    };
    match first_group(&re, title) {
        Some(g) => {
            let c = chars_of(g.as_str());
            parse_u32(c.as_slice())
        },
        None => None,
    }
}

// ---------------------------------------------------------------------------
// Chapter patterns
// ---------------------------------------------------------------------------

/// The number of default chapter title patterns.
pub const CHAPTER_PATTERN_COUNT: usize = 6;

/// The default chapter title patterns for Chinese novels.
pub open spec fn chapter_pattern_spec(k: int) -> Seq<char> {
    if k == 0 {
        // 第X章 标题
        r"^第[零一二三四五六七八九十百千万\d]+[章节回卷集部篇][\s　]*[^\n]*"@
    } else if k == 1 {
        // Chapter X / Chapter X: Title
        r"^[Cc]hapter\s+\d+[:\s]*[^\n]*"@
    } else if k == 2 {
        // 楔子、序章、序、引子、尾声
        r"^(楔子|序章|序言|序|引子|尾声|终章|番外|后记)[\s　]*[^\n]*"@
    } else if k == 3 {
        // 卷X / 第X卷
        r"^卷[零一二三四五六七八九十\d]+[\s　]*[^\n]*"@
    } else if k == 4 {
        // 数字. 标题 or 数字、标题
        r"^\d{1,4}[\.、．][\s　]*[^\n]+"@
    } else {
        // (数字) or 【数字】
        r"^[\(（\[【]\d{1,4}[\)）\]】][\s　]*[^\n]*"@
    }
}

/// The `k`-th default chapter title pattern.
pub fn chapter_pattern(k: usize) -> (res: &'static str)
    requires
        k < CHAPTER_PATTERN_COUNT,
    ensures
        res@ == chapter_pattern_spec(k as int),
{
    if k == 0 {
        r"^第[零一二三四五六七八九十百千万\d]+[章节回卷集部篇][\s　]*[^\n]*"
    } else if k == 1 {
        r"^[Cc]hapter\s+\d+[:\s]*[^\n]*"
    } else if k == 2 {
        r"^(楔子|序章|序言|序|引子|尾声|终章|番外|后记)[\s　]*[^\n]*"
    } else if k == 3 {
        r"^卷[零一二三四五六七八九十\d]+[\s　]*[^\n]*"
    } else if k == 4 {
        r"^\d{1,4}[\.、．][\s　]*[^\n]+"
    } else {
        r"^[\(（\[【]\d{1,4}[\)）\]】][\s　]*[^\n]*"
    }
}

/// All default patterns as one alternation, joined by `|`.
pub open spec fn combined_pattern_spec() -> Seq<char> {
    join(
        Seq::new(CHAPTER_PATTERN_COUNT as nat, |k: int| chapter_pattern_spec(k)),
        seq!['|'],
    )
}

/// All default patterns as one alternation.
pub fn combined_pattern() -> (res: String)
    ensures
        res@ == combined_pattern_spec(),
{
    let mut parts: Vec<Vec<char>> = Vec::new();
    let mut k: usize = 0;
    while k < CHAPTER_PATTERN_COUNT
        invariant
            k <= CHAPTER_PATTERN_COUNT,
            views(parts@) == Seq::new(k as nat, |j: int| chapter_pattern_spec(j)),
        decreases CHAPTER_PATTERN_COUNT - k,
    {
        let p = chars_of(chapter_pattern(k));
        proof {
            assert(views(parts@.push(p)) =~= views(parts@).push(p@));
            assert(views(parts@).push(p@) =~= Seq::new(
                (k + 1) as nat,
                |j: int| chapter_pattern_spec(j),
            ));
        }
        parts.push(p);
        k = k + 1;
    }
    let bar = vec!['|'];
    assert(bar@ == seq!['|']);
    let joined = join_chars(&parts, bar.as_slice());
    string_of(joined.as_slice())
}

// ---------------------------------------------------------------------------
// Segmentation
// ---------------------------------------------------------------------------

/// The chapter title that line `l` announces under pattern `p`, if any:
/// the trimmed first match of `p` in the trimmed line.
pub open spec fn heading_of(p: Seq<char>, l: Seq<char>) -> Option<Seq<char>> {
    if trim(l).len() == 0 {
        None
    } else {
        match regex_first_match(p, trim(l)) {
            Some(m) => Some(trim(m)),
            None => None,
        }
    }
}

/// The first line at or after `i` that announces a chapter, or the number of lines.
pub open spec fn next_heading(p: Seq<char>, ls: Seq<Seq<char>>, i: int) -> int
    decreases ls.len() - i,
{
    if i >= ls.len() || i < 0 {
        ls.len() as int
    } else if heading_of(p, ls[i]) is Some {
        i
    } else {
        next_heading(p, ls, i + 1)
    }
}

/// Lines `a..b` joined by newlines.
pub open spec fn block_text(ls: Seq<Seq<char>>, a: int, b: int) -> Seq<char> {
    join(ls.subrange(a, b), seq!['\n'])
}

/// The chapters announced at or after line `i`: each runs from its heading line up
/// to the next heading; those that count no characters are left out.
pub open spec fn detected(p: Seq<char>, ls: Seq<Seq<char>>, i: int) -> Seq<SegmentPlan>
    decreases ls.len() - i,
{
    if i >= ls.len() || i < 0 {
        Seq::<SegmentPlan>::empty()
    } else {
        let rest = detected(p, ls, i + 1);
        match heading_of(p, ls[i]) {
            Some(t) => {
                let c = block_text(ls, i, next_heading(p, ls, i + 1));
                if char_count_of(c) > 0 {
                    seq![(Some(t), c, char_count_of(c), i as nat)] + rest
                } else {
                    rest
                }
            },
            None => rest,
        }
    }
}

/// The title of the `k`-th part that the fallback cuts out: 第k部分.
pub open spec fn part_title(k: nat) -> Seq<char> {
    seq!['第'] + decimal(k) + seq!['部', '分']
}

/// Cutting paragraphs into parts: each paragraph is added with a blank line after
/// it, and a part is closed once it counts `TARGET_CHAPTER_SIZE` characters.
/// Gives the closed parts (trimmed text, count), and the open text and its count.
pub open spec fn fallback_groups(paras: Seq<Seq<char>>) -> (Seq<(Seq<char>, nat)>, Seq<char>, nat)
    decreases paras.len(),
{
    if paras.len() == 0 {
        (Seq::<(Seq<char>, nat)>::empty(), Seq::<char>::empty(), 0)
    } else {
        let prev = fallback_groups(paras.drop_last());
        let p = paras.last();
        let cur = prev.1 + p + seq!['\n', '\n'];
        let n = prev.2 + char_count_of(p);
        if n >= TARGET_CHAPTER_SIZE {
            (prev.0.push((trim(cur), n)), Seq::<char>::empty(), 0)
        } else {
            (prev.0, cur, n)
        }
    }
}

/// The paragraphs of a text: the trimmed, nonempty pieces between blank lines.
pub open spec fn paragraphs(content: Seq<char>) -> Seq<Seq<char>> {
    trimmed_nonempty(split(content, seq!['\n', '\n']))
}

/// Segmentation of a text without chapter markers: nothing for a text without
/// paragraphs, one untitled chapter for a short text, else parts 第1部分, 第2部分, ...
pub open spec fn fallback_plan(content: Seq<char>) -> Seq<SegmentPlan> {
    let paras = paragraphs(content);
    if paras.len() == 0 {
        Seq::<SegmentPlan>::empty()
    } else if char_count_of(content) < SINGLE_CHAPTER_LIMIT {
        seq![(None::<Seq<char>>, content, char_count_of(content), 0nat)]
    } else {
        let g = fallback_groups(paras);
        let all = if g.2 > 0 {
            g.0.push((trim(g.1), g.2))
        } else {
            g.0
        };
        Seq::new(
            all.len(),
            |i: int| (Some(part_title((i + 1) as nat)), all[i].0, all[i].1, 0nat),
        )
    }
}

/// Segmentation of `content` by chapter titles matching `p`: the detected chapters,
/// preceded by a 前言 chapter for a substantial text before the first of them; or
/// the fallback when the pattern does not compile or detects nothing.
pub open spec fn segment_plan(p: Seq<char>, content: Seq<char>) -> Seq<SegmentPlan> {
    let ls = lines(content);
    let d = detected(p, ls, 0);
    if !regex_compiles(p) || d.len() == 0 {
        fallback_plan(content)
    } else {
        let first_start = d[0].3 as int;
        let preface = block_text(ls, 0, first_start);
        if first_start > 0 && char_count_of(preface) > PREFACE_MIN_CHARS {
            seq![(Some("前言"@), preface, char_count_of(preface), 0nat)] + d
        } else {
            d
        }
    }
}

/// Every chapter detected from line `i` starts at a line in `i..ls.len()`.
proof fn lemma_detected_starts(p: Seq<char>, ls: Seq<Seq<char>>, i: int)
    requires
        0 <= i,
    ensures
        forall|k: int|
            0 <= k < detected(p, ls, i).len() ==> i <= (#[trigger] detected(p, ls, i)[k]).3 < ls.len(),
    decreases ls.len() - i,
{
    if i < ls.len() {
        lemma_detected_starts(p, ls, i + 1);
        let rest = detected(p, ls, i + 1);
        let d = detected(p, ls, i);
        assert forall|k: int| 0 <= k < d.len() implies i <= (#[trigger] d[k]).3 < ls.len() by {
            if d.len() == rest.len() + 1 {
                if k > 0 {
                    assert(d[k] == rest[k - 1]);
                }
            } else {
                assert(d == rest);
            }
        }
    }
}

/// Without headings in lines `a..b`, detection from `a` and from `b` agree.
pub proof fn lemma_detected_skip(p: Seq<char>, ls: Seq<Seq<char>>, a: int, b: int)
    requires
        0 <= a <= b <= ls.len(),
        forall|j: int| a <= j < b ==> heading_of(p, #[trigger] ls[j]) is None,
    ensures
        detected(p, ls, a) == detected(p, ls, b),
        next_heading(p, ls, a) == next_heading(p, ls, b),
    decreases b - a,
{
    if a < b {
        lemma_detected_skip(p, ls, a + 1, b);
    }
}

/// Counts the characters of a text that are not whitespace.
pub fn count_content_chars(content: &str) -> (res: u32)
    ensures
        res == char_count_of(content@),
{
    let chars = chars_of(content);
    let n = count_non_whitespace(chars.as_slice());
    n as u32
}

/// Lines `start..end` joined by newlines.
pub fn collect_chapter_content(lines: &Vec<Vec<char>>, start_line: usize, end_line: usize) -> (res:
    Vec<char>)
    requires
        start_line <= end_line <= lines@.len(),
    ensures
        res@ == block_text(views(lines@), start_line as int, end_line as int),
{
    let mut part: Vec<Vec<char>> = Vec::new();
    let mut i = start_line;
    while i < end_line
        invariant
            start_line <= i <= end_line <= lines@.len(),
            views(part@) == views(lines@).subrange(start_line as int, i as int),
        decreases end_line - i,
    {
        let copy = slice_to_vec(lines[i].as_slice(), 0, lines[i].len());
        proof {
            assert(lines@[i as int]@.subrange(0, lines@[i as int]@.len() as int)
                == lines@[i as int]@);
            assert(views(part@.push(copy)) =~= views(part@).push(copy@));
            assert(views(part@).push(copy@) =~= views(lines@).subrange(
                start_line as int,
                i + 1,
            ));
        }
        part.push(copy);
        i = i + 1;
    }
    let nl = vec!['\n'];
    assert(nl@ == seq!['\n']);
    join_chars(&part, nl.as_slice())
}

fn make_segment(
    index: u32,
    title: Option<&[char]>,
    content: &[char],
    char_count: u32,
    start_line: usize,
) -> (res: ChapterSegment)
    ensures
        res.index == index,
        opt_view(res.title) == match title {
            Some(t) => Some(t@),
            None => None::<Seq<char>>,
        },
        res.content@ == content@,
        res.char_count == char_count,
        res.start_line == start_line,
        res.parent_title is None,
{
    let t = match title {
        Some(t) => Some(string_of(t)),
        None => None,
    };
    ChapterSegment {
        index,
        title: t,
        content: string_of(content),
        char_count,
        start_line,
        parent_title: None,
    }
}

/// Segmentation of a text without chapter markers.
pub fn fallback_segmentation(content: &str) -> (res: Vec<ChapterSegment>)
    requires
        content@.len() + TARGET_CHAPTER_SIZE <= u32::MAX,
    ensures
        segments_are(res@, fallback_plan(content@)),
{
    let chars = chars_of(content);
    let sep = vec!['\n', '\n'];
    assert(sep@ == seq!['\n', '\n']);
    let pieces = split_chars(chars.as_slice(), sep.as_slice());
    let paras = trimmed_nonempty_pieces(&pieces);
    proof {
        lemma_split_bounds(content@, seq!['\n', '\n']);
        lemma_trimmed_nonempty_bounds(views(pieces@), content@.len());
    }
    let mut chapters: Vec<ChapterSegment> = Vec::new();
    if paras.len() == 0 {
        return chapters;
    }
    let total = count_non_whitespace(chars.as_slice()) as u32;
    if total < SINGLE_CHAPTER_LIMIT {
        chapters.push(make_segment(1, None, chars.as_slice(), total, 0));
        return chapters;
    }
    let ghost ps = views(paras@);
    let mut current: Vec<char> = Vec::new();
    let mut current_chars: u32 = 0;
    let mut chapter_index: u32 = 1;
    let mut i: usize = 0;
    while i < paras.len()
        invariant
            i <= paras@.len(),
            ps == views(paras@),
            ps == paragraphs(content@),
            ps.len() <= content@.len() + 1,
            content@.len() + TARGET_CHAPTER_SIZE <= u32::MAX,
            forall|k: int| 0 <= k < ps.len() ==> (#[trigger] ps[k]).len() <= content@.len(),
            current@ == fallback_groups(ps.take(i as int)).1,
            current_chars == fallback_groups(ps.take(i as int)).2,
            current_chars < TARGET_CHAPTER_SIZE,
            chapter_index == fallback_groups(ps.take(i as int)).0.len() + 1,
            fallback_groups(ps.take(i as int)).0.len() <= i,
            chapters@.len() == fallback_groups(ps.take(i as int)).0.len(),
            forall|k: int|
                0 <= k < chapters@.len() ==> segment_is(
                    #[trigger] chapters@[k],
                    k,
                    (
                        Some(part_title((k + 1) as nat)),
                        fallback_groups(ps.take(i as int)).0[k].0,
                        fallback_groups(ps.take(i as int)).0[k].1,
                        0nat,
                    ),
                ),
        decreases paras.len() - i,
    {
        let ghost before = fallback_groups(ps.take(i as int));
        proof {
            assert(ps.take(i + 1).drop_last() == ps.take(i as int));
            assert(ps.take(i + 1).last() == ps[i as int]);
            lemma_count_le_len(ps[i as int]);
        }
        let para = &paras[i];
        let para_chars = count_non_whitespace(para.as_slice()) as u32;
        append_chars(&mut current, para.as_slice());
        current.push('\n');
        current.push('\n');
        current_chars = current_chars + para_chars;
        proof {
            assert(current@ == before.1 + ps[i as int] + seq!['\n', '\n']);
        }
        if current_chars >= TARGET_CHAPTER_SIZE {
            let trimmed = trim_chars(current.as_slice());
            let mut title: Vec<char> = Vec::new();
            title.push('第');
            let digits = decimal_chars(chapter_index);
            append_chars(&mut title, digits.as_slice());
            title.push('部');
            title.push('分');
            proof {
                assert(title@ == part_title(chapter_index as nat));
            }
            let seg = make_segment(chapter_index, Some(title.as_slice()), trimmed.as_slice(), current_chars, 0);
            chapters.push(seg);
            chapter_index = chapter_index + 1;
            current = Vec::new();
            current_chars = 0;
        }
        i = i + 1;
        proof {
            let after = fallback_groups(ps.take(i as int));
            assert forall|k: int| 0 <= k < chapters@.len() implies segment_is(
                #[trigger] chapters@[k],
                k,
                (Some(part_title((k + 1) as nat)), after.0[k].0, after.0[k].1, 0nat),
            ) by {
                if k < before.0.len() {
                    assert(after.0[k] == before.0[k]);
                }
            }
        }
    }
    proof {
        assert(ps.take(ps.len() as int) == ps);
    }
    if current_chars > 0 {
        let trimmed = trim_chars(current.as_slice());
        let mut title: Vec<char> = Vec::new();
        title.push('第');
        let digits = decimal_chars(chapter_index);
        append_chars(&mut title, digits.as_slice());
        title.push('部');
        title.push('分');
        proof {
            assert(title@ == part_title(chapter_index as nat));
        }
        let seg = make_segment(chapter_index, Some(title.as_slice()), trimmed.as_slice(), current_chars, 0);
        chapters.push(seg);
    }
    proof {
        let g = fallback_groups(ps);
        let all = if g.2 > 0 {
            g.0.push((trim(g.1), g.2))
        } else {
            g.0
        };
        assert(chapters@.len() == all.len());
        assert forall|k: int| 0 <= k < chapters@.len() implies segment_is(
            #[trigger] chapters@[k],
            k,
            fallback_plan(content@)[k],
        ) by {
            if k < g.0.len() {
                assert(all[k] == g.0[k]);
            }
        }
    }
    chapters
}


/// A chapter found by the pattern: title, content, character count and first line.
pub type FoundChapter = (Vec<char>, Vec<char>, u32, usize);

pub open spec fn found_view(f: Seq<FoundChapter>) -> Seq<SegmentPlan> {
    f.map_values(|x: FoundChapter| (Some(x.0@), x.1@, x.2 as nat, x.3 as nat))
}

/// Numbers the chapters from 1, after an optional first one.
fn number_segments(first: Option<FoundChapter>, found: &Vec<FoundChapter>) -> (res: Vec<
    ChapterSegment,
>)
    requires
        found@.len() + 1 <= u32::MAX,
    ensures
        segments_are(
            res@,
            match first {
                Some(f) => seq![(Some(f.0@), f.1@, f.2 as nat, f.3 as nat)] + found_view(found@),
                None => found_view(found@),
            },
        ),
{
    let ghost plans = match &first {
        Some(f) => seq![(Some(f.0@), f.1@, f.2 as nat, f.3 as nat)] + found_view(found@),
        None => found_view(found@),
    };
    let mut res: Vec<ChapterSegment> = Vec::new();
    let mut offset: usize = 0;
    match &first {
        Some(f) => {
            res.push(make_segment(1, Some(f.0.as_slice()), f.1.as_slice(), f.2, f.3));
            offset = 1;
        },
        None => {},
    }
    let mut k: usize = 0;
    while k < found.len()
        invariant
            k <= found@.len(),
            found@.len() + 1 <= u32::MAX,
            offset <= 1,
            plans.len() == offset + found@.len(),
            forall|j: int| 0 <= j < found@.len() ==> plans[offset + j] == found_view(found@)[j],
            res@.len() == offset + k,
            forall|j: int| 0 <= j < res@.len() ==> segment_is(#[trigger] res@[j], j, plans[j]),
        decreases found.len() - k,
    {
        let f = &found[k];
        let seg = make_segment(
            (offset + k + 1) as u32,
            Some(f.0.as_slice()),
            f.1.as_slice(),
            f.2,
            f.3,
        );
        proof {
            assert(plans[offset + k] == found_view(found@)[k as int]);
        }
        res.push(seg);
        k = k + 1;
    }
    res
}

/// Segments `content` into chapters whose title lines match `pattern`.
pub fn segment_chapters_with_pattern(content: &str, pattern: &str) -> (res: Vec<ChapterSegment>)
    requires
        content@.len() + TARGET_CHAPTER_SIZE <= u32::MAX,
    ensures
        segments_are(res@, segment_plan(pattern@, content@)),
{
    let re = match compile(pattern) {
        Some(r) => r,
        None => {
            return fallback_segmentation(content);
        },
    };
    let chars = chars_of(content);
    let all_lines = lines_of(chars.as_slice());
    let ghost ls = views(all_lines@);
    let ghost p = pattern@;
    proof {
        lemma_split_bounds(content@, seq!['\n']);
        lemma_split_nonempty(content@, seq!['\n']);
        assert(lines(content@).len() <= split(content@, seq!['\n']).len());
    }
    let mut found: Vec<FoundChapter> = Vec::new();
    let mut has_current = false;
    let mut cur_start: usize = 0;
    let mut cur_title: Vec<char> = Vec::new();
    let mut line_num: usize = 0;
    while line_num < all_lines.len()
        invariant
            ls == views(all_lines@),
            ls == lines(content@),
            p == pattern@,
            re@ == p,
            line_num <= ls.len(),
            ls.len() <= content@.len() + 1,
            content@.len() + TARGET_CHAPTER_SIZE <= u32::MAX,
            !has_current ==> detected(p, ls, 0) == found_view(found@) + detected(p, ls, line_num as int)
                && found@.len() <= line_num,
            has_current ==> cur_start < line_num && heading_of(p, ls[cur_start as int]) == Some(
                cur_title@,
            ) && (forall|j: int| cur_start < j < line_num ==> heading_of(p, #[trigger] ls[j]) is None)
                && detected(p, ls, 0) == found_view(found@) + detected(p, ls, cur_start as int)
                && found@.len() <= cur_start,
        decreases all_lines.len() - line_num,
    {
        let trimmed = trim_chars(all_lines[line_num].as_slice());
        if trimmed.len() > 0 {
            let tstr = string_of(trimmed.as_slice());
            match first_match(&re, tstr.as_str()) {
                Some(m) => {
                    let mchars = chars_of(m.as_str());
                    let title = trim_chars(mchars.as_slice());
                    proof {
                        assert(heading_of(p, ls[line_num as int]) == Some(title@));
                    }
                    if has_current {
                        let block = collect_chapter_content(&all_lines, cur_start, line_num);
                        let cc = count_non_whitespace(block.as_slice()) as u32;
                        proof {
                            lemma_detected_skip(p, ls, cur_start + 1, line_num as int);
                        }
                        if cc > 0 {
                            let entry: FoundChapter = (cur_title, block, cc, cur_start);
                            proof {
                                assert(found_view(found@.push(entry)) =~= found_view(found@)
                                    + seq![(Some(entry.0@), entry.1@, entry.2 as nat, entry.3 as nat)]);
                            }
                            found.push(entry);
                        }
                    }
                    has_current = true;
                    cur_start = line_num;
                    cur_title = title;
                },
                None => {
                    proof {
                        assert(heading_of(p, ls[line_num as int]) is None);
                    }
                },
            }
        } else {
            proof {
                assert(heading_of(p, ls[line_num as int]) is None);
            }
        }
        line_num = line_num + 1;
    }
    if has_current {
        let block = collect_chapter_content(&all_lines, cur_start, all_lines.len());
        let cc = count_non_whitespace(block.as_slice()) as u32;
        proof {
            lemma_detected_skip(p, ls, cur_start + 1, ls.len() as int);
        }
        if cc > 0 {
            let entry: FoundChapter = (cur_title, block, cc, cur_start);
            proof {
                assert(found_view(found@.push(entry)) =~= found_view(found@) + seq![
                    (Some(entry.0@), entry.1@, entry.2 as nat, entry.3 as nat),
                ]);
            }
            found.push(entry);
        }
    }
    proof {
        assert(detected(p, ls, 0) == found_view(found@));
        lemma_detected_starts(p, ls, 0);
        if found@.len() > 0 {
            assert(found_view(found@)[0].3 == found@[0].3);
        }
    }
    if found.len() == 0 {
        return fallback_segmentation(content);
    }
    let first_start = found[0].3;
    if first_start > 0 {
        let pre = collect_chapter_content(&all_lines, 0, first_start);
        let cc = count_non_whitespace(pre.as_slice()) as u32;
        if cc > PREFACE_MIN_CHARS {
            let mut title: Vec<char> = Vec::new();
            title.push('前');
            title.push('言');
            proof {
                reveal_strlit("前言");
                assert(title@ == "前言"@);
            }
            return number_segments(Some((title, pre, cc, 0)), &found);
        }
    }
    number_segments(None, &found)
}

/// Segments `content` into chapters by the default chapter title patterns.
pub fn segment_chapters(content: &str) -> (res: Vec<ChapterSegment>)
    requires
        content@.len() + TARGET_CHAPTER_SIZE <= u32::MAX,
    ensures
        segments_are(res@, segment_plan(combined_pattern_spec(), content@)),
{
    let pattern = combined_pattern();
    segment_chapters_with_pattern(content, pattern.as_str())
}

/// Whether `line` looks like a chapter title: at most 50 characters once trimmed,
/// and matched by one of the default patterns.
pub open spec fn likely_chapter_title(line: Seq<char>) -> bool {
    let t = trim(line);
    &&& t.len() <= 50
    &&& exists|k: int|
        0 <= k < CHAPTER_PATTERN_COUNT && regex_compiles(#[trigger] chapter_pattern_spec(k))
            && regex_first_match(chapter_pattern_spec(k), t) is Some
}

/// Detects whether a line is likely a chapter title.
pub fn is_likely_chapter_title(line: &str) -> (res: bool)
    ensures
        res == likely_chapter_title(line@),
{
    let chars = chars_of(line);
    let trimmed = trim_chars(chars.as_slice());
    if trimmed.len() > 50 {
        return false;
    }
    let tstr = string_of(trimmed.as_slice());
    let mut k: usize = 0;
    while k < CHAPTER_PATTERN_COUNT
        invariant
            k <= CHAPTER_PATTERN_COUNT,
            tstr@ == trim(line@),
            trim(line@).len() <= 50,
            forall|j: int|
                0 <= j < k ==> !(regex_compiles(#[trigger] chapter_pattern_spec(j))
                    && regex_first_match(chapter_pattern_spec(j), trim(line@)) is Some),
        decreases CHAPTER_PATTERN_COUNT - k,
    {
        match compile(chapter_pattern(k)) {
            Some(re) => {
                if is_match(&re, tstr.as_str()) {
                    assert(regex_compiles(chapter_pattern_spec(k as int)) && regex_first_match(
                        chapter_pattern_spec(k as int),
                        trim(line@),
                    ) is Some);
                    assert(trim(line@).len() <= 50);
                    assert(likely_chapter_title(line@));
                    return true;
                }
            },
            None => {},
        }
        k = k + 1;
    }
    false
}

} // verus!
