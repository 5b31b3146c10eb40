//! Building the analysis context that is given to the analysis agents: entity
//! summaries, prompt formatting under a budget, and query text.
use vstd::prelude::*;
use crate::text::{
    append_chars, blank, byte_len, chars_of, is_blank, join, join_chars, lines, lines_of,
    slice_to_vec, string_of, trimmed_nonempty, trimmed_nonempty_pieces, utf8_byte_len, views,
};

verus! {

/// A known character, as summarized for the prompt.
pub struct CharacterSummary {
    pub name: String,
    pub aliases: Vec<String>,
    pub description: Option<String>,
    pub role: String,
}

/// A known setting, as summarized for the prompt.
pub struct SettingSummary {
    pub name: String,
    pub description: Option<String>,
    pub location_type: Option<String>,
}

/// A known event, as summarized for the prompt.
pub struct EventSummary {
    pub title: String,
    pub description: Option<String>,
    pub chapter_index: Option<u32>,
}

/// A passage related to the chapter under analysis. (How it was ranked stays
/// with the caller; the prompt uses only the text.)
pub struct PassageSummary {
    pub content: String,
    pub chapter_id: String,
}

/// What the analysis agents are told about the book so far.
pub struct AnalysisContext {
    pub known_characters: Vec<CharacterSummary>,
    pub known_settings: Vec<SettingSummary>,
    pub known_events: Vec<EventSummary>,
    pub similar_passages: Vec<PassageSummary>,
    pub previous_summary: Option<String>,
}

/// Tuning of entity recall.
pub struct EntityRecallTuning {
    pub candidate_chunks_per_query: usize,
    pub max_passages: usize,
    pub min_character_coverage: usize,
    pub min_setting_coverage: usize,
    pub min_event_coverage: usize,
}

impl Default for EntityRecallTuning {
    fn default() -> (res: Self)
        ensures
            res.candidate_chunks_per_query == 60,
            res.max_passages == 12,
            res.min_character_coverage == 8,
            res.min_setting_coverage == 6,
            res.min_event_coverage == 6,
    {
        EntityRecallTuning {
            candidate_chunks_per_query: 60,
            max_passages: 12,
            min_character_coverage: 8,
            min_setting_coverage: 6,
            min_event_coverage: 6,
        }
    }
}

/// Entities ranked by relevance, by kind.
pub struct RankedEntities {
    pub characters: Vec<CharacterSummary>,
    pub settings: Vec<SettingSummary>,
    pub events: Vec<EventSummary>,
}

pub open spec fn min_nat(a: nat, b: nat) -> nat {
    if a <= b {
        a
    } else {
        b
    }
}

/// Keeps, of each kind, the first entities up to the coverage quota of the tuning.
pub fn apply_entity_coverage_quota(ranked: RankedEntities, tuning: &EntityRecallTuning) -> (res:
    RankedEntities)
    ensures
        res.characters@ == ranked.characters@.take(
            min_nat(tuning.min_character_coverage as nat, ranked.characters@.len()) as int,
        ),
        res.settings@ == ranked.settings@.take(
            min_nat(tuning.min_setting_coverage as nat, ranked.settings@.len()) as int,
        ),
        res.events@ == ranked.events@.take(
            min_nat(tuning.min_event_coverage as nat, ranked.events@.len()) as int,
        ),
{
    let RankedEntities { mut characters, mut settings, mut events } = ranked;
    let tc = if tuning.min_character_coverage < characters.len() {
        tuning.min_character_coverage
    } else {
        characters.len()
    };
    let ts = if tuning.min_setting_coverage < settings.len() {
        tuning.min_setting_coverage
    } else {
        settings.len()
    };
    let te = if tuning.min_event_coverage < events.len() {
        tuning.min_event_coverage
    } else {
        events.len()
    };
    characters.truncate(tc);
    settings.truncate(ts);
    events.truncate(te);
    RankedEntities { characters, settings, events }
}

// ---------------------------------------------------------------------------
// Short texts
// ---------------------------------------------------------------------------

/// The first `max_chars` characters of a text (all of it when shorter).
pub fn truncate_str(s: &str, max_chars: usize) -> (res: String)
    ensures
        res@ == s@.take(min_nat(max_chars as nat, s@.len()) as int),
{
    let chars = chars_of(s);
    if chars.len() <= max_chars {
        proof {
            assert(s@.take(s@.len() as int) == s@);
        }
        string_of(chars.as_slice())
    } else {
        let t = slice_to_vec(chars.as_slice(), 0, max_chars);
        string_of(t.as_slice())
    }
}

/// The keyword query for a chapter: its first three nonblank lines, trimmed and
/// joined by spaces, cut to 240 characters.
pub open spec fn keyword_query(content: Seq<char>) -> Seq<char> {
    let ts = trimmed_nonempty(lines(content));
    let q = join(ts.take(min_nat(3, ts.len()) as int), seq![' ']);
    q.take(min_nat(240, q.len()) as int)
}

/// Builds the keyword query for a chapter.
pub fn build_keyword_query(content: &str) -> (res: String)
    ensures
        res@ == keyword_query(content@),
{
    let chars = chars_of(content);
    let ls = lines_of(chars.as_slice());
    let ts = trimmed_nonempty_pieces(&ls);
    let mut first: Vec<Vec<char>> = Vec::new();
    let n = if ts.len() < 3 {
        ts.len()
    } else {
        3
    };
    let mut i: usize = 0;
    while i < n
        invariant
            i <= n <= ts@.len(),
            views(first@) == views(ts@).take(i as int),
        decreases n - i,
    {
        let copy = slice_to_vec(ts[i].as_slice(), 0, ts[i].len());
        proof {
            assert(ts@[i as int]@.subrange(0, ts@[i as int]@.len() as int) == ts@[i as int]@);
            assert(views(first@.push(copy)) =~= views(first@).push(copy@));
            assert(views(first@).push(copy@) =~= views(ts@).take(i + 1));
        }
        first.push(copy);
        i = i + 1;
    }
    let space = vec![' '];
    assert(space@ == seq![' ']);
    let q = join_chars(&first, space.as_slice());
    let cut = if q.len() < 240 {
        q.len()
    } else {
        240
    };
    let t = slice_to_vec(q.as_slice(), 0, cut);
    proof {
        assert(q@.subrange(0, cut as int) == q@.take(cut as int));
    }
    string_of(t.as_slice())
}

// ---------------------------------------------------------------------------
// Query chunks
// ---------------------------------------------------------------------------

/// Size of the chunks that chapter content is split into for query embeddings.
pub const QUERY_CHUNK_SIZE: usize = 1500;

/// Whether `c` ends a sentence.
pub open spec fn is_sentence_end(c: char) -> bool {
    c == '。' || c == '！' || c == '？' || c == '.' || c == '!' || c == '?'
}

/// The last `i` in `lo..hi` with a blank line (`\n\n`) starting at `i`.
pub open spec fn last_para_break(s: Seq<char>, lo: int, hi: int) -> Option<int>
    decreases hi - lo,
{
    if hi <= lo {
        None
    } else if hi < s.len() && s[hi - 1] == '\n' && s[hi] == '\n' {
        Some(hi - 1)
    } else {
        last_para_break(s, lo, hi - 1)
    }
}

/// The last `i` in `lo..hi` where a sentence ends.
pub open spec fn last_sentence_end(s: Seq<char>, lo: int, hi: int) -> Option<int>
    decreases hi - lo,
{
    if hi <= lo {
        None
    } else if is_sentence_end(s[hi - 1]) {
        Some(hi - 1)
    } else {
        last_sentence_end(s, lo, hi - 1)
    }
}

/// Where the chunk that starts at `start` ends: 1500 characters on (or the end of
/// the text), pulled back to just after the last blank line, or else to just after
/// the last sentence end, within the window.
pub open spec fn chunk_end(s: Seq<char>, start: int) -> int {
    let end = if start + QUERY_CHUNK_SIZE < s.len() {
        start + QUERY_CHUNK_SIZE
    } else {
        s.len() as int
    };
    if end < s.len() {
        match last_para_break(s, start, end) {
            Some(i) => i + 2,
            None => match last_sentence_end(s, start, end) {
                Some(i) => i + 1,
                None => end,
            },
        }
    } else {
        end
    }
}

/// The chunks of `s` from `start` on, blank chunks left out.
pub open spec fn query_chunks_from(s: Seq<char>, start: int) -> Seq<Seq<char>>
    decreases s.len() - start,
{
    if start >= s.len() || start < 0 || chunk_end(s, start) <= start || chunk_end(s, start) > s.len() {
        Seq::<Seq<char>>::empty()
    } else {
        let e = chunk_end(s, start);
        let piece = s.subrange(start, e);
        let rest = query_chunks_from(s, e);
        if is_blank(piece) {
            rest
        } else {
            seq![piece] + rest
        }
    }
}

/// The query chunks of a chapter: nothing for an empty text, the whole text when
/// it has at most 1500 characters, else the chunks cut at paragraph or sentence ends.
pub open spec fn query_chunks(s: Seq<char>) -> Seq<Seq<char>> {
    if s.len() == 0 {
        Seq::<Seq<char>>::empty()
    } else if s.len() <= QUERY_CHUNK_SIZE {
        seq![s]
    } else {
        query_chunks_from(s, 0)
    }
}

fn find_para_break(s: &[char], lo: usize, hi: usize) -> (res: Option<usize>)
    requires
        lo <= hi <= s@.len(),
    ensures
        match res {
            Some(i) => last_para_break(s@, lo as int, hi as int) == Some(i as int),
            None => last_para_break(s@, lo as int, hi as int) is None,
        },
{
    let mut i = hi;
    while i > lo
        invariant
            lo <= i <= hi <= s@.len(),
            last_para_break(s@, lo as int, hi as int) == last_para_break(s@, lo as int, i as int),
        decreases i - lo,
    {
        if i < s.len() && s[i - 1] == '\n' && s[i] == '\n' {
            return Some(i - 1);
        }
        i = i - 1;
    }
    None
}

fn find_sentence_end(s: &[char], lo: usize, hi: usize) -> (res: Option<usize>)
    requires
        lo <= hi <= s@.len(),
    ensures
        match res {
            Some(i) => last_sentence_end(s@, lo as int, hi as int) == Some(i as int),
            None => last_sentence_end(s@, lo as int, hi as int) is None,
        },
{
    let mut i = hi;
    while i > lo
        invariant
            lo <= i <= hi <= s@.len(),
            last_sentence_end(s@, lo as int, hi as int) == last_sentence_end(s@, lo as int, i as int),
        decreases i - lo,
    {
        let c = s[i - 1];
        if c == '。' || c == '！' || c == '？' || c == '.' || c == '!' || c == '?' {
            return Some(i - 1);
        }
        i = i - 1;
    }
    None
}

proof fn lemma_last_para_break_range(s: Seq<char>, lo: int, hi: int)
    ensures
        last_para_break(s, lo, hi) matches Some(i) ==> lo <= i < hi && i + 1 < s.len(),
    decreases hi - lo,
{
    if hi > lo && !(hi < s.len() && s[hi - 1] == '\n' && s[hi] == '\n') {
        lemma_last_para_break_range(s, lo, hi - 1);
    }
}

proof fn lemma_last_sentence_end_range(s: Seq<char>, lo: int, hi: int)
    ensures
        last_sentence_end(s, lo, hi) matches Some(i) ==> lo <= i < hi,
    decreases hi - lo,
{
    if hi > lo && !is_sentence_end(s[hi - 1]) {
        lemma_last_sentence_end_range(s, lo, hi - 1);
    }
}

/// The chunk that starts at `start` ends after it and within the text.
proof fn lemma_chunk_end_range(s: Seq<char>, start: int)
    requires
        0 <= start < s.len(),
    ensures
        start < chunk_end(s, start) <= s.len(),
        chunk_end(s, start) <= start + QUERY_CHUNK_SIZE + 1,
{
    let end = if start + QUERY_CHUNK_SIZE < s.len() {
        start + QUERY_CHUNK_SIZE
    } else {
        s.len() as int
    };
    lemma_last_para_break_range(s, start, end);
    lemma_last_sentence_end_range(s, start, end);
}

/// Splits chapter content into chunks of about 1500 characters for query embeddings.
pub fn split_content_for_query(content: &str) -> (res: Vec<String>)
    ensures
        res@.len() == query_chunks(content@).len(),
        forall|i: int| 0 <= i < res@.len() ==> #[trigger] res@[i]@ == query_chunks(content@)[i],
{
    let chars = chars_of(content);
    let total = chars.len();
    let mut chunks: Vec<String> = Vec::new();
    if total == 0 {
        return chunks;
    }
    if total <= QUERY_CHUNK_SIZE {
        chunks.push(string_of(chars.as_slice()));
        return chunks;
    }
    let ghost s = content@;
    let mut start: usize = 0;
    while start < total
        invariant
            chars@ == s,
            total == s.len(),
            start <= total,
            query_chunks_from(s, 0) == chunks@.map_values(|c: String| c@) + query_chunks_from(
                s,
                start as int,
            ),
        decreases total - start,
    {
        proof {
            lemma_chunk_end_range(s, start as int);
        }
        let end = if total - start > QUERY_CHUNK_SIZE {
            start + QUERY_CHUNK_SIZE
        } else {
            total
        };
        let mut break_point = end;
        if end < total {
            match find_para_break(chars.as_slice(), start, end) {
                Some(i) => {
                    proof {
                        lemma_last_para_break_range(s, start as int, end as int);
                    }
                    break_point = i + 2;
                },
                None => {
                    match find_sentence_end(chars.as_slice(), start, end) {
                        Some(i) => {
                            break_point = i + 1;
                        },
                        None => {},
                    }
                },
            }
        }
        assert(break_point == chunk_end(s, start as int));
        let piece = slice_to_vec(chars.as_slice(), start, break_point);
        let ghost before = chunks@;
        if !blank(piece.as_slice()) {
            let ps = string_of(piece.as_slice());
            chunks.push(ps);
            proof {
                assert(chunks@.map_values(|c: String| c@) == before.map_values(|c: String| c@).push(
                    piece@,
                ));
                assert(before.map_values(|c: String| c@) + (seq![piece@] + query_chunks_from(
                    s,
                    break_point as int,
                )) == before.map_values(|c: String| c@).push(piece@) + query_chunks_from(
                    s,
                    break_point as int,
                ));
            }
        }
        start = break_point;
    }
    proof {
        assert(chunks@.map_values(|c: String| c@) + Seq::<Seq<char>>::empty() == chunks@.map_values(
            |c: String| c@,
        ));
    }
    chunks
}


// ---------------------------------------------------------------------------
// Prompt formatting
// ---------------------------------------------------------------------------

pub open spec fn strs(v: Seq<String>) -> Seq<Seq<char>> {
    v.map_values(|a: String| a@)
}

pub open spec fn text_or(o: Option<String>, fallback: Seq<char>) -> Seq<char> {
    match o {
        Some(d) => d@,
        None => fallback,
    }
}

/// `- 名字（别名、别名）：描述` for a character; the role stands in for a missing description.
pub open spec fn character_line(c: CharacterSummary) -> Seq<char> {
    let aliases = if c.aliases@.len() == 0 {
        Seq::<char>::empty()
    } else {
        "（"@ + join(strs(c.aliases@), "、"@) + "）"@
    };
    "- "@ + c.name@ + aliases + "："@ + text_or(c.description, c.role@) + seq!['\n']
}

/// `- 名字：描述` for a setting.
pub open spec fn setting_line(s: SettingSummary) -> Seq<char> {
    "- "@ + s.name@ + "："@ + text_or(s.description, "无描述"@) + seq!['\n']
}

/// `- 标题：描述` for an event.
pub open spec fn event_line(e: EventSummary) -> Seq<char> {
    "- "@ + e.title@ + "："@ + text_or(e.description, "无描述"@) + seq!['\n']
}

/// `"<first 200 characters>..."` for a passage.
pub open spec fn passage_line(p: PassageSummary) -> Seq<char> {
    seq!['"'] + p.content@.take(min_nat(200, p.content@.len()) as int) + "...\""@ + seq!['\n']
}

/// The leading lines that fit in the budget: lines are taken while the bytes used
/// so far plus the line's bytes stay within `max`. Gives the text and the bytes used.
pub open spec fn fit_lines(ls: Seq<Seq<char>>, used: nat, max: nat) -> (Seq<char>, nat)
    decreases ls.len(),
{
    if ls.len() == 0 || used + byte_len(ls[0]) > max {
        (Seq::<char>::empty(), used)
    } else {
        let r = fit_lines(ls.drop_first(), used + byte_len(ls[0]), max);
        (ls[0] + r.0, r.1)
    }
}

/// The prompt text for a context under a budget of `max_tokens` (two bytes a token):
/// sections for characters, settings and events, each present when the context has
/// such entities and holding the lines that still fit; then related passages, when
/// there are some and budget is left; sections separated by newlines.
pub open spec fn format_context(ctx: AnalysisContext, max_tokens: nat) -> Seq<char> {
    let max = max_tokens * 2;
    let c = fit_lines(ctx.known_characters@.map_values(|x: CharacterSummary| character_line(x)), 0, max);
    let st = fit_lines(ctx.known_settings@.map_values(|x: SettingSummary| setting_line(x)), c.1, max);
    let ev = fit_lines(ctx.known_events@.map_values(|x: EventSummary| event_line(x)), st.1, max);
    let ps = fit_lines(ctx.similar_passages@.map_values(|x: PassageSummary| passage_line(x)), ev.1, max);
    let p1 = if ctx.known_characters@.len() > 0 {
        seq!["【已知人物】\n"@ + c.0]
    } else {
        Seq::<Seq<char>>::empty()
    };
    let p2 = if ctx.known_settings@.len() > 0 {
        seq!["【已知设定】\n"@ + st.0]
    } else {
        Seq::<Seq<char>>::empty()
    };
    let p3 = if ctx.known_events@.len() > 0 {
        seq!["【已知事件】\n"@ + ev.0]
    } else {
        Seq::<Seq<char>>::empty()
    };
    let p4 = if ctx.similar_passages@.len() > 0 && ev.1 < max {
        seq!["【相关段落】\n"@ + ps.0]
    } else {
        Seq::<Seq<char>>::empty()
    };
    join(p1 + p2 + p3 + p4, seq!['\n'])
}

/// Takes the leading lines that fit in the budget.
fn fit_section(ls: &Vec<Vec<char>>, used: u128, max: u128) -> (res: (Vec<char>, u128))
    requires
        used <= max,
        max <= 2 * (usize::MAX as u128),
    ensures
        (res.0@, res.1 as nat) == fit_lines(views(ls@), used as nat, max as nat),
        res.1 <= max,
{
    let ghost v = views(ls@);
    let mut out: Vec<char> = Vec::new();
    let mut cur = used;
    let mut i: usize = 0;
    proof {
        assert(v.skip(0) == v);
        assert(Seq::<char>::empty() + fit_lines(v, used as nat, max as nat).0 == fit_lines(v, used as nat, max as nat).0);
    }
    while i < ls.len()
        invariant
            v == views(ls@),
            i <= ls@.len(),
            cur <= max,
            max <= 2 * (usize::MAX as u128),
            fit_lines(v, used as nat, max as nat) == (
                out@ + fit_lines(v.skip(i as int), cur as nat, max as nat).0,
                fit_lines(v.skip(i as int), cur as nat, max as nat).1,
            ),
        decreases ls.len() - i,
    {
        let ghost t = v.skip(i as int);
        let w = utf8_byte_len(ls[i].as_slice());
        proof {
            assert(t[0] == ls@[i as int]@);
            assert(ls@[i as int]@.len() <= usize::MAX) by {
                assert(ls@[i as int]@.len() == ls@[i as int].len());
            }
        }
        if cur + w > max {
            proof {
                assert(out@ + Seq::<char>::empty() == out@);
            }
            return (out, cur);
        }
        proof {
            assert(t.drop_first() == v.skip(i + 1));
            let r = fit_lines(v.skip(i + 1), (cur + w) as nat, max as nat);
            assert(out@ + (t[0] + r.0) == (out@ + t[0]) + r.0);
        }
        append_chars(&mut out, ls[i].as_slice());
        cur = cur + w;
        i = i + 1;
    }
    proof {
        assert(v.skip(i as int).len() == 0);
        assert(out@ + Seq::<char>::empty() == out@);
    }
    (out, cur)
}

fn text_or_exec(o: &Option<String>, fallback: &str) -> (res: Vec<char>)
    ensures
        res@ == text_or(*o, fallback@),
{
    match o {
        Some(d) => chars_of(d.as_str()),
        None => chars_of(fallback),
    }
}

fn character_line_exec(c: &CharacterSummary) -> (res: Vec<char>)
    ensures
        res@ == character_line(*c),
{
    let mut line = chars_of("- ");
    append_chars(&mut line, chars_of(c.name.as_str()).as_slice());
    if c.aliases.len() > 0 {
        let mut names: Vec<Vec<char>> = Vec::new();
        let mut i: usize = 0;
        while i < c.aliases.len()
            invariant
                i <= c.aliases@.len(),
                views(names@) == strs(c.aliases@).take(i as int),
            decreases c.aliases.len() - i,
        {
            let a = chars_of(c.aliases[i].as_str());
            proof {
                assert(views(names@.push(a)) =~= views(names@).push(a@));
                assert(views(names@).push(a@) =~= strs(c.aliases@).take(i + 1));
            }
            names.push(a);
            i = i + 1;
        }
        assert(strs(c.aliases@).take(c.aliases@.len() as int) == strs(c.aliases@));
        append_chars(&mut line, chars_of("（").as_slice());
        let sep = chars_of("、");
        append_chars(&mut line, join_chars(&names, sep.as_slice()).as_slice());
        append_chars(&mut line, chars_of("）").as_slice());
    }
    append_chars(&mut line, chars_of("：").as_slice());
    append_chars(&mut line, text_or_exec(&c.description, c.role.as_str()).as_slice());
    line.push('\n');
    proof {
        let aliases = if c.aliases@.len() == 0 {
            Seq::<char>::empty()
        } else {
            "（"@ + join(strs(c.aliases@), "、"@) + "）"@
        };
        assert(line@ == "- "@ + c.name@ + aliases + "："@ + text_or(c.description, c.role@) + seq!['\n']);
    }
    line
}

fn simple_line(name: &String, desc: &Option<String>) -> (res: Vec<char>)
    ensures
        res@ == "- "@ + name@ + "："@ + text_or(*desc, "无描述"@) + seq!['\n'],
{
    let mut line = chars_of("- ");
    append_chars(&mut line, chars_of(name.as_str()).as_slice());
    append_chars(&mut line, chars_of("：").as_slice());
    append_chars(&mut line, text_or_exec(desc, "无描述").as_slice());
    line.push('\n');
    line
}

fn passage_line_exec(p: &PassageSummary) -> (res: Vec<char>)
    ensures
        res@ == passage_line(*p),
{
    let mut line: Vec<char> = Vec::new();
    line.push('"');
    let t = truncate_str(p.content.as_str(), 200);
    append_chars(&mut line, chars_of(t.as_str()).as_slice());
    append_chars(&mut line, chars_of("...\"").as_slice());
    line.push('\n');
    line
}

/// Formats the analysis context for a prompt of at most `max_tokens` tokens.
pub fn format_context_for_prompt(context: &AnalysisContext, max_tokens: usize) -> (res: String)
    requires
        max_tokens * 2 <= usize::MAX,
    ensures
        res@ == format_context(*context, max_tokens as nat),
{
    let max: u128 = (max_tokens as u128) * 2;
    let mut cl: Vec<Vec<char>> = Vec::new();
    let mut i: usize = 0;
    while i < context.known_characters.len()
        invariant
            i <= context.known_characters@.len(),
            views(cl@) == context.known_characters@.map_values(|x: CharacterSummary| character_line(x)).take(i as int),
        decreases context.known_characters.len() - i,
    {
        let l = character_line_exec(&context.known_characters[i]);
        proof {
            assert(views(cl@.push(l)) =~= views(cl@).push(l@));
            assert(views(cl@).push(l@) =~= context.known_characters@.map_values(|x: CharacterSummary| character_line(x)).take(i + 1));
        }
        cl.push(l);
        i = i + 1;
    }
    let mut sl: Vec<Vec<char>> = Vec::new();
    let mut i: usize = 0;
    while i < context.known_settings.len()
        invariant
            i <= context.known_settings@.len(),
            views(sl@) == context.known_settings@.map_values(|x: SettingSummary| setting_line(x)).take(i as int),
        decreases context.known_settings.len() - i,
    {
        let st = &context.known_settings[i];
        let l = simple_line(&st.name, &st.description);
        proof {
            assert(views(sl@.push(l)) =~= views(sl@).push(l@));
            assert(views(sl@).push(l@) =~= context.known_settings@.map_values(|x: SettingSummary| setting_line(x)).take(i + 1));
        }
        sl.push(l);
        i = i + 1;
    }
    let mut el: Vec<Vec<char>> = Vec::new();
    let mut i: usize = 0;
    while i < context.known_events.len()
        invariant
            i <= context.known_events@.len(),
            views(el@) == context.known_events@.map_values(|x: EventSummary| event_line(x)).take(i as int),
        decreases context.known_events.len() - i,
    {
        let ev = &context.known_events[i];
        let l = simple_line(&ev.title, &ev.description);
        proof {
            assert(views(el@.push(l)) =~= views(el@).push(l@));
            assert(views(el@).push(l@) =~= context.known_events@.map_values(|x: EventSummary| event_line(x)).take(i + 1));
        }
        el.push(l);
        i = i + 1;
    }
    let mut pl: Vec<Vec<char>> = Vec::new();
    let mut i: usize = 0;
    while i < context.similar_passages.len()
        invariant
            i <= context.similar_passages@.len(),
            views(pl@) == context.similar_passages@.map_values(|x: PassageSummary| passage_line(x)).take(i as int),
        decreases context.similar_passages.len() - i,
    {
        let l = passage_line_exec(&context.similar_passages[i]);
        proof {
            assert(views(pl@.push(l)) =~= views(pl@).push(l@));
            assert(views(pl@).push(l@) =~= context.similar_passages@.map_values(|x: PassageSummary| passage_line(x)).take(i + 1));
        }
        pl.push(l);
        i = i + 1;
    }
    proof {
        assert(context.known_characters@.map_values(|x: CharacterSummary| character_line(x)).take(context.known_characters@.len() as int)
            == context.known_characters@.map_values(|x: CharacterSummary| character_line(x)));
        assert(context.known_settings@.map_values(|x: SettingSummary| setting_line(x)).take(context.known_settings@.len() as int)
            == context.known_settings@.map_values(|x: SettingSummary| setting_line(x)));
        assert(context.known_events@.map_values(|x: EventSummary| event_line(x)).take(context.known_events@.len() as int)
            == context.known_events@.map_values(|x: EventSummary| event_line(x)));
        assert(context.similar_passages@.map_values(|x: PassageSummary| passage_line(x)).take(context.similar_passages@.len() as int)
            == context.similar_passages@.map_values(|x: PassageSummary| passage_line(x)));
    }
    let (ct, u1) = fit_section(&cl, 0, max);
    let (stx, u2) = fit_section(&sl, u1, max);
    let (evx, u3) = fit_section(&el, u2, max);
    let mut parts: Vec<Vec<char>> = Vec::new();
    let ghost mut expected: Seq<Seq<char>> = Seq::empty();
    if context.known_characters.len() > 0 {
        let mut sec = chars_of("【已知人物】\n");
        append_chars(&mut sec, ct.as_slice());
        proof {
            expected = expected + seq![sec@];
            assert(views(parts@.push(sec)) =~= views(parts@).push(sec@));
        }
        parts.push(sec);
    }
    assert(views(parts@) == expected);
    if context.known_settings.len() > 0 {
        let mut sec = chars_of("【已知设定】\n");
        append_chars(&mut sec, stx.as_slice());
        proof {
            expected = expected + seq![sec@];
            assert(views(parts@.push(sec)) =~= views(parts@).push(sec@));
        }
        parts.push(sec);
    }
    assert(views(parts@) == expected);
    if context.known_events.len() > 0 {
        let mut sec = chars_of("【已知事件】\n");
        append_chars(&mut sec, evx.as_slice());
        proof {
            expected = expected + seq![sec@];
            assert(views(parts@.push(sec)) =~= views(parts@).push(sec@));
        }
        parts.push(sec);
    }
    assert(views(parts@) == expected);
    if context.similar_passages.len() > 0 && u3 < max {
        let (pt, _u4) = fit_section(&pl, u3, max);
        let mut sec = chars_of("【相关段落】\n");
        append_chars(&mut sec, pt.as_slice());
        proof {
            expected = expected + seq![sec@];
            assert(views(parts@.push(sec)) =~= views(parts@).push(sec@));
        }
        parts.push(sec);
    }
    assert(views(parts@) == expected);
    proof {
        let ctx = *context;
        let maxn = max_tokens as nat * 2;
        let c = fit_lines(ctx.known_characters@.map_values(|x: CharacterSummary| character_line(x)), 0, maxn);
        let st = fit_lines(ctx.known_settings@.map_values(|x: SettingSummary| setting_line(x)), c.1, maxn);
        let ev = fit_lines(ctx.known_events@.map_values(|x: EventSummary| event_line(x)), st.1, maxn);
        let p1 = if ctx.known_characters@.len() > 0 {
            seq!["【已知人物】\n"@ + c.0]
        } else {
            Seq::<Seq<char>>::empty()
        };
        let p2 = if ctx.known_settings@.len() > 0 {
            seq!["【已知设定】\n"@ + st.0]
        } else {
            Seq::<Seq<char>>::empty()
        };
        let p3 = if ctx.known_events@.len() > 0 {
            seq!["【已知事件】\n"@ + ev.0]
        } else {
            Seq::<Seq<char>>::empty()
        };
        assert(Seq::<Seq<char>>::empty() + p1 == p1);
        assert(expected =~= p1 + p2 + p3 + (if ctx.similar_passages@.len() > 0 && ev.1 < maxn {
            seq!["【相关段落】\n"@ + fit_lines(ctx.similar_passages@.map_values(|x: PassageSummary| passage_line(x)), ev.1, maxn).0]
        } else {
            Seq::<Seq<char>>::empty()
        }));
    }
    let nl = vec!['\n'];
    assert(nl@ == seq!['\n']);
    let joined = join_chars(&parts, nl.as_slice());
    string_of(joined.as_slice())
}


// ---------------------------------------------------------------------------
// Choosing the entities of a context
// ---------------------------------------------------------------------------

/// The ids of stored entities, given as (id, name) in storage order.
pub open spec fn entry_ids(entries: Seq<(String, String)>) -> Seq<Seq<char>> {
    entries.map_values(|e: (String, String)| e.0@)
}

/// The names of stored entities, given as (id, name) in storage order.
pub open spec fn entry_names(entries: Seq<(String, String)>) -> Seq<Seq<char>> {
    entries.map_values(|e: (String, String)| e.1@)
}

/// The positions below `upto`, in order, of the ids that are among the relevant ones.
pub open spec fn relevant_positions(ids: Seq<Seq<char>>, relevant: Seq<Seq<char>>, upto: int) -> Seq<int>
    decreases upto,
{
    if upto <= 0 {
        Seq::<int>::empty()
    } else {
        let prev = relevant_positions(ids, relevant, upto - 1);
        if relevant.contains(ids[upto - 1]) {
            prev.push(upto - 1)
        } else {
            prev
        }
    }
}

/// The names at the given positions.
pub open spec fn names_at(names: Seq<Seq<char>>, ps: Seq<int>) -> Seq<Seq<char>> {
    ps.map_values(|p: int| names[p])
}

/// `chosen`, then, walking back over the last `k` entries from the newest, each
/// one whose name is not among `taken`, while fewer than `max` are chosen.
pub open spec fn supplemented(
    names: Seq<Seq<char>>,
    taken: Seq<Seq<char>>,
    chosen: Seq<int>,
    max: nat,
    k: nat,
) -> Seq<int>
    decreases k,
{
    if k == 0 {
        chosen
    } else {
        let prev = supplemented(names, taken, chosen, max, (k - 1) as nat);
        let p = names.len() - k;
        if !taken.contains(names[p]) && prev.len() < max {
            prev.push(p)
        } else {
            prev
        }
    }
}

/// The entities given to an analysis: the first `max` of those that the recalled
/// passages mention, then, while fewer than `max`, the newest of the last
/// `2 * max` stored whose names differ from those already chosen by relevance.
pub open spec fn context_entity_positions(entries: Seq<(String, String)>, relevant: Seq<Seq<char>>, max: nat) -> Seq<
    int,
> {
    let found = relevant_positions(entry_ids(entries), relevant, entries.len() as int);
    let first = found.take(min_nat(max, found.len()) as int);
    supplemented(entry_names(entries), names_at(entry_names(entries), first), first, max, min_nat(2 * max, entries.len()))
}

fn has_text(v: &Vec<String>, s: &str) -> (res: bool)
    ensures
        res == strs(v@).contains(s@),
{
    let mut i: usize = 0;
    while i < v.len()
        invariant
            i <= v@.len(),
            forall|j: int| 0 <= j < i ==> strs(v@)[j] != s@,
        decreases v.len() - i,
    {
        if crate::text::str_eq(v[i].as_str(), s) {
            assert(strs(v@)[i as int] == s@);
            return true;
        }
        i = i + 1;
    }
    false
}

proof fn lemma_relevant_positions_bounded(ids: Seq<Seq<char>>, relevant: Seq<Seq<char>>, upto: int)
    requires
        0 <= upto,
    ensures
        forall|k: int|
            0 <= k < relevant_positions(ids, relevant, upto).len() ==> 0 <= #[trigger] relevant_positions(
                ids,
                relevant,
                upto,
            )[k] < upto,
        relevant_positions(ids, relevant, upto).len() <= upto,
    decreases upto,
{
    if upto > 0 {
        lemma_relevant_positions_bounded(ids, relevant, upto - 1);
    }
}

/// Whether the name at position `p` is among the names at the chosen positions.
fn name_chosen(entries: &Vec<(String, String)>, chosen: &Vec<usize>, p: usize) -> (res: bool)
    requires
        p < entries@.len(),
        forall|k: int| 0 <= k < chosen@.len() ==> #[trigger] chosen@[k] < entries@.len(),
    ensures
        res == names_at(entry_names(entries@), chosen@.map_values(|q: usize| q as int)).contains(
            entry_names(entries@)[p as int],
        ),
{
    let ghost names = entry_names(entries@);
    let ghost taken = names_at(names, chosen@.map_values(|q: usize| q as int));
    let mut i: usize = 0;
    while i < chosen.len()
        invariant
            i <= chosen@.len(),
            p < entries@.len(),
            names == entry_names(entries@),
            taken == names_at(names, chosen@.map_values(|q: usize| q as int)),
            forall|k: int| 0 <= k < chosen@.len() ==> #[trigger] chosen@[k] < entries@.len(),
            forall|j: int| 0 <= j < i ==> taken[j] != names[p as int],
        decreases chosen.len() - i,
    {
        let q = chosen[i];
        if crate::text::str_eq(entries[q].1.as_str(), entries[p].1.as_str()) {
            assert(taken[i as int] == names[p as int]);
            return true;
        }
        i = i + 1;
    }
    proof {
        assert forall|j: int| 0 <= j < taken.len() implies taken[j] != names[p as int] by {}
    }
    false
}

/// Chooses the stored entities (given as (id, name) in storage order) that go into
/// an analysis context: those whose ids the recalled passages mention, at most
/// `max`, then, while fewer than `max`, the newest of the last `2 * max` entries
/// whose names are not among those chosen by relevance. Returns their positions
/// in the order chosen.
pub fn select_context_entities(entries: &Vec<(String, String)>, relevant_ids: &Vec<String>, max: usize) -> (res:
    Vec<usize>)
    requires
        max <= usize::MAX / 2,
    ensures
        res@.map_values(|p: usize| p as int) == context_entity_positions(entries@, strs(relevant_ids@), max as nat),
{
    let ghost ids = entry_ids(entries@);
    let ghost names = entry_names(entries@);
    let ghost rel = strs(relevant_ids@);
    let n = entries.len();
    let mut found: Vec<usize> = Vec::new();
    let mut i: usize = 0;
    while i < n
        invariant
            i <= n == entries@.len(),
            ids == entry_ids(entries@),
            rel == strs(relevant_ids@),
            found@.map_values(|p: usize| p as int) == relevant_positions(ids, rel, i as int),
        decreases n - i,
    {
        let hit = has_text(relevant_ids, entries[i].0.as_str());
        proof {
            assert(ids[i as int] == entries@[i as int].0@);
        }
        if hit {
            found.push(i);
        }
        proof {
            assert(found@.map_values(|p: usize| p as int) =~= relevant_positions(ids, rel, i + 1));
        }
        i = i + 1;
    }
    proof {
        lemma_relevant_positions_bounded(ids, rel, n as int);
    }
    let keep = if max < found.len() {
        max
    } else {
        found.len()
    };
    found.truncate(keep);
    let ghost first = relevant_positions(ids, rel, n as int).take(keep as int);
    assert(found@.map_values(|p: usize| p as int) =~= first);
    assert forall|k: int| 0 <= k < found@.len() implies #[trigger] found@[k] < entries@.len() by {
        assert(found@.map_values(|p: usize| p as int)[k] == first[k]);
    }
    let chosen = found.clone();
    assert(chosen@ == found@);
    let ghost taken = names_at(names, first);
    let window = if max >= n - max.min(n) {
        n
    } else {
        2 * max
    };
    assert(window == min_nat(2 * (max as nat), n as nat));
    let mut res = found;
    let mut k: usize = 0;
    while k < window
        invariant
            k <= window <= n == entries@.len(),
            names == entry_names(entries@),
            chosen@.map_values(|p: usize| p as int) == first,
            taken == names_at(names, first),
            forall|j: int| 0 <= j < chosen@.len() ==> #[trigger] chosen@[j] < entries@.len(),
            res@.map_values(|p: usize| p as int) == supplemented(names, taken, first, max as nat, k as nat),
        decreases window - k,
    {
        let p = n - 1 - k;
        let seen = name_chosen(entries, &chosen, p);
        if !seen && res.len() < max {
            res.push(p);
        }
        proof {
            assert(res@.map_values(|q: usize| q as int) =~= supplemented(names, taken, first, max as nat, (k + 1) as nat));
        }
        k = k + 1;
    }
    res
}

/// How chunks are recalled: normally, or leaning on keywords when embeddings fail.
#[derive(Debug, Clone, Copy, PartialEq, Eq)]
pub enum RecallMode {
    Normal,
    FallbackEmbedding,
}

/// Why building an analysis context failed.
#[derive(Debug)]
pub enum ContextError {
    VectorDbError(String),
    BookDbError(String),
    IoError(String),
    EmbeddingError(String),
}

} // verus!
