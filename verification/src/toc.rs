//! Chapters of an EPUB: taken along its table of contents, volumes with the pages
//! up to their first chapter and chapters under their volume, or, where the contents
//! give none, page by page along the reading order.
use vstd::prelude::*;
use crate::epub::{comparable_path, find_resource_id_by_path, resource_for_path};
use crate::html::{
    html_text, html_to_text, newline_runs, page_chapter, page_chapter_segment, space_runs,
    title_patterns_available, title_patterns_compile,
};
use crate::pattern::regex_compiles;
use crate::segmentation::{opt_view, ChapterSegment};
use crate::text::{
    append_chars, chars_of, lemma_split_nonempty, split, split_chars, str_eq, string_of, trim,
    trim_chars,
};

verus! {

/// An entry of a book's table of contents: its label, the path of the page it points
/// to (perhaps with a `#` fragment), and the entries under it.
pub struct TocEntry {
    pub label: String,
    pub content: String,
    pub children: Vec<TocEntry>,
}

/// What the chapters of a book are taken from besides its table of contents.
pub struct BookPages {
    /// Each resource's id and path, in the order the book lists them.
    pub resources: Vec<(String, String)>,
    /// The id and the text of each resource that reads as text.
    pub texts: Vec<(String, String)>,
    /// The resource ids of the reading order.
    pub spine: Vec<String>,
}

/// A chapter as the book gives it: title, text, character count and parent title.
pub type ChapterPlan = (Option<Seq<char>>, Seq<char>, u32, Option<Seq<char>>);

/// The chapters made so far and the paths already taken into one.
pub type TocState = (Seq<ChapterPlan>, Seq<Seq<char>>);

/// Text gathered from pages: the text, its character count, the paths taken.
pub type Gathered = (Seq<char>, u32, Seq<Seq<char>>);

/// The texts of a sequence of strings.
pub open spec fn strs(v: Seq<String>) -> Seq<Seq<char>> {
    v.map_values(|s: String| s@)
}

pub open spec fn opt_str(o: Option<&str>) -> Option<Seq<char>> {
    match o {
        Some(s) => Some(s@),
        None => None,
    }
}

/// A path with its `#` fragment taken off.
pub open spec fn without_fragment(p: Seq<char>) -> Seq<char> {
    split(p, seq!['#'])[0]
}

/// The value of the first pair whose key is `id`.
pub open spec fn lookup(pairs: Seq<(String, String)>, id: Seq<char>) -> Option<Seq<char>>
    decreases pairs.len(),
{
    if pairs.len() == 0 {
        None
    } else if pairs[0].0@ == id {
        Some(pairs[0].1@)
    } else {
        lookup(pairs.drop_first(), id)
    }
}

/// The position of `id` in the reading order.
pub open spec fn spine_position(spine: Seq<String>, id: Seq<char>) -> Option<int>
    decreases spine.len(),
{
    if spine.len() == 0 {
        None
    } else if spine[0]@ == id {
        Some(0)
    } else {
        match spine_position(spine.drop_first(), id) {
            Some(k) => Some(k + 1),
            None => None,
        }
    }
}

/// The id of the resource that a path of the book refers to.
pub open spec fn resource_at(book: BookPages, path: Seq<char>) -> Option<Seq<char>> {
    resource_for_path(book.resources@, comparable_path(without_fragment(path)))
}

/// The number of characters of a text, as `u32`.
pub open spec fn count_of(t: Seq<char>) -> u32 {
    t.len() as u32
}

/// The trimmed plain text of the page that a path refers to, where it has any.
pub open spec fn page_text(book: BookPages, path: Seq<char>) -> Option<Seq<char>> {
    match resource_at(book, path) {
        Some(id) => match lookup(book.texts@, id) {
            Some(html) => {
                let t = trim(html_text(html));
                if t.len() == 0 {
                    None
                } else {
                    Some(t)
                }
            },
            None => None,
        },
        None => None,
    }
}

/// Text gathered with the page of the reading order whose id is `id`: a page already
/// taken, unknown or not text adds nothing; otherwise its path is taken, and its text,
/// where not empty, is added after a blank line, its count with it (cut to 32 bits).
pub open spec fn gather_page(book: BookPages, id: Seq<char>, g: Gathered) -> Gathered {
    match lookup(book.resources@, id) {
        None => g,
        Some(rp) => if g.2.contains(rp) {
            g
        } else {
            match lookup(book.texts@, id) {
                None => g,
                Some(html) => {
                    let t = trim(html_text(html));
                    if t.len() == 0 {
                        (g.0, g.1, g.2.push(rp))
                    } else {
                        let joined = if g.0.len() == 0 {
                            t
                        } else {
                            g.0 + seq!['\n', '\n'] + t
                        };
                        (joined, ((g.1 + count_of(t)) % 0x1_0000_0000) as u32, g.2.push(rp))
                    }
                },
            }
        },
    }
}

/// Text gathered from the pages of the reading order from `from` up to `to`.
pub open spec fn gather(book: BookPages, from: int, to: int, g: Gathered) -> Gathered
    decreases to - from,
{
    if from >= to {
        g
    } else {
        gather(book, from + 1, to, gather_page(book, book.spine@[from]@, g))
    }
}

/// Where gathering stops: at the page of the next entry, else at the end of the
/// reading order.
pub open spec fn stop_index(book: BookPages, next: Option<Seq<char>>) -> int {
    match next {
        Some(np) => match resource_at(book, np) {
            Some(nid) => match spine_position(book.spine@, nid) {
                Some(k) => k,
                None => book.spine@.len() as int,
            },
            None => book.spine@.len() as int,
        },
        None => book.spine@.len() as int,
    }
}

/// The text of a volume's page and of the pages after it up to the next entry. A page
/// outside the reading order gives its own text alone; an unknown page gives none.
pub open spec fn collect(
    book: BookPages,
    start: Seq<char>,
    next: Option<Seq<char>>,
    taken: Seq<Seq<char>>,
) -> Gathered {
    match resource_at(book, start) {
        None => (seq![], 0, taken),
        Some(sid) => match spine_position(book.spine@, sid) {
            None => match page_text(book, start) {
                Some(t) => (t, count_of(t), taken.push(start)),
                None => (seq![], 0, taken),
            },
            Some(si) => gather(book, si, stop_index(book, next), (seq![], 0, taken)),
        },
    }
}

/// One entry of the contents taken. An entry with entries under it is a volume: its
/// pages, not taken yet, make a chapter where they hold more than 20 characters, and
/// its entries follow with its label as their parent title. Any other entry, not taken
/// yet, makes a chapter of its page where that holds at least 10 characters.
pub open spec fn visit(book: BookPages, e: TocEntry, parent: Option<Seq<char>>, st: TocState) -> TocState
    decreases e,
{
    let cp = e.content@;
    let label = trim(e.label@);
    if e.children@.len() > 0 {
        let st1 = if cp.len() > 0 && !st.1.contains(cp) {
            let g = collect(book, cp, Some(e.children@[0].content@), st.1);
            if g.1 > 20 {
                (st.0.push((Some(label), g.0, g.1, None)), g.2)
            } else {
                (st.0, g.2)
            }
        } else {
            st
        };
        proof {
            assert(decreases_to!(e => e.children));
        }
        visit_all(book, e.children@, Some(label), st1)
    } else if st.1.contains(cp) {
        st
    } else {
        match page_text(book, cp) {
            Some(t) => if count_of(t) >= 10 {
                (st.0.push((Some(label), t, count_of(t), parent)), st.1.push(cp))
            } else {
                st
            },
            None => st,
        }
    }
}

/// Entries of the contents taken in order.
pub open spec fn visit_all(
    book: BookPages,
    es: Seq<TocEntry>,
    parent: Option<Seq<char>>,
    st: TocState,
) -> TocState
    decreases es,
{
    if es.len() == 0 {
        st
    } else {
        visit_all(book, es.drop_first(), parent, visit(book, es[0], parent, st))
    }
}

/// The chapters along the whole table of contents.
pub open spec fn toc_plans(book: BookPages, toc: Seq<TocEntry>) -> Seq<ChapterPlan> {
    visit_all(book, toc, None, (seq![], seq![])).0
}

/// The chapters of the first `k` pages of the reading order, one for each page with
/// enough text.
pub open spec fn spine_plans(book: BookPages, k: int) -> Seq<ChapterPlan>
    decreases k,
{
    if k <= 0 {
        seq![]
    } else {
        let prev = spine_plans(book, k - 1);
        match lookup(book.texts@, book.spine@[k - 1]@) {
            Some(html) => match page_chapter(html) {
                Some(pc) => prev.push((pc.0, pc.1, count_of(pc.1), None)),
                None => prev,
            },
            None => prev,
        }
    }
}

/// The chapters of a book: those along its contents where they give any, else those
/// along its reading order.
pub open spec fn book_plans(book: BookPages, toc: Seq<TocEntry>) -> Seq<ChapterPlan> {
    if toc.len() > 0 && toc_plans(book, toc).len() > 0 {
        toc_plans(book, toc)
    } else {
        spine_plans(book, book.spine@.len() as int)
    }
}

/// The plan that a segment carries out.
pub open spec fn plan_of(s: ChapterSegment) -> ChapterPlan {
    (opt_view(s.title), s.content@, s.char_count, opt_view(s.parent_title))
}

pub open spec fn plans_of(segs: Seq<ChapterSegment>) -> Seq<ChapterPlan> {
    segs.map_values(|s: ChapterSegment| plan_of(s))
}

/// Segments numbered by their position (cut to 32 bits), each from line 0.
pub open spec fn well_numbered(segs: Seq<ChapterSegment>) -> bool {
    forall|i: int| 0 <= i < segs.len() ==> #[trigger] segs[i].index == i as u32 && segs[i].start_line == 0
}

fn without_fragment_of(p: &str) -> (res: String)
    ensures
        res@ == without_fragment(p@),
{
    let cs = chars_of(p);
    let sep = vec!['#'];
    assert(sep@ =~= seq!['#']);
    let pieces = split_chars(cs.as_slice(), sep.as_slice());
    proof {
        lemma_split_nonempty(p@, seq!['#']);
    }
    string_of(pieces[0].as_slice())
}

fn lookup_in<'a>(texts: &'a Vec<(String, String)>, id: &str) -> (res: Option<&'a String>)
    ensures
        match res {
            Some(t) => lookup(texts@, id@) == Some(t@),
            None => lookup(texts@, id@) is None,
        },
{
    let mut i: usize = 0;
    proof {
        assert(texts@.skip(0) == texts@);
    }
    while i < texts.len()
        invariant
            i <= texts@.len(),
            lookup(texts@, id@) == lookup(texts@.skip(i as int), id@),
        decreases texts.len() - i,
    {
        proof {
            assert(texts@.skip(i as int)[0] == texts@[i as int]);
            assert(texts@.skip(i as int).drop_first() == texts@.skip(i + 1));
        }
        if str_eq(texts[i].0.as_str(), id) {
            return Some(&texts[i].1);
        }
        i = i + 1;
    }
    None
}

fn spine_index(spine: &Vec<String>, id: &str) -> (res: Option<usize>)
    ensures
        match res {
            Some(k) => spine_position(spine@, id@) == Some(k as int) && k < spine@.len(),
            None => spine_position(spine@, id@) is None,
        },
{
    let mut i: usize = 0;
    proof {
        assert(spine@.skip(0) == spine@);
    }
    while i < spine.len()
        invariant
            i <= spine@.len(),
            spine_position(spine@, id@) == match spine_position(spine@.skip(i as int), id@) {
                Some(k) => Some(k + i),
                None => None,
            },
        decreases spine.len() - i,
    {
        proof {
            assert(spine@.skip(i as int)[0] == spine@[i as int]);
            assert(spine@.skip(i as int).drop_first() == spine@.skip(i + 1));
        }
        if str_eq(spine[i].as_str(), id) {
            return Some(i);
        }
        i = i + 1;
    }
    None
}

fn contains_str(v: &Vec<String>, s: &str) -> (res: bool)
    ensures
        res == strs(v@).contains(s@),
{
    let mut i: usize = 0;
    while i < v.len()
        invariant
            i <= v@.len(),
            forall|j: int| 0 <= j < i ==> strs(v@)[j] != s@,
        decreases v.len() - i,
    {
        if str_eq(v[i].as_str(), s) {
            assert(strs(v@)[i as int] == s@);
            return true;
        }
        i = i + 1;
    }
    false
}

fn page_text_at(book: &BookPages, path: &str) -> (res: Option<String>)
    requires
        regex_compiles(space_runs()),
        regex_compiles(newline_runs()),
    ensures
        opt_view(res) == page_text(*book, path@),
{
    let clean = without_fragment_of(path);
    match find_resource_id_by_path(book.resources.as_slice(), clean.as_str()) {
        Some(id) => match lookup_in(&book.texts, id.as_str()) {
            Some(html) => {
                let t = html_to_text(html.as_str());
                let tc = trim_chars(chars_of(t.as_str()).as_slice());
                if tc.len() == 0 {
                    None
                } else {
                    Some(string_of(tc.as_slice()))
                }
            },
            None => None,
        },
        None => None,
    }
}

fn stop_at(book: &BookPages, next: Option<&str>) -> (res: usize)
    ensures
        res as int == stop_index(*book, opt_str(next)),
        res <= book.spine@.len(),
{
    match next {
        Some(np) => {
            let nc = without_fragment_of(np);
            match find_resource_id_by_path(book.resources.as_slice(), nc.as_str()) {
                Some(nid) => match spine_index(&book.spine, nid.as_str()) {
                    Some(k) => k,
                    None => book.spine.len(),
                },
                None => book.spine.len(),
            }
        },
        None => book.spine.len(),
    }
}

fn gather_pages(
    book: &BookPages,
    from: usize,
    to: usize,
    taken: &mut Vec<String>,
) -> (res: (String, u32))
    requires
        regex_compiles(space_runs()),
        regex_compiles(newline_runs()),
        to <= book.spine@.len(),
    ensures
        ({
            let g = gather(*book, from as int, to as int, (seq![], 0, strs(old(taken)@)));
            res.0@ == g.0 && res.1 == g.1 && strs(final(taken)@) == g.2
        }),
{
    let ghost g0: Gathered = (seq![], 0u32, strs(taken@));
    let mut combined: Vec<char> = Vec::new();
    let mut count: u32 = 0;
    let mut idx = from;
    while idx < to
        invariant
            to <= book.spine@.len(),
            regex_compiles(space_runs()),
            regex_compiles(newline_runs()),
            gather(*book, from as int, to as int, g0) == gather(
                *book,
                idx as int,
                to as int,
                (combined@, count, strs(taken@)),
            ),
        decreases to - idx,
    {
        let ghost before: Gathered = (combined@, count, strs(taken@));
        let rid = book.spine[idx].as_str();
        match lookup_in(&book.resources, rid) {
            None => {},
            Some(rp) => {
                if !contains_str(taken, rp.as_str()) {
                    match lookup_in(&book.texts, rid) {
                        None => {},
                        Some(html) => {
                            let t = html_to_text(html.as_str());
                            let tc = trim_chars(chars_of(t.as_str()).as_slice());
                            if tc.len() > 0 {
                                if combined.len() > 0 {
                                    combined.push('\n');
                                    combined.push('\n');
                                }
                                append_chars(&mut combined, tc.as_slice());
                                #[verifier::truncate]
                                let add = tc.len() as u32;
                                count = (((count as u64) + (add as u64)) % 0x1_0000_0000) as u32;
                            }
                            let ghost old_taken = taken@;
                            taken.push(string_of(chars_of(rp.as_str()).as_slice()));
                            proof {
                                assert(strs(taken@) =~= strs(old_taken).push(rp@));
                            }
                        },
                    }
                }
            },
        }
        proof {
            assert(book.spine@[idx as int]@ == rid@);
            assert((combined@, count, strs(taken@)) == gather_page(*book, rid@, before));
        }
        idx = idx + 1;
    }
    (string_of(combined.as_slice()), count)
}

fn collect_pages(book: &BookPages, start: &str, next: Option<&str>, taken: &mut Vec<String>) -> (res: (
    String,
    u32,
))
    requires
        regex_compiles(space_runs()),
        regex_compiles(newline_runs()),
    ensures
        ({
            let g = collect(*book, start@, opt_str(next), strs(old(taken)@));
            res.0@ == g.0 && res.1 == g.1 && strs(final(taken)@) == g.2
        }),
{
    let clean = without_fragment_of(start);
    let sid = match find_resource_id_by_path(book.resources.as_slice(), clean.as_str()) {
        Some(id) => id,
        None => {
            return (String::new(), 0);
        },
    };
    match spine_index(&book.spine, sid.as_str()) {
        Some(si) => {
            let stop = stop_at(book, next);
            gather_pages(book, si, stop, taken)
        },
        None => match page_text_at(book, start) {
            Some(t) => {
                let n = chars_of(t.as_str()).len();
                let ghost old_taken = taken@;
                taken.push(string_of(chars_of(start).as_slice()));
                proof {
                    assert(strs(taken@) =~= strs(old_taken).push(start@));
                }
                #[verifier::truncate]
                let c = n as u32;
                (t, c)
            },
            None => (String::new(), 0),
        },
    }
}

fn push_chapter(
    chapters: &mut Vec<ChapterSegment>,
    title: String,
    content: String,
    char_count: u32,
    parent_title: Option<String>,
)
    requires
        well_numbered(old(chapters)@),
    ensures
        well_numbered(final(chapters)@),
        plans_of(final(chapters)@) == plans_of(old(chapters)@).push(
            (Some(title@), content@, char_count, opt_view(parent_title)),
        ),
{
    #[verifier::truncate]
    let index = chapters.len() as u32;
    let ghost before = chapters@;
    chapters.push(
        ChapterSegment { index, title: Some(title), content, char_count, start_line: 0, parent_title },
    );
    proof {
        assert(plans_of(chapters@) =~= plans_of(before).push(plan_of(chapters@[before.len() as int])));
    }
}

fn visit_entry(
    book: &BookPages,
    e: &TocEntry,
    parent: Option<&str>,
    chapters: &mut Vec<ChapterSegment>,
    taken: &mut Vec<String>,
)
    requires
        regex_compiles(space_runs()),
        regex_compiles(newline_runs()),
        well_numbered(old(chapters)@),
    ensures
        well_numbered(final(chapters)@),
        (plans_of(final(chapters)@), strs(final(taken)@)) == visit(
            *book,
            *e,
            opt_str(parent),
            (plans_of(old(chapters)@), strs(old(taken)@)),
        ),
    decreases e,
{
    let label_chars = trim_chars(chars_of(e.label.as_str()).as_slice());
    let label = string_of(label_chars.as_slice());
    let cp = chars_of(e.content.as_str());
    if e.children.len() > 0 {
        if cp.len() > 0 && !contains_str(taken, e.content.as_str()) {
            let (comb, cnt) = collect_pages(
                book,
                e.content.as_str(),
                Some(e.children[0].content.as_str()),
                taken,
            );
            if cnt > 20 {
                push_chapter(chapters, string_of(label_chars.as_slice()), comb, cnt, None);
            }
        }
        proof {
            assert(decreases_to!(*e => e.children));
        }
        visit_entries(book, &e.children, Some(label.as_str()), chapters, taken);
    } else {
        if contains_str(taken, e.content.as_str()) {
            return ;
        }
        match page_text_at(book, e.content.as_str()) {
            Some(t) => {
                let n = chars_of(t.as_str()).len();
                #[verifier::truncate]
                let cnt = n as u32;
                if cnt >= 10 {
                    let ghost old_taken = taken@;
                    taken.push(string_of(cp.as_slice()));
                    proof {
                        assert(strs(taken@) =~= strs(old_taken).push(e.content@));
                    }
                    let parent_title = match parent {
                        Some(p) => Some(string_of(chars_of(p).as_slice())),
                        None => None,
                    };
                    push_chapter(chapters, label, t, cnt, parent_title);
                }
            },
            None => {},
        }
    }
}

fn visit_entries(
    book: &BookPages,
    es: &Vec<TocEntry>,
    parent: Option<&str>,
    chapters: &mut Vec<ChapterSegment>,
    taken: &mut Vec<String>,
)
    requires
        regex_compiles(space_runs()),
        regex_compiles(newline_runs()),
        well_numbered(old(chapters)@),
    ensures
        well_numbered(final(chapters)@),
        (plans_of(final(chapters)@), strs(final(taken)@)) == visit_all(
            *book,
            es@,
            opt_str(parent),
            (plans_of(old(chapters)@), strs(old(taken)@)),
        ),
    decreases es@,
{
    let ghost st0: TocState = (plans_of(chapters@), strs(taken@));
    let mut i: usize = 0;
    proof {
        assert(es@.skip(0) == es@);
    }
    while i < es.len()
        invariant
            i <= es@.len(),
            regex_compiles(space_runs()),
            regex_compiles(newline_runs()),
            well_numbered(chapters@),
            visit_all(*book, es@, opt_str(parent), st0) == visit_all(
                *book,
                es@.skip(i as int),
                opt_str(parent),
                (plans_of(chapters@), strs(taken@)),
            ),
        decreases es.len() - i,
    {
        proof {
            assert(es@.skip(i as int)[0] == es@[i as int]);
            assert(es@.skip(i as int).drop_first() == es@.skip(i + 1));
        }
        visit_entry(book, &es[i], parent, chapters, taken);
        i = i + 1;
    }
}

/// The chapters along a table of contents (see `visit`), numbered in order.
pub fn chapters_from_toc(toc: &Vec<TocEntry>, book: &BookPages) -> (res: Vec<ChapterSegment>)
    requires
        regex_compiles(space_runs()),
        regex_compiles(newline_runs()),
    ensures
        well_numbered(res@),
        plans_of(res@) == toc_plans(*book, toc@),
{
    let mut chapters: Vec<ChapterSegment> = Vec::new();
    let mut taken: Vec<String> = Vec::new();
    proof {
        assert(plans_of(chapters@) =~= seq![]);
        assert(strs(taken@) =~= seq![]);
    }
    visit_entries(book, toc, None, &mut chapters, &mut taken);
    chapters
}

/// The chapters of the pages of the reading order, numbered in order: one for each
/// page whose plain text holds at least 10 characters (see `page_chapter`).
pub fn chapters_from_spine(book: &BookPages) -> (res: Vec<ChapterSegment>)
    requires
        title_patterns_compile(),
    ensures
        well_numbered(res@),
        plans_of(res@) == spine_plans(*book, book.spine@.len() as int),
{
    let mut chapters: Vec<ChapterSegment> = Vec::new();
    let mut i: usize = 0;
    assert(plans_of(chapters@) =~= seq![]);
    while i < book.spine.len()
        invariant
            i <= book.spine@.len(),
            title_patterns_compile(),
            well_numbered(chapters@),
            plans_of(chapters@) == spine_plans(*book, i as int),
        decreases book.spine.len() - i,
    {
        match lookup_in(&book.texts, book.spine[i].as_str()) {
            Some(html) => {
                #[verifier::truncate]
                let index = chapters.len() as u32;
                match page_chapter_segment(html.as_str(), index) {
                    Some(seg) => {
                        let ghost before = chapters@;
                        chapters.push(seg);
                        proof {
                            assert(plans_of(chapters@) =~= plans_of(before).push(
                                plan_of(chapters@[before.len() as int]),
                            ));
                        }
                    },
                    None => {},
                }
            },
            None => {},
        }
        i = i + 1;
    }
    chapters
}

/// The chapters of a book (see `book_plans`), numbered in order.
pub fn extract_chapters(toc: &Vec<TocEntry>, book: &BookPages) -> (res: Vec<ChapterSegment>)
    requires
        title_patterns_compile(),
    ensures
        well_numbered(res@),
        plans_of(res@) == book_plans(*book, toc@),
{
    if toc.len() > 0 {
        let c = chapters_from_toc(toc, book);
        if c.len() > 0 {
            return c;
        }
    }
    chapters_from_spine(book)
}

/// The chapters of a book, or `None` where the fixed patterns that reading HTML needs
/// do not compile.
pub fn book_chapters(toc: &Vec<TocEntry>, book: &BookPages) -> (res: Option<Vec<ChapterSegment>>)
    ensures
        res is Some <==> title_patterns_compile(),
        res matches Some(c) ==> well_numbered(c@) && plans_of(c@) == book_plans(*book, toc@),
{
    if title_patterns_available() {
        Some(extract_chapters(toc, book))
    } else {
        None
    }
}

} // verus!
