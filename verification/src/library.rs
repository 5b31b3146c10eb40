//! What the library shows of its books: book and chapter summaries, import
//! previews and statistics.
use vstd::prelude::*;
use crate::clock::{format_rfc3339, rfc3339_or_empty};
use crate::ingestion::{ChapterPreview, ImportPreview};
use crate::model::{Book, BookStatus};
use crate::text::{append_chars, chars_of, string_of};

verus! {

/// The text of a book status: `importing`, `ready`, `analyzing`, `completed`, or
/// `error:` followed by the message.
pub open spec fn status_text(status: BookStatus) -> Seq<char> {
    match status {
        BookStatus::Importing => "importing"@,
        BookStatus::Ready => "ready"@,
        BookStatus::Analyzing => "analyzing"@,
        BookStatus::Completed => "completed"@,
        BookStatus::Error(msg) => "error:"@ + msg@,
    }
}

/// The text of a book status.
pub fn format_status(status: &BookStatus) -> (res: String)
    ensures
        res@ == status_text(*status),
{
    match status {
        BookStatus::Importing => String::from_str("importing"),
        BookStatus::Ready => String::from_str("ready"),
        BookStatus::Analyzing => String::from_str("analyzing"),
        BookStatus::Completed => String::from_str("completed"),
        BookStatus::Error(msg) => {
            let mut v = chars_of("error:");
            let m = chars_of(msg.as_str());
            append_chars(&mut v, m.as_slice());
            string_of(&v)
        },
    }
}

/// A book as the library lists it.
pub struct BookInfo {
    pub id: String,
    pub title: String,
    pub author: Option<String>,
    pub cover_path: Option<String>,
    pub total_chapters: u32,
    pub analyzed_chapters: u32,
    pub status: String,
    pub created_at: String,
    pub updated_at: String,
}

impl BookInfo {
    /// The listing of a book: its fields, its status as text and its times in RFC 3339.
    pub fn from(book: Book) -> (res: Self)
        ensures
            res.id@ == book.id.0@,
            res.title@ == book.title@,
            res.author == book.author,
            res.cover_path == book.cover_path,
            res.total_chapters == book.total_chapters,
            res.analyzed_chapters == book.analyzed_chapters,
            res.status@ == status_text(book.status),
            res.created_at@ == rfc3339_or_empty(book.created_at),
            res.updated_at@ == rfc3339_or_empty(book.updated_at),
    {
        let status = format_status(&book.status);
        let created_at = format_rfc3339(book.created_at);
        let updated_at = format_rfc3339(book.updated_at);
        BookInfo {
            id: book.id.to_string(),
            title: book.title,
            author: book.author,
            cover_path: book.cover_path,
            total_chapters: book.total_chapters,
            analyzed_chapters: book.analyzed_chapters,
            status,
            created_at,
            updated_at,
        }
    }
}

/// A chapter as the library lists it.
pub struct ChapterInfo {
    pub id: String,
    pub index: u32,
    pub title: Option<String>,
    pub char_count: u32,
    pub analyzed: bool,
}

/// A chapter in an import preview.
pub struct ChapterPreviewInfo {
    pub index: u32,
    pub title: Option<String>,
    pub char_count: u32,
    pub preview: String,
}

/// An import preview as shown before importing.
pub struct ImportPreviewInfo {
    pub title: String,
    pub author: Option<String>,
    pub chapter_count: u32,
    pub total_chars: u32,
    pub encoding: String,
    pub chapters: Vec<ChapterPreviewInfo>,
}

/// The outcome of an import.
pub struct ImportResultInfo {
    pub book: BookInfo,
    pub chapter_count: u32,
    pub total_chars: u32,
    pub encoding: String,
}

/// Counts over the whole library.
pub struct LibraryStats {
    pub total_books: u32,
    pub total_chapters: u32,
    pub total_words: u32,
}

/// `info` shows the chapter preview `c`.
pub open spec fn shows_chapter(info: ChapterPreviewInfo, c: ChapterPreview) -> bool {
    &&& info.index == c.index
    &&& info.title == c.title
    &&& info.char_count == c.char_count
    &&& info.preview == c.preview
}

impl ImportPreviewInfo {
    /// The preview as shown: the same fields, chapter by chapter.
    pub fn from_preview(preview: ImportPreview) -> (res: Self)
        ensures
            res.title == preview.title,
            res.author == preview.author,
            res.chapter_count == preview.chapter_count,
            res.total_chars == preview.total_chars,
            res.encoding == preview.encoding_detected,
            res.chapters@.len() == preview.chapters@.len(),
            forall|i: int|
                0 <= i < res.chapters@.len() ==> shows_chapter(
                    #[trigger] res.chapters@[i],
                    preview.chapters@[i],
                ),
    {
        let ImportPreview {
            title,
            author,
            chapter_count,
            total_chars,
            encoding_detected,
            chapters,
        } = preview;
        let ghost orig = chapters@;
        let mut out: Vec<ChapterPreviewInfo> = Vec::new();
        for c in it: chapters
            invariant
                it.seq() == orig,
                out@.len() == it.index(),
                forall|i: int| 0 <= i < out@.len() ==> shows_chapter(#[trigger] out@[i], orig[i]),
        {
            out.push(
                ChapterPreviewInfo {
                    index: c.index,
                    title: c.title,
                    char_count: c.char_count,
                    preview: c.preview,
                },
            );
        }
        ImportPreviewInfo {
            title,
            author,
            chapter_count,
            total_chars,
            encoding: encoding_detected,
            chapters: out,
        }
    }
}

/// The sum of the counts.
pub open spec fn sum_u32(v: Seq<u32>) -> nat
    decreases v.len(),
{
    if v.len() == 0 {
        0
    } else {
        sum_u32(v.drop_last()) + v.last() as nat
    }
}

/// The sum of the counts of the second list, as 64 bits.
pub open spec fn sum_u64(v: Seq<u64>) -> nat
    decreases v.len(),
{
    if v.len() == 0 {
        0
    } else {
        sum_u64(v.drop_last()) + v.last() as nat
    }
}

/// The library statistics from the chapter counts of its books and the character
/// counts of all their chapters: the number of books, the sum of the chapter counts,
/// and the sum of the character counts cut to 32 bits.
pub fn library_stats(book_chapter_counts: &[u32], chapter_char_counts: &[u32]) -> (res:
    LibraryStats)
    requires
        book_chapter_counts@.len() <= u32::MAX,
        sum_u32(book_chapter_counts@) <= u32::MAX,
    ensures
        res.total_books == book_chapter_counts@.len(),
        res.total_chapters == sum_u32(book_chapter_counts@),
        res.total_words == (sum_u32(chapter_char_counts@) % 0x1_0000_0000),
{
    let mut total_chapters: u32 = 0;
    let mut i: usize = 0;
    while i < book_chapter_counts.len()
        invariant
            i <= book_chapter_counts@.len(),
            sum_u32(book_chapter_counts@) <= u32::MAX,
            total_chapters == sum_u32(book_chapter_counts@.take(i as int)),
        decreases book_chapter_counts.len() - i,
    {
        proof {
            assert(book_chapter_counts@.take(i + 1).drop_last() == book_chapter_counts@.take(
                i as int,
            ));
            lemma_sum_prefix(book_chapter_counts@, i + 1);
        }
        total_chapters = total_chapters + book_chapter_counts[i];
        i = i + 1;
    }
    assert(book_chapter_counts@.take(i as int) == book_chapter_counts@);
    let mut total_words: u128 = 0;
    let mut j: usize = 0;
    let len = chapter_char_counts.len();
    while j < len
        invariant
            j <= chapter_char_counts@.len(),
            chapter_char_counts@.len() == len,
            total_words == sum_u32(chapter_char_counts@.take(j as int)),
            total_words <= j * 0xFFFF_FFFFnat,
        decreases len - j,
    {
        proof {
            assert(chapter_char_counts@.take(j + 1).drop_last() == chapter_char_counts@.take(
                j as int,
            ));
        }
        total_words = total_words + chapter_char_counts[j] as u128;
        j = j + 1;
    }
    assert(chapter_char_counts@.take(j as int) == chapter_char_counts@);
    let words = (total_words % 0x1_0000_0000) as u32;
    LibraryStats { total_books: book_chapter_counts.len() as u32, total_chapters, total_words: words }
}

/// A prefix of a list sums to no more than the list.
proof fn lemma_sum_prefix(v: Seq<u32>, k: int)
    requires
        0 <= k <= v.len(),
    ensures
        sum_u32(v.take(k)) <= sum_u32(v),
    decreases v.len() - k,
{
    if k < v.len() {
        lemma_sum_prefix(v, k + 1);
        assert(v.take(k + 1).drop_last() == v.take(k));
    } else {
        assert(v.take(k) == v);
    }
}

// ---------------------------------------------------------------------------
// Covers as data URLs
// ---------------------------------------------------------------------------

/// The base64 digit of a six-bit value (standard alphabet).
pub open spec fn b64_digit(v: int) -> char {
    if v < 26 {
        (v + 65) as char
    } else if v < 52 {
        (v - 26 + 97) as char
    } else if v < 62 {
        (v - 52 + 48) as char
    } else if v == 62 {
        '+'
    } else {
        '/'
    }
}

/// Standard base64 with padding: each three bytes as four digits, a last one or two
/// bytes as two or three digits and `=` to fill four.
pub open spec fn base64_of(d: Seq<u8>) -> Seq<char>
    decreases d.len(),
{
    if d.len() == 0 {
        Seq::<char>::empty()
    } else if d.len() == 1 {
        let n = d[0] as int * 65536;
        seq![b64_digit(n / 262144), b64_digit((n / 4096) % 64), '=', '=']
    } else if d.len() == 2 {
        let n = d[0] as int * 65536 + d[1] as int * 256;
        seq![b64_digit(n / 262144), b64_digit((n / 4096) % 64), b64_digit((n / 64) % 64), '=']
    } else {
        let n = d[0] as int * 65536 + d[1] as int * 256 + d[2] as int;
        seq![b64_digit(n / 262144), b64_digit((n / 4096) % 64), b64_digit((n / 64) % 64), b64_digit(n % 64)]
            + base64_of(d.skip(3))
    }
}

/// The length of the standard base64 text of `n` bytes fits in `usize`.
pub open spec fn base64_fits(n: nat) -> bool {
    (n / 3) * 4 + (if n % 3 == 0 {
        0int
    } else {
        4int
    }) <= usize::MAX
}

/// `base64`'s standard engine (`STANDARD.encode`, the standard alphabet with padding):
/// the contract states the encoding of the bytes; the engine panics where the length
/// of the text would not fit in `usize`, which `requires` leaves out.
#[verifier::external_body]
fn base64_standard(data: &[u8]) -> (res: String)
    requires
        base64_fits(data@.len()),
    ensures
        res@ == base64_of(data@),
{
    base64::Engine::encode(&base64::engine::general_purpose::STANDARD, data)
}

/// The MIME type of a cover image by its file extension (PNG where unknown).
pub open spec fn cover_mime(ext: Seq<char>) -> Seq<char> {
    if ext == "jpg"@ || ext == "jpeg"@ {
        "image/jpeg"@
    } else if ext == "png"@ {
        "image/png"@
    } else if ext == "gif"@ {
        "image/gif"@
    } else if ext == "webp"@ {
        "image/webp"@
    } else {
        "image/png"@
    }
}

fn cover_mime_of(ext: &str) -> (res: &'static str)
    ensures
        res@ == cover_mime(ext@),
{
    if crate::text::str_eq(ext, "jpg") || crate::text::str_eq(ext, "jpeg") {
        "image/jpeg"
    } else if crate::text::str_eq(ext, "png") {
        "image/png"
    } else if crate::text::str_eq(ext, "gif") {
        "image/gif"
    } else if crate::text::str_eq(ext, "webp") {
        "image/webp"
    } else {
        "image/png"
    }
}

/// The file extension a cover is stored under, by its MIME type (`bin` where unknown).
pub open spec fn cover_extension_of(mime: Seq<char>) -> Seq<char> {
    if mime == "image/png"@ {
        "png"@
    } else if mime == "image/jpeg"@ {
        "jpg"@
    } else if mime == "image/gif"@ {
        "gif"@
    } else if mime == "image/webp"@ {
        "webp"@
    } else {
        "bin"@
    }
}

/// The file extension under which an imported book's cover is stored.
pub fn cover_extension(mime: &str) -> (res: &'static str)
    ensures
        res@ == cover_extension_of(mime@),
{
    if crate::text::str_eq(mime, "image/png") {
        "png"
    } else if crate::text::str_eq(mime, "image/jpeg") {
        "jpg"
    } else if crate::text::str_eq(mime, "image/gif") {
        "gif"
    } else if crate::text::str_eq(mime, "image/webp") {
        "webp"
    } else {
        "bin"
    }
}

/// A cover image as a data URL: its MIME type by its file extension (`png` where it
/// has none), and its bytes in standard base64.
pub fn cover_data_url(data: &[u8], extension: Option<&str>) -> (res: String)
    requires
        base64_fits(data@.len()),
    ensures
        res@ == "data:"@ + cover_mime(
            match extension {
                Some(e) => e@,
                None => "png"@,
            },
        ) + ";base64,"@ + base64_of(data@),
{
    let ext = match extension {
        Some(e) => e,
        None => "png",
    };
    let mime = cover_mime_of(ext);
    let encoded = base64_standard(data);
    let mut v = crate::text::chars_of("data:");
    crate::text::append_chars(&mut v, crate::text::chars_of(mime).as_slice());
    crate::text::append_chars(&mut v, crate::text::chars_of(";base64,").as_slice());
    crate::text::append_chars(&mut v, crate::text::chars_of(encoded.as_str()).as_slice());
    crate::text::string_of(v.as_slice())
}

} // verus!
