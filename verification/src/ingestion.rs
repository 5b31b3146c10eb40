//! Importing novels: options, errors, and the preview shown before an import.
use vstd::prelude::*;
use crate::model::Book;
use crate::segmentation::{
    combined_pattern_spec, segment_chapters, segment_chapters_with_pattern, segment_plan,
    segments_are, ChapterSegment, TARGET_CHAPTER_SIZE,
};
use crate::text::{append_chars, chars_of, lowercase, slice_to_vec, str_eq, string_of, to_lowercase};

verus! {

/// Why an import failed.
#[derive(Debug)]
pub enum ImportError {
    IoError(String),
    LibraryError(String),
    BookDbError(String),
    FileNotFound(String),
    InvalidFormat(String),
    EpubError(String),
    EncodingError,
    NoChaptersFound,
}

/// Import options.
pub struct ImportOptions {
    /// Override detected title
    pub title: Option<String>,
    /// Override detected author
    pub author: Option<String>,
    /// Force specific encoding (e.g., "utf-8", "gbk")
    pub encoding: Option<String>,
    /// Custom chapter pattern regex
    pub chapter_pattern: Option<String>,
}

/// Import result with statistics.
pub struct ImportResult {
    pub book: Book,
    pub chapter_count: u32,
    pub total_chars: u32,
    pub encoding_detected: String,
}

/// What an EPUB file says of itself.
pub struct EpubMetadata {
    pub title: Option<String>,
    pub author: Option<String>,
    pub language: Option<String>,
    pub description: Option<String>,
    pub cover_data: Option<Vec<u8>>,
    pub cover_mime_type: Option<String>,
}

/// A chapter as the import preview shows it.
pub struct ChapterPreview {
    pub index: u32,
    pub title: Option<String>,
    pub char_count: u32,
    pub preview: String,
}

/// What an import would give.
pub struct ImportPreview {
    pub title: String,
    pub author: Option<String>,
    pub chapter_count: u32,
    pub total_chars: u32,
    pub encoding_detected: String,
    pub chapters: Vec<ChapterPreview>,
}

/// The kinds of files that can be imported.
pub enum SourceKind {
    Txt,
    Epub,
}

/// The message for a file of another kind.
pub open spec fn unsupported_format_message(ext: Seq<char>) -> Seq<char> {
    "Unsupported file format: ."@ + ext + ". Supported formats: .txt, .epub"@
}

/// The kind of file an extension names, compared without case: `.txt` or `.epub`,
/// else an error that names the extension in lower case.
pub fn source_kind(extension: &str) -> (res: Result<SourceKind, ImportError>)
    ensures
        lowercase(extension@) == "txt"@ ==> res matches Ok(SourceKind::Txt),
        lowercase(extension@) == "epub"@ ==> res matches Ok(SourceKind::Epub),
        lowercase(extension@) != "txt"@ && lowercase(extension@) != "epub"@ ==> (res matches Err(
            ImportError::InvalidFormat(m),
        ) && m@ == unsupported_format_message(lowercase(extension@))),
{
    let ext = to_lowercase(extension);
    proof {
        reveal_strlit("txt");
        reveal_strlit("epub");
        assert("txt"@.len() != "epub"@.len());
    }
    if str_eq(ext.as_str(), "txt") {
        Ok(SourceKind::Txt)
    } else if str_eq(ext.as_str(), "epub") {
        Ok(SourceKind::Epub)
    } else {
        let mut m = chars_of("Unsupported file format: .");
        let e = chars_of(ext.as_str());
        append_chars(&mut m, e.as_slice());
        let tail = chars_of(". Supported formats: .txt, .epub");
        append_chars(&mut m, tail.as_slice());
        Err(ImportError::InvalidFormat(string_of(&m)))
    }
}

/// At most the first `n` characters of `s`.
pub open spec fn prefix(s: Seq<char>, n: nat) -> Seq<char> {
    if s.len() <= n {
        s
    } else {
        s.take(n as int)
    }
}

/// `p` previews the segment `s`: its index, title, character count and first 100
/// characters.
pub open spec fn previews_segment(p: ChapterPreview, s: ChapterSegment) -> bool {
    &&& p.index == s.index
    &&& crate::segmentation::opt_view(p.title) == crate::segmentation::opt_view(s.title)
    &&& p.char_count == s.char_count
    &&& p.preview@ == prefix(s.content@, 100)
}

/// The sum of the segments' character counts.
pub open spec fn segments_total(segs: Seq<ChapterSegment>) -> nat
    decreases segs.len(),
{
    if segs.len() == 0 {
        0
    } else {
        segments_total(segs.drop_last()) + segs.last().char_count as nat
    }
}

fn copy_opt(o: &Option<String>) -> (res: Option<String>)
    ensures
        crate::segmentation::opt_view(res) == crate::segmentation::opt_view(*o),
{
    match o {
        Some(s) => Some(String::from_str(s.as_str())),
        None => None,
    }
}

/// The chapter previews of the segments, and the sum of their character counts cut
/// to 32 bits.
pub fn chapter_previews(segments: &Vec<ChapterSegment>) -> (res: (Vec<ChapterPreview>, u32))
    ensures
        res.0@.len() == segments@.len(),
        forall|i: int| 0 <= i < segments@.len() ==> previews_segment(#[trigger] res.0@[i], segments@[i]),
        res.1 == segments_total(segments@) % 0x1_0000_0000,
{
    let mut out: Vec<ChapterPreview> = Vec::new();
    let mut total: u128 = 0;
    let mut i: usize = 0;
    let len = segments.len();
    while i < len
        invariant
            i <= segments@.len(),
            segments@.len() == len,
            out@.len() == i,
            forall|k: int| 0 <= k < i ==> previews_segment(#[trigger] out@[k], segments@[k]),
            total == segments_total(segments@.take(i as int)),
            total <= i * 0xFFFF_FFFFnat,
        decreases len - i,
    {
        let s = &segments[i];
        let c = chars_of(s.content.as_str());
        let n: usize = if c.len() <= 100 {
            c.len()
        } else {
            100
        };
        let p = slice_to_vec(c.as_slice(), 0, n);
        proof {
            if c@.len() <= 100 {
                assert(c@.subrange(0, n as int) == c@);
            }
            assert(segments@.take(i + 1).drop_last() == segments@.take(i as int));
        }
        out.push(
            ChapterPreview {
                index: s.index,
                title: copy_opt(&s.title),
                char_count: s.char_count,
                preview: string_of(&p),
            },
        );
        total = total + s.char_count as u128;
        i = i + 1;
    }
    assert(segments@.take(i as int) == segments@);
    (out, (total % 0x1_0000_0000) as u32)
}

/// The title of an import: the given one, else the file's stem, else 未命名.
pub open spec fn import_title(given: Option<Seq<char>>, stem: Option<Seq<char>>) -> Seq<char> {
    match given {
        Some(t) => t,
        None => match stem {
            Some(s) => s,
            None => "未命名"@,
        },
    }
}

fn title_or_stem(given: Option<String>, stem: Option<String>) -> (res: String)
    ensures
        res@ == import_title(
            crate::segmentation::opt_view(given),
            crate::segmentation::opt_view(stem),
        ),
{
    match given {
        Some(t) => t,
        None => match stem {
            Some(s) => s,
            None => String::from_str("未命名"),
        },
    }
}

/// `p` previews `segments`: its chapters preview them one by one, its counts are the
/// number of segments and the sum of their character counts (both cut to 32 bits).
pub open spec fn previews_segments(p: ImportPreview, segments: Seq<ChapterSegment>) -> bool {
    &&& p.chapter_count == segments.len() % 0x1_0000_0000
    &&& p.total_chars == segments_total(segments) % 0x1_0000_0000
    &&& p.chapters@.len() == segments.len()
    &&& forall|i: int| 0 <= i < segments.len() ==> previews_segment(#[trigger] p.chapters@[i], segments[i])
}

/// The preview of a text file read with `encoding`: its chapters segmented by the
/// given chapter pattern, or else by the default patterns; titled by the option,
/// else the file stem, else 未命名.
pub fn txt_preview(
    content: &str,
    encoding: String,
    file_stem: Option<String>,
    options: &ImportOptions,
) -> (res: ImportPreview)
    requires
        content@.len() + TARGET_CHAPTER_SIZE <= u32::MAX,
    ensures
        res.title@ == import_title(
            crate::segmentation::opt_view(options.title),
            crate::segmentation::opt_view(file_stem),
        ),
        crate::segmentation::opt_view(res.author) == crate::segmentation::opt_view(options.author),
        res.encoding_detected == encoding,
        exists|segs: Seq<ChapterSegment>|
            {
                &&& segments_are(
                    segs,
                    segment_plan(
                        match options.chapter_pattern {
                            Some(p) => p@,
                            None => combined_pattern_spec(),
                        },
                        content@,
                    ),
                )
                &&& previews_segments(res, segs)
            },
{
    let segments = match &options.chapter_pattern {
        Some(p) => segment_chapters_with_pattern(content, p.as_str()),
        None => segment_chapters(content),
    };
    let (chapters, total) = chapter_previews(&segments);
    let title = title_or_stem(copy_opt(&options.title), file_stem);
    let n = segments.len();
    let res = ImportPreview {
        title,
        author: copy_opt(&options.author),
        chapter_count: ((n as u64) % 0x1_0000_0000) as u32,
        total_chars: total,
        encoding_detected: encoding,
        chapters,
    };
    proof {
        assert(previews_segments(res, segments@));
    }
    res
}

/// The preview of an EPUB file from its metadata and chapters: titled by the option,
/// else the file's own title, else the file stem, else 未命名; the author from the
/// option, else the file; the encoding shown as `EPUB`.
pub fn epub_preview(
    metadata: EpubMetadata,
    segments: Vec<ChapterSegment>,
    file_stem: Option<String>,
    options: &ImportOptions,
) -> (res: ImportPreview)
    ensures
        res.title@ == import_title(
            match crate::segmentation::opt_view(options.title) {
                Some(t) => Some(t),
                None => crate::segmentation::opt_view(metadata.title),
            },
            crate::segmentation::opt_view(file_stem),
        ),
        crate::segmentation::opt_view(res.author) == match crate::segmentation::opt_view(
            options.author,
        ) {
            Some(a) => Some(a),
            None => crate::segmentation::opt_view(metadata.author),
        },
        res.encoding_detected@ == "EPUB"@,
        previews_segments(res, segments@),
{
    let given = match &options.title {
        Some(t) => Some(String::from_str(t.as_str())),
        None => metadata.title,
    };
    let author = match &options.author {
        Some(a) => Some(String::from_str(a.as_str())),
        None => metadata.author,
    };
    let (chapters, total) = chapter_previews(&segments);
    let title = title_or_stem(given, file_stem);
    let n = segments.len();
    ImportPreview {
        title,
        author,
        chapter_count: ((n as u64) % 0x1_0000_0000) as u32,
        total_chars: total,
        encoding_detected: String::from_str("EPUB"),
        chapters,
    }
}

} // verus!
