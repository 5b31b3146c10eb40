use narrative_loom::ingestion::{ChapterPreview, ImportPreview};
use narrative_loom::library::{format_status, library_stats, BookInfo, ImportPreviewInfo};
use narrative_loom::clock::Timestamp;
use narrative_loom::model::{Book, BookId, BookStatus};

#[test]
fn status_texts() {
    assert_eq!(format_status(&BookStatus::Importing), "importing");
    assert_eq!(format_status(&BookStatus::Ready), "ready");
    assert_eq!(format_status(&BookStatus::Analyzing), "analyzing");
    assert_eq!(format_status(&BookStatus::Completed), "completed");
    assert_eq!(format_status(&BookStatus::Error("disk full".to_string())), "error:disk full");
}

#[test]
fn book_info_from_book() {
    let book = Book {
        id: BookId::from_string("b1".to_string()),
        title: "书名".to_string(),
        author: Some("作者".to_string()),
        cover_path: None,
        total_chapters: 12,
        analyzed_chapters: 3,
        created_at: Timestamp { secs: 0, nanos: 0 },
        updated_at: Timestamp { secs: 1, nanos: 500_000_000 },
        status: BookStatus::Ready,
    };
    let info = BookInfo::from(book);
    assert_eq!(info.id, "b1");
    assert_eq!(info.title, "书名");
    assert_eq!(info.author, Some("作者".to_string()));
    assert_eq!(info.total_chapters, 12);
    assert_eq!(info.analyzed_chapters, 3);
    assert_eq!(info.status, "ready");
    assert_eq!(info.created_at, "1970-01-01T00:00:00+00:00");
    assert_eq!(info.updated_at, "1970-01-01T00:00:01.500+00:00");
}

#[test]
fn new_book_is_importing() {
    let book = Book::new("T".to_string(), None);
    assert_eq!(book.id.as_str().len(), 36);
    assert_eq!(book.created_at, book.updated_at);
    assert!(matches!(book.status, BookStatus::Importing));
    assert_eq!(book.total_chapters, 0);
}

#[test]
fn preview_info_copies_chapters() {
    let preview = ImportPreview {
        title: "T".to_string(),
        author: None,
        chapter_count: 1,
        total_chars: 5,
        encoding_detected: "utf-8".to_string(),
        chapters: vec![ChapterPreview {
            index: 1,
            title: Some("第一章".to_string()),
            char_count: 5,
            preview: "abcde".to_string(),
        }],
    };
    let info = ImportPreviewInfo::from_preview(preview);
    assert_eq!(info.encoding, "utf-8");
    assert_eq!(info.chapters.len(), 1);
    assert_eq!(info.chapters[0].preview, "abcde");
    assert_eq!(info.chapters[0].title, Some("第一章".to_string()));
}

#[test]
fn stats_over_books() {
    let s = library_stats(&[3, 4], &[100, 200, u32::MAX, 1]);
    assert_eq!(s.total_books, 2);
    assert_eq!(s.total_chapters, 7);
    assert_eq!(s.total_words, 300);
}

#[test]
fn covers_as_data_urls() {
    assert_eq!(narrative_loom::library::cover_data_url(b"Man", Some("jpg")), "data:image/jpeg;base64,TWFu");
    assert_eq!(narrative_loom::library::cover_data_url(b"Ma", None), "data:image/png;base64,TWE=");
    assert_eq!(narrative_loom::library::cover_data_url(b"M", Some("webp")), "data:image/webp;base64,TQ==");
    assert_eq!(narrative_loom::library::cover_data_url(&[0xfb, 0xff], Some("bmp")), "data:image/png;base64,+/8=");
    assert_eq!(narrative_loom::library::cover_data_url(b"", Some("gif")), "data:image/gif;base64,");
}
