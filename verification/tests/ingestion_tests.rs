use narrative_loom::ingestion::{epub_preview, source_kind, txt_preview, EpubMetadata, ImportError, ImportOptions, SourceKind};
use narrative_loom::segmentation::ChapterSegment;

fn no_options() -> ImportOptions {
    ImportOptions { title: None, author: None, encoding: None, chapter_pattern: None }
}

#[test]
fn source_kinds() {
    assert!(matches!(source_kind("TXT"), Ok(SourceKind::Txt)));
    assert!(matches!(source_kind("epub"), Ok(SourceKind::Epub)));
    match source_kind("PDF") {
        Err(ImportError::InvalidFormat(m)) => {
            assert_eq!(m, "Unsupported file format: .pdf. Supported formats: .txt, .epub")
        }
        _ => panic!("expected an error"),
    }
}

#[test]
fn txt_preview_of_chapters() {
    let content = "\n第一章 开始\n\n这是第一章的内容。\n\n第二章 发展\n\n这是第二章的内容。\n";
    let p = txt_preview(content, "utf-8".to_string(), Some("小说".to_string()), &no_options());
    assert_eq!(p.title, "小说");
    assert_eq!(p.encoding_detected, "utf-8");
    assert_eq!(p.chapter_count, 2);
    assert_eq!(p.chapters[0].title, Some("第一章 开始".to_string()));
    assert_eq!(p.total_chars, p.chapters[0].char_count + p.chapters[1].char_count);
}

#[test]
fn txt_preview_title_fallback() {
    let p = txt_preview("短文。", "gbk".to_string(), None, &no_options());
    assert_eq!(p.title, "未命名");
    let mut o = no_options();
    o.title = Some("Given".to_string());
    let p = txt_preview("短文。", "gbk".to_string(), Some("stem".to_string()), &o);
    assert_eq!(p.title, "Given");
}

#[test]
fn epub_preview_prefers_options_then_metadata() {
    let meta = EpubMetadata {
        title: Some("Meta Title".to_string()),
        author: Some("Meta Author".to_string()),
        language: None,
        description: None,
        cover_data: None,
        cover_mime_type: None,
    };
    let long = "字".repeat(150);
    let segs = vec![ChapterSegment {
        index: 0,
        title: Some("一".to_string()),
        content: long.clone(),
        char_count: 150,
        start_line: 0,
        parent_title: None,
    }];
    let mut o = no_options();
    o.author = Some("Given Author".to_string());
    let p = epub_preview(meta, segs, Some("stem".to_string()), &o);
    assert_eq!(p.title, "Meta Title");
    assert_eq!(p.author, Some("Given Author".to_string()));
    assert_eq!(p.encoding_detected, "EPUB");
    assert_eq!(p.chapters[0].preview.chars().count(), 100);
    assert_eq!(p.total_chars, 150);
}
