use narrative_loom::segmentation::{
    extract_chapter_number, is_likely_chapter_title, parse_chinese_number, segment_chapters,
};

#[test]
fn test_segment_chapters_basic() {
    let content = r#"
第一章 开始

这是第一章的内容。

第二章 发展

这是第二章的内容。
"#;

    let chapters = segment_chapters(content);
    assert_eq!(chapters.len(), 2);
    assert_eq!(chapters[0].title, Some("第一章 开始".to_string()));
    assert_eq!(chapters[1].title, Some("第二章 发展".to_string()));
}

#[test]
fn test_segment_with_preface() {
    let content = r#"
这是一本小说的简介，内容比较长，超过一百个字符。
这里有很多内容作为前言部分，需要被单独识别出来。
还有更多的介绍文字，确保字符数超过阈值。

第一章 正文开始

这是正文内容。
"#;

    let chapters = segment_chapters(content);
    assert!(!chapters.is_empty());
}

#[test]
fn test_is_likely_chapter_title() {
    assert!(is_likely_chapter_title("第一章 开始"));
    assert!(is_likely_chapter_title("Chapter 1: Beginning"));
    assert!(is_likely_chapter_title("楔子"));
    assert!(is_likely_chapter_title("1. 第一节"));
    assert!(!is_likely_chapter_title("这是一段普通的文字，不是章节标题"));
}

#[test]
fn test_parse_chinese_number() {
    assert_eq!(parse_chinese_number("一"), Some(1));
    assert_eq!(parse_chinese_number("十"), Some(10));
    assert_eq!(parse_chinese_number("十一"), Some(11));
    assert_eq!(parse_chinese_number("二十"), Some(20));
    assert_eq!(parse_chinese_number("二十三"), Some(23));
    assert_eq!(parse_chinese_number("一百"), Some(100));
    assert_eq!(parse_chinese_number("一百二十三"), Some(123));
    assert_eq!(parse_chinese_number("123"), Some(123));
}

#[test]
fn test_fallback_segmentation() {
    let content = "这是一段没有章节标记的短文。\n\n另一段内容。";
    let chapters = segment_chapters(content);
    assert_eq!(chapters.len(), 1);
}

#[test]
fn test_extract_chapter_number() {
    assert_eq!(extract_chapter_number("第一章 开始"), Some(1));
    assert_eq!(extract_chapter_number("第十二章 发展"), Some(12));
    assert_eq!(extract_chapter_number("第一百章 高潮"), Some(100));
    assert_eq!(extract_chapter_number("Chapter 5"), Some(5));
    assert_eq!(extract_chapter_number("3. 第三节"), Some(3));
}
