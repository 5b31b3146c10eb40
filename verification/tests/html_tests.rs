use narrative_loom::html::{extract_chapter_title, html_plain_text, html_to_text, page_chapter_segment};

#[test]
fn html_paragraphs_become_lines() {
    assert_eq!(html_to_text("<p>Hello</p><p>World</p>"), "Hello\n\nWorld");
}

#[test]
fn html_script_content_is_skipped() {
    assert_eq!(html_to_text("<div>A<script>var x = '<b>';</script>B</div>"), "AB");
}

#[test]
fn html_nested_skipped_elements() {
    assert_eq!(
        html_to_text("<p>x</p><svg><svg><g/></svg>hidden</svg><p>y</p>"),
        "x\n\ny"
    );
}

#[test]
fn html_entities_and_spaces() {
    assert_eq!(html_to_text("<p>a&amp;b   c\t\td</p>"), "a&b c d");
}

#[test]
fn html_many_blank_lines_collapse() {
    assert_eq!(html_to_text("<p>a</p><p></p><p></p><p>b</p>"), "a\n\nb");
}

#[test]
fn html_head_and_title_skipped() {
    assert_eq!(
        html_to_text("<html><head><title>T</title></head><body><p>Text</p></body></html>"),
        "Text"
    );
}

#[test]
fn html_checked_form() {
    assert_eq!(html_plain_text("<br/>x"), Some("x".to_string()));
}

#[test]
fn chapter_title_from_text_heading() {
    let html = "<p>第一章 开始</p><p>内容很长很长很长</p>";
    let text = html_to_text(html);
    assert_eq!(extract_chapter_title(html, &text), Some("第一章 开始".to_string()));
}

#[test]
fn chapter_title_from_h1() {
    let html = "<h1>Prologue</h1><p>content</p>";
    let text = html_to_text(html);
    assert_eq!(extract_chapter_title(html, &text), Some("Prologue".to_string()));
}

#[test]
fn chapter_title_absent() {
    let html = "<p>just some words</p>";
    let text = html_to_text(html);
    assert_eq!(extract_chapter_title(html, &text), None);
}

#[test]
fn page_segment_takes_title_off() {
    let seg = page_chapter_segment("<h1>第二章 雨夜</h1><p>他推开了门，走进了雨里。</p>", 4).unwrap();
    assert_eq!(seg.index, 4);
    assert_eq!(seg.title, Some("第二章 雨夜".to_string()));
    assert_eq!(seg.content, "他推开了门，走进了雨里。");
    assert_eq!(seg.char_count, 12);
}

#[test]
fn page_segment_skips_short_pages() {
    assert!(page_chapter_segment("<p>短</p>", 0).is_none());
}
