use narrative_loom::epub::{decode_html_entities, detect_image_mime};

#[test]
fn test_decode_html_entities() {
    let text = "&lt;hello&gt; &amp; &quot;world&quot;";
    let decoded = decode_html_entities(text);
    assert_eq!(decoded, "<hello> & \"world\"");
}

#[test]
fn test_detect_image_mime() {
    let png_header = [0x89, 0x50, 0x4E, 0x47, 0x0D, 0x0A, 0x1A, 0x0A];
    assert_eq!(detect_image_mime(&png_header), "image/png");

    let jpeg_header = [0xFF, 0xD8, 0xFF, 0xE0];
    assert_eq!(detect_image_mime(&jpeg_header), "image/jpeg");
}

#[test]
fn resource_paths_normalized() {
    assert_eq!(narrative_loom::epub::normalize_path("../Text/Chapter%201.xhtml"), "text/chapter 1.xhtml");
    assert_eq!(narrative_loom::epub::normalize_path("./../a.html"), "../a.html");
    assert_eq!(narrative_loom::epub::normalize_path("/OEBPS/a.html"), "oebps/a.html");
}

#[test]
fn resources_found_by_path() {
    let resources = vec![
        ("r1".to_string(), "OEBPS/Text/ch1.xhtml".to_string()),
        ("r2".to_string(), "OEBPS/Text/ch2.xhtml".to_string()),
    ];
    assert_eq!(narrative_loom::epub::find_resource_id_by_path(&resources, "Text/ch2.xhtml"), Some("r2".to_string()));
    assert_eq!(narrative_loom::epub::find_resource_id_by_path(&resources, "../other/CH1.XHTML"), Some("r1".to_string()));
    assert_eq!(narrative_loom::epub::find_resource_id_by_path(&resources, "ch3.xhtml"), None);
}

#[test]
fn title_removed_from_content() {
    assert_eq!(narrative_loom::epub::remove_title_from_content("  第一章 开始\n\n正文", "第一章 开始"), "正文");
    assert_eq!(narrative_loom::epub::remove_title_from_content(" 正文 ", "第一章"), "正文");
}

#[test]
fn image_types() {
    assert_eq!(detect_image_mime(b"GIF89a.."), "image/gif");
    assert_eq!(detect_image_mime(b"RIFF\x00\x00\x00\x00WEBPVP8 "), "image/webp");
    assert_eq!(detect_image_mime(b"xx"), "application/octet-stream");
}

#[test]
fn entities_are_decoded_once() {
    assert_eq!(decode_html_entities("&amp;quot;"), "&quot;");
    assert_eq!(decode_html_entities("&amp;lt;b&amp;gt;"), "&lt;b&gt;");
    assert_eq!(decode_html_entities("a&nbsp;b&mdash;c&#8230;&unknown;&"), "a b\u{2014}c\u{2026}&unknown;&");
    assert_eq!(decode_html_entities("&#39;&apos;&ldquo;x&rdquo;"), "''\u{201C}x\u{201D}");
}

#[test]
fn percent_decoding_of_paths() {
    assert_eq!(narrative_loom::epub::normalize_path("Text/%E7%AC%AC1%E7%AB%A0.xhtml"), "text/第1章.xhtml");
    assert_eq!(narrative_loom::epub::normalize_path("a%2Bb+c.xhtml"), "a+b+c.xhtml");
    assert_eq!(narrative_loom::epub::normalize_path("100%.xhtml"), "100%.xhtml");
    assert_eq!(narrative_loom::epub::normalize_path("x%zz%4.xhtml"), "x%zz%4.xhtml");
}
