use narrative_loom::parser::{clean_text, decode_utf16le, is_valid_utf8, normalize_line_endings};

#[test]
fn test_is_valid_utf8() {
    assert!(is_valid_utf8(b"Hello World"));
    assert!(is_valid_utf8("你好世界".as_bytes()));
    assert!(!is_valid_utf8(&[0xFF, 0xFE, 0x00]));
}

#[test]
fn test_normalize_line_endings() {
    assert_eq!(normalize_line_endings("a\r\nb\rc\n"), "a\nb\nc\n");
}

#[test]
fn test_clean_text() {
    let input = "Line 1\n\n\n\n\nLine 2\n\nLine 3";
    let output = clean_text(input);
    assert!(output.matches('\n').count() <= 4);
}

#[test]
fn test_decode_utf16le() {
    let bytes: Vec<u8> = vec![0x48, 0x00, 0x69, 0x00];
    let result = decode_utf16le(&bytes).unwrap();
    assert_eq!(result, "Hi");
}
