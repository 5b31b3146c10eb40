use narrative_loom::model::{BookId, ChapterId};

#[test]
fn test_book_id_new() {
    let id1 = BookId::new();
    let id2 = BookId::new();
    assert_ne!(id1, id2);
}

#[test]
fn test_id_from_string() {
    let id = BookId::from_string("test-id".to_string());
    assert_eq!(id.as_str(), "test-id");
}

#[test]
fn test_id_display() {
    let id = ChapterId::from_string("chapter-1".to_string());
    assert_eq!(id.to_string(), "chapter-1");
}
