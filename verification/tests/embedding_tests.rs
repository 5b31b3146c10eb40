use narrative_loom::embedding_task::chunk_text_for_embedding;
use narrative_loom::model::ChapterId;

#[test]
fn test_chunk_text_short() {
    let content = "第一段内容。\n\n第二段内容。";
    let chapter_id = ChapterId::from_string("ch-1".to_string());
    let chunks = chunk_text_for_embedding(content, &chapter_id, 1);

    assert_eq!(chunks.len(), 1);
    assert!(chunks[0].content.contains("第一段"));
    assert!(chunks[0].content.contains("第二段"));
}

#[test]
fn test_chunk_text_long() {
    let long_para = "这是一个很长的段落。".repeat(100);
    let content = format!("{}\n\n{}", long_para, long_para);
    let chapter_id = ChapterId::from_string("ch-1".to_string());
    let chunks = chunk_text_for_embedding(&content, &chapter_id, 1);

    assert!(chunks.len() >= 2);
}
