use narrative_loom::cooccurrence::{chunk_entity_mentions, entity_cooccurrences};
use narrative_loom::clock::Timestamp;
use narrative_loom::model::{Chunk, ChunkId, ChunkMetadata, ChunkType};

fn chunk(id: &str, chapter: &str, start: u32, entities: &[&str]) -> Chunk {
    Chunk {
        id: ChunkId::from_string(id.to_string()),
        chapter_id: chapter.to_string(),
        chunk_index: 0,
        chunk_type: ChunkType::Paragraph,
        content: String::new(),
        char_start: start,
        char_end: start + 10,
        metadata: ChunkMetadata {
            entities_mentioned: entities.iter().map(|e| e.to_string()).collect(),
            timestamp_marker: None,
        },
        created_at: Timestamp { secs: 0, nanos: 0 },
        updated_at: Timestamp { secs: 0, nanos: 0 },
    }
}

#[test]
fn mentions_skip_chunks_without_entities() {
    let chunks = vec![chunk("k1", "ch1", 0, &["a"]), chunk("k2", "ch1", 10, &[]), chunk("k3", "ch1", 20, &["b", "c"])];
    let ms = chunk_entity_mentions(&chunks);
    assert_eq!(ms.len(), 2);
    assert_eq!((ms[0].chunk_id.as_str(), ms[0].char_start, ms[0].char_end), ("k1", 0, 10));
    assert_eq!(ms[0].entity_ids, vec!["a".to_string()]);
    assert_eq!((ms[1].chunk_id.as_str(), ms[1].char_start), ("k3", 20));
    assert_eq!(ms[1].entity_ids, vec!["b".to_string(), "c".to_string()]);
    assert!(chunk_entity_mentions(&vec![]).is_empty());
}

#[test]
fn cooccurrences_counted_and_ordered() {
    let chunks = vec![
        chunk("k1", "ch1", 0, &["b", "a", "c"]),
        chunk("k2", "ch2", 0, &["a", "b"]),
        chunk("k3", "ch1", 0, &["c"]),
        chunk("k4", "ch2", 0, &["c", "a"]),
    ];
    let pairs = entity_cooccurrences(&chunks);
    let got: Vec<(String, String, u32, Vec<String>)> = pairs
        .into_iter()
        .map(|p| (p.entity1_id, p.entity2_id, p.count, p.chapters))
        .collect();
    let s = |x: &str| x.to_string();
    assert_eq!(
        got,
        vec![
            (s("a"), s("b"), 2, vec![s("ch1"), s("ch2")]),
            (s("a"), s("c"), 2, vec![s("ch1"), s("ch2")]),
            (s("b"), s("c"), 1, vec![s("ch1")]),
        ]
    );
}

#[test]
fn cooccurrences_with_repeated_mentions() {
    let pairs = entity_cooccurrences(&vec![chunk("k1", "ch1", 0, &["a", "b", "a"])]);
    assert_eq!(pairs.len(), 2);
    assert_eq!((pairs[0].entity1_id.as_str(), pairs[0].entity2_id.as_str(), pairs[0].count), ("a", "b", 2));
    assert_eq!(pairs[0].chapters, vec!["ch1".to_string()]);
    assert_eq!((pairs[1].entity1_id.as_str(), pairs[1].entity2_id.as_str(), pairs[1].count), ("a", "a", 1));
    assert!(entity_cooccurrences(&vec![chunk("k1", "ch1", 0, &["solo"])]).is_empty());
}
