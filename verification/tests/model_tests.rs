use narrative_loom::model::{CardStatus, Chunk, ChunkId, ChunkType, ProviderConfig, ApiFormat};
use std::collections::HashMap;

#[test]
fn card_status_names() {
    for s in [CardStatus::Pending, CardStatus::Accepted, CardStatus::Rejected, CardStatus::Merged] {
        assert_eq!(CardStatus::parse(s.as_str()), Some(s));
    }
    assert_eq!(CardStatus::parse("unknown"), None);
}

#[test]
fn chunk_type_names() {
    for t in [ChunkType::Paragraph, ChunkType::EntityDescription, ChunkType::EventSummary, ChunkType::RelationshipNote] {
        assert_eq!(ChunkType::from_str(t.as_str()), Some(t));
    }
    assert_eq!(ChunkType::EntityDescription.as_str(), "entity");
}

#[test]
fn chunks_made_fresh() {
    let c = Chunk::new_paragraph("ch".to_string(), 2, "text".to_string(), 5, 9);
    assert_eq!(c.id.0.len(), 36);
    assert_eq!(c.chunk_index, 2);
    assert_eq!(c.chunk_type, ChunkType::Paragraph);
    assert_eq!(c.created_at, c.updated_at);
    assert!(c.metadata.entities_mentioned.is_empty());
    let c = c.with_entities(vec!["e".to_string()]);
    assert_eq!(c.metadata.entities_mentioned, vec!["e".to_string()]);
    assert_eq!(c.char_end, 9);
    let e = Chunk::new_entity("ch".to_string(), "ent".to_string(), "desc".to_string());
    assert_eq!(e.chunk_type, ChunkType::EntityDescription);
    assert_eq!(e.metadata.entities_mentioned, vec!["ent".to_string()]);
    assert_ne!(ChunkId::new(), ChunkId::new());
}

#[test]
fn provider_url_joins_without_double_slash() {
    let p = ProviderConfig {
        id: "p".to_string(),
        name: "P".to_string(),
        enabled: true,
        base_url: "https://api.example.com///".to_string(),
        api_format: ApiFormat::OpenAI,
        path_override: None,
        api_key_ref: "k".to_string(),
        default_model: "m".to_string(),
        available_models: vec![],
        headers: HashMap::new(),
        timeout_ms: 1000,
        max_retries: 1,
    };
    assert_eq!(p.build_url(), "https://api.example.com/v1/chat/completions");
}
