use narrative_loom::embedding::{chunk_text_simple, chunk_text_with_entities, EmbeddingProviderType, EntityInfo};
use narrative_loom::embedding_task::{
    get_active_embedding_signature, require_compatible_vectors_db, ActiveEmbeddingSignature,
    EmbeddingTaskError, VectorDbEmbeddingSignature,
};

fn expected() -> ActiveEmbeddingSignature {
    ActiveEmbeddingSignature {
        provider: "openai".to_string(),
        model: "text-embedding-3-small".to_string(),
        requested_dimensions: Some(1536),
    }
}

#[test]
fn active_signature() {
    match get_active_embedding_signature(&EmbeddingProviderType::OpenAI, "  ", Some(7)) {
        Ok(s) => {
            assert_eq!(s.provider, "openai");
            assert_eq!(s.model, "text-embedding-3-small");
            assert_eq!(s.requested_dimensions, Some(7));
        }
        Err(_) => panic!("expected a signature"),
    }
    match get_active_embedding_signature(&EmbeddingProviderType::Disabled, "m", None) {
        Err(EmbeddingTaskError::EmbeddingFailed(m)) => assert_eq!(m, "Embedding is disabled in settings"),
        _ => panic!("expected an error"),
    }
}

#[test]
fn vector_store_checks() {
    assert!(matches!(require_compatible_vectors_db(None, 0, &expected()), Ok(None)));
    match require_compatible_vectors_db(None, 3, &expected()) {
        Err(EmbeddingTaskError::EmbeddingFailed(m)) => {
            assert_eq!(m, "Vector DB signature missing (old vectors.db). Please rebuild embeddings.")
        }
        _ => panic!("expected an error"),
    }
    let other = VectorDbEmbeddingSignature { provider: "gemini".to_string(), model: "m".to_string(), dimensions: 768 };
    match require_compatible_vectors_db(Some(other), 3, &expected()) {
        Err(EmbeddingTaskError::EmbeddingFailed(m)) => assert_eq!(
            m,
            "Vector DB embedding signature mismatch. DB uses gemini / m, but settings are openai / text-embedding-3-small. Please rebuild embeddings."
        ),
        _ => panic!("expected an error"),
    }
    let dims = VectorDbEmbeddingSignature {
        provider: "openai".to_string(),
        model: "text-embedding-3-small".to_string(),
        dimensions: 1024,
    };
    match require_compatible_vectors_db(Some(dims), 3, &expected()) {
        Err(EmbeddingTaskError::EmbeddingFailed(m)) => assert_eq!(
            m,
            "Vector DB embedding dimensions mismatch. DB dim=1024, settings dim=1536. Please rebuild embeddings."
        ),
        _ => panic!("expected an error"),
    }
    let same = VectorDbEmbeddingSignature {
        provider: "openai".to_string(),
        model: "text-embedding-3-small".to_string(),
        dimensions: 1536,
    };
    match require_compatible_vectors_db(Some(same), 3, &expected()) {
        Ok(Some(s)) => assert_eq!(s.dimensions, 1536),
        _ => panic!("expected the signature back"),
    }
}

#[test]
fn simple_chunks_merge_short_tail() {
    let a = "甲".repeat(1600);
    let text = format!("{}\n\n短尾", a);
    let chunks = chunk_text_simple(&text, "ch-9");
    assert_eq!(chunks.len(), 1);
    assert_eq!(chunks[0].chapter_id, "ch-9");
    assert_eq!(chunks[0].content, format!("{}\n\n短尾", a));
    assert_eq!(chunks[0].char_start, 0);
    assert_eq!(chunks[0].char_end, 1606);
}

#[test]
fn chunks_tagged_with_entities() {
    let entities = vec![EntityInfo { id: "e1".to_string(), name: "青云山".to_string(), aliases: vec![] }];
    let chunks = chunk_text_with_entities("他上了青云山。", "ch-1", &entities);
    assert_eq!(chunks.len(), 1);
    assert_eq!(chunks[0].metadata.entities_mentioned, vec!["e1".to_string()]);
    assert_eq!(chunks[0].chunk_index, 0);
}
