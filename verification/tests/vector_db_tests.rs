use narrative_loom::embedding::CurrentEmbeddingSignatureInfo;
use narrative_loom::embedding_task::{check_entity_dimensions, check_entity_store};
use narrative_loom::embedding_task::{book_incompatibility, vector_db_reason, VectorDbEmbeddingSignature, VectorDbReading};

fn current(dims: Option<u32>) -> CurrentEmbeddingSignatureInfo {
    CurrentEmbeddingSignatureInfo { provider: "openai".to_string(), model: "m".to_string(), dimensions: dims }
}

fn sig(provider: &str, dims: u32) -> VectorDbEmbeddingSignature {
    VectorDbEmbeddingSignature { provider: provider.to_string(), model: "m".to_string(), dimensions: dims }
}

#[test]
fn reasons_for_rebuilding() {
    assert_eq!(vector_db_reason(&None, &current(None)).as_deref(), Some("向量库缺少签名信息（旧版本），需要重建"));
    assert_eq!(
        vector_db_reason(&Some(sig("gemini", 768)), &current(None)).as_deref(),
        Some("签名不一致：向量库为 gemini/m，当前设置为 openai/m")
    );
    assert_eq!(
        vector_db_reason(&Some(sig("openai", 768)), &current(Some(1536))).as_deref(),
        Some("维度不一致：向量库为 768，当前设置为 1536")
    );
    assert_eq!(vector_db_reason(&Some(sig("openai", 768)), &current(None)), None);
}

#[test]
fn books_needing_rebuild() {
    let failed = book_incompatibility("b".to_string(), "书".to_string(), VectorDbReading::Failed("io".to_string()), &current(None)).unwrap();
    assert_eq!(failed.reason, "无法打开 vectors.db: io");
    assert_eq!(failed.embedding_count, 0);
    let empty = VectorDbReading::Opened { chunk_count: 3, embedding_count: 0, signature: None };
    assert!(book_incompatibility("b".to_string(), "书".to_string(), empty, &current(None)).is_none());
    let old = VectorDbReading::Opened { chunk_count: 3, embedding_count: 3, signature: None };
    let info = book_incompatibility("b".to_string(), "书".to_string(), old, &current(None)).unwrap();
    assert_eq!((info.chunk_count, info.embedding_count), (3, 3));
}

#[test]
fn entity_embedding_checks() {
    let disabled = CurrentEmbeddingSignatureInfo { provider: "disabled".to_string(), model: String::new(), dimensions: None };
    assert_eq!(check_entity_store(0, &None, &disabled), Err("Embedding 已禁用，请先在设置中配置 Embedding 服务".to_string()));
    assert_eq!(check_entity_store(5, &None, &current(None)), Err("向量库缺少签名信息（旧版本），请先重建向量库".to_string()));
    assert_eq!(check_entity_store(0, &None, &current(None)), Ok(()));
    assert_eq!(
        check_entity_store(5, &Some(sig("openai", 768)), &current(Some(1536))),
        Err("向量库维度不一致：向量库为 768，当前设置为 1536。请先重建向量库。".to_string())
    );
    assert_eq!(check_entity_dimensions(0, &None, &current(None), 768), Ok(true));
    assert_eq!(check_entity_dimensions(3, &Some(sig("openai", 768)), &current(None), 768), Ok(false));
    assert_eq!(
        check_entity_dimensions(3, &Some(sig("openai", 768)), &current(None), 1536),
        Err("向量维度不一致：向量库为 768，当前 embedding 为 1536。请先重建向量库。".to_string())
    );
    assert_eq!(
        check_entity_dimensions(0, &None, &current(Some(512)), 768),
        Err("Embedding API 返回维度 768，但设置中 dimensions 为 512。请调整 dimensions 并重建向量库。".to_string())
    );
}
