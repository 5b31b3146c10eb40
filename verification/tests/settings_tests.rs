use narrative_loom::embedding::EmbeddingProviderType;
use narrative_loom::settings::{
    build_provider_config_response, embedding_config_status, parse_embedding_provider,
    validate_auto_accept_threshold, validate_provider_config, validate_request_retry_count, EmbeddingProviderSettings,
};

fn settings(model: &str, key_ref: &str, base_url: Option<&str>) -> EmbeddingProviderSettings {
    EmbeddingProviderSettings {
        model: model.to_string(),
        dimensions: Some(1024),
        api_key_ref: key_ref.to_string(),
        base_url: base_url.map(|s| s.to_string()),
        proxy_url: None,
    }
}

#[test]
fn provider_response_hides_missing_key() {
    let s = settings("m", "", None);
    let r = build_provider_config_response(&s, true, Some("sk-***".to_string()));
    assert!(!r.has_api_key);
    assert_eq!(r.masked_api_key, None);
    let s = settings("m", "key-ref", Some("https://x"));
    let r = build_provider_config_response(&s, true, Some("sk-***".to_string()));
    assert!(r.has_api_key);
    assert_eq!(r.masked_api_key, Some("sk-***".to_string()));
    assert_eq!(r.base_url, Some("https://x".to_string()));
    assert_eq!(r.dimensions, Some(1024));
}

#[test]
fn embedding_status_disabled() {
    let st = embedding_config_status(&EmbeddingProviderType::Disabled, &settings("", "", None), false);
    assert!(!st.is_configured);
    assert_eq!(st.provider, "disabled");
    assert_eq!(st.missing, vec!["Embedding 服务".to_string()]);
    assert_eq!(st.message, "请先在设置中配置 Embedding 服务");
}

#[test]
fn embedding_status_missing_parts() {
    let st = embedding_config_status(&EmbeddingProviderType::OpenAI, &settings("", "", Some("")), false);
    assert!(!st.is_configured);
    assert_eq!(st.missing, vec!["API Key".to_string(), "模型".to_string(), "Base URL".to_string()]);
    assert_eq!(st.message, "请先配置: API Key、模型、Base URL");
}

#[test]
fn embedding_status_ready() {
    let st = embedding_config_status(&EmbeddingProviderType::Gemini, &settings("m", "ref", None), true);
    assert!(st.is_configured);
    assert_eq!(st.message, "Embedding 已配置 (gemini)");
}

#[test]
fn provider_names_parse() {
    assert!(matches!(parse_embedding_provider("openai"), Ok(EmbeddingProviderType::OpenAI)));
    assert!(matches!(parse_embedding_provider("disabled"), Ok(EmbeddingProviderType::Disabled)));
    match parse_embedding_provider("other") {
        Err(m) => assert_eq!(m, "Invalid provider: other"),
        Ok(_) => panic!("expected an error"),
    }
}

#[test]
fn threshold_values_checked() {
    for t in ["off", "high", "medium", "low"] {
        assert_eq!(validate_auto_accept_threshold(t), Ok(()));
    }
    assert_eq!(
        validate_auto_accept_threshold("always"),
        Err("Invalid threshold value: always. Valid values: off, high, medium, low".to_string())
    );
}

#[test]
fn retry_count_at_most_ten() {
    assert_eq!(validate_request_retry_count(0), Ok(()));
    assert_eq!(validate_request_retry_count(10), Ok(()));
    assert_eq!(validate_request_retry_count(11), Err("重试次数不能超过 10 次".to_string()));
}

#[test]
fn provider_config_checked() {
    assert_eq!(validate_provider_config("https://api.example.com", "m"), Ok(()));
    let bad_url = Err("Provider base_url cannot be empty or 'unknown'. Please provide a valid URL.".to_string());
    assert_eq!(validate_provider_config("", "m"), bad_url);
    assert_eq!(validate_provider_config("unknown", ""), bad_url);
    assert_eq!(
        validate_provider_config("https://x", ""),
        Err("Provider default_model cannot be empty. Please select a model.".to_string())
    );
}
