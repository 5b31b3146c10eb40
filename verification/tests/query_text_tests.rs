use narrative_loom::card_merge::{merge_card_into_setting, SettingCard, SettingFields};
use narrative_loom::context_builder::{
    build_keyword_query, select_context_entities, split_content_for_query,
};
use narrative_loom::embedding::{
    build_entity_description, current_embedding_signature, EmbeddingProviderType, EntityType,
};
use narrative_loom::model::ApiFormat;
use narrative_loom::segmentation::count_content_chars;

fn s(x: &str) -> String {
    x.to_string()
}

#[test]
fn keyword_query_takes_first_three_nonblank_lines() {
    let q = build_keyword_query("  林冲夜奔  \n\n风雪山神庙\n   \n火烧草料场\n第四行");
    assert_eq!(q, "林冲夜奔 风雪山神庙 火烧草料场");
}

#[test]
fn keyword_query_is_cut_at_240_chars() {
    let line = "字".repeat(300);
    let q = build_keyword_query(&line);
    assert_eq!(q.chars().count(), 240);
    assert_eq!(build_keyword_query(""), "");
}

#[test]
fn query_split_small_and_empty() {
    assert!(split_content_for_query("").is_empty());
    assert_eq!(split_content_for_query("短文本。"), vec![s("短文本。")]);
}

#[test]
fn query_split_prefers_paragraph_breaks() {
    let first = "甲".repeat(1000);
    let second = "乙".repeat(1000);
    let content = format!("{}\n\n{}", first, second);
    let chunks = split_content_for_query(&content);
    assert_eq!(chunks.len(), 2);
    assert_eq!(chunks[0], format!("{}\n\n", first));
    assert_eq!(chunks[1], second);
    assert_eq!(chunks.concat(), content);
}

#[test]
fn query_split_falls_back_to_sentence_end() {
    let first = format!("{}。", "甲".repeat(1199));
    let second = "乙".repeat(1000);
    let content = format!("{}{}", first, second);
    let chunks = split_content_for_query(&content);
    assert_eq!(chunks.len(), 2);
    assert_eq!(chunks[0], first);
    assert_eq!(chunks[1], second);
}

#[test]
fn entity_descriptions() {
    assert_eq!(
        build_entity_description(&EntityType::Character, "林冲", Some("禁军教头"), Some("豹子头")),
        "[人物] 林冲: 禁军教头 | 豹子头"
    );
    assert_eq!(build_entity_description(&EntityType::Setting, "梁山", Some(""), None), "[设定] 梁山");
    assert_eq!(build_entity_description(&EntityType::Event, "智取生辰纲", None, Some("第十六回")), "[事件] 智取生辰纲 | 第十六回");
}

#[test]
fn embedding_signatures() {
    let d = current_embedding_signature(&EmbeddingProviderType::Disabled, "x", Some(10));
    assert_eq!((d.provider.as_str(), d.model.as_str(), d.dimensions), ("disabled", "", None));
    let o = current_embedding_signature(&EmbeddingProviderType::OpenAI, "  ", None);
    assert_eq!((o.provider.as_str(), o.model.as_str(), o.dimensions), ("openai", "text-embedding-3-small", Some(1536)));
    let g = current_embedding_signature(&EmbeddingProviderType::Gemini, "custom-model", None);
    assert_eq!((g.provider.as_str(), g.model.as_str(), g.dimensions), ("gemini", "custom-model", None));
    let g2 = current_embedding_signature(&EmbeddingProviderType::Gemini, "", Some(256));
    assert_eq!((g2.model.as_str(), g2.dimensions), ("text-embedding-004", Some(256)));
}

#[test]
fn python_format_names() {
    assert_eq!(ApiFormat::OpenAI.to_python_format(), "openai");
    assert_eq!(ApiFormat::ChatCompletions.to_python_format(), "openai");
    assert_eq!(ApiFormat::Responses.to_python_format(), "openai");
    assert_eq!(ApiFormat::Responses.default_path(), "/v1/chat/completions");
    assert_eq!(ApiFormat::Anthropic.to_python_format(), "anthropic");
    assert_eq!(ApiFormat::Ollama.to_python_format(), "ollama");
}

#[test]
fn content_chars_skip_whitespace() {
    assert_eq!(count_content_chars(" 第一章\n\t开始 "), 5);
    assert_eq!(count_content_chars("   \n"), 0);
}

#[test]
fn merging_a_card_into_a_setting() {
    let existing = SettingFields {
        name: s("梁山"),
        setting_type: s("location"),
        description: Some(s("水泊")),
        properties: Some(vec![(s("首领"), s("\"王伦\""))]),
        evidence: vec![s("a")],
    };
    let card = SettingCard {
        title: s("梁山泊"),
        name: None,
        description: Some(s("八百里")),
        setting_type: Some(s("faction")),
        properties: Some(vec![(s("首领"), s("\"晁盖\"")), (s("位置"), s("\"山东\""))]),
        evidence: vec![s("a"), s("b")],
    };
    let appended = merge_card_into_setting(&existing, &card, &None);
    assert_eq!(appended.name, "梁山");
    assert_eq!(appended.setting_type, "location");
    assert_eq!(appended.description.as_deref(), Some("水泊\n\n八百里"));
    assert_eq!(appended.properties, Some(vec![(s("首领"), s("\"王伦\"")), (s("位置"), s("\"山东\""))]));
    assert_eq!(appended.evidence, vec![s("a"), s("b")]);
    let replaced = merge_card_into_setting(&existing, &card, &Some(s("replace")));
    assert_eq!(replaced.description.as_deref(), Some("八百里"));
}

fn entries(xs: &[(&str, &str)]) -> Vec<(String, String)> {
    xs.iter().map(|(a, b)| (s(a), s(b))).collect()
}

#[test]
fn context_entities_relevant_then_newest() {
    let es = entries(&[("c1", "林冲"), ("c2", "鲁智深"), ("c3", "武松"), ("c4", "宋江"), ("c5", "林冲")]);
    assert_eq!(select_context_entities(&es, &vec![s("c2")], 3), vec![1, 4, 3]);
}

#[test]
fn context_entities_relevant_capped() {
    let es = entries(&[("c1", "林冲"), ("c2", "鲁智深"), ("c3", "武松")]);
    assert_eq!(select_context_entities(&es, &vec![s("c3"), s("c1"), s("c2")], 2), vec![0, 1]);
}

#[test]
fn context_entities_without_relevance_use_recent_window() {
    let es = entries(&[("c1", "甲"), ("c2", "乙"), ("c3", "丙"), ("c4", "丁"), ("c5", "戊")]);
    assert_eq!(select_context_entities(&es, &vec![], 2), vec![4, 3]);
    assert_eq!(select_context_entities(&es, &vec![], 0), Vec::<usize>::new());
    assert_eq!(select_context_entities(&es, &vec![s("c5")], 10), vec![4, 3, 2, 1, 0]);
    // A name chosen by relevance is not added twice.
    let dup = entries(&[("a", "林冲"), ("b", "林冲"), ("c", "武松")]);
    assert_eq!(select_context_entities(&dup, &vec![s("a")], 3), vec![0, 2]);
}
