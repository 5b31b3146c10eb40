use narrative_loom::context_builder::{
    apply_entity_coverage_quota, format_context_for_prompt, AnalysisContext, CharacterSummary,
    EntityRecallTuning, EventSummary, PassageSummary, RankedEntities, SettingSummary,
};

#[test]
fn test_recall_tuning_defaults() {
    let tuning = EntityRecallTuning::default();
    assert_eq!(tuning.candidate_chunks_per_query, 60);
    assert_eq!(tuning.max_passages, 12);
    assert_eq!(tuning.min_character_coverage, 8);
    assert_eq!(tuning.min_setting_coverage, 6);
    assert_eq!(tuning.min_event_coverage, 6);
}

#[test]
fn test_coverage_rerank_keeps_minimum_per_type() {
    let ranked = RankedEntities {
        characters: (0..10)
            .map(|i| CharacterSummary {
                name: format!("角色{i}"),
                aliases: vec![],
                description: None,
                role: "support".to_string(),
            })
            .collect(),
        settings: (0..8)
            .map(|i| SettingSummary {
                name: format!("地点{i}"),
                description: None,
                location_type: Some("location".to_string()),
            })
            .collect(),
        events: (0..7)
            .map(|i| EventSummary {
                title: format!("事件{i}"),
                description: None,
                chapter_index: Some(i),
            })
            .collect(),
    };

    let result = apply_entity_coverage_quota(ranked, &EntityRecallTuning::default());
    assert!(result.characters.len() >= 8);
    assert!(result.settings.len() >= 6);
    assert!(result.events.len() >= 6);
}

#[test]
fn test_prompt_budget_prioritizes_entity_summaries_before_passages() {
    let ctx = AnalysisContext {
        known_characters: (0..120)
            .map(|i| CharacterSummary {
                name: format!("角色{i}"),
                aliases: vec![],
                description: Some("非常详细的角色背景描述".repeat(4)),
                role: "support".to_string(),
            })
            .collect(),
        known_settings: vec![SettingSummary {
            name: "北境要塞".to_string(),
            description: Some("风雪终年不断".to_string()),
            location_type: Some("location".to_string()),
        }],
        known_events: vec![EventSummary {
            title: "夜袭前哨战".to_string(),
            description: Some("双方在黎明前交火".to_string()),
            chapter_index: Some(100),
        }],
        similar_passages: vec![PassageSummary {
            content: "这是一段很长的证据文本。".repeat(120),
            chapter_id: "chapter_099".to_string(),
        }],
        previous_summary: None,
    };

    let prompt = format_context_for_prompt(&ctx, 800);
    assert!(prompt.contains("【已知人物】"));
    assert!(prompt.contains("【已知设定】"));
    assert!(prompt.contains("【已知事件】"));
}
