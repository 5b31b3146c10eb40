use std::collections::HashMap;

use narrative_loom::agent_selection::{
    select_chapter_agents, select_single_agent, supported_agent_types, AgentEntry, ChapterAgents,
};
use narrative_loom::model::{ApiFormat, ProviderConfig, TaskType};

fn provider(id: &str, enabled: bool, base_url: &str) -> ProviderConfig {
    ProviderConfig {
        id: id.to_string(),
        name: id.to_string(),
        enabled,
        base_url: base_url.to_string(),
        api_format: ApiFormat::OpenAI,
        path_override: None,
        api_key_ref: String::new(),
        default_model: "m".to_string(),
        available_models: vec![],
        headers: HashMap::new(),
        timeout_ms: 1000,
        max_retries: 1,
    }
}

fn agent(id: &str, enabled: bool, provider_id: &str, model: &str) -> AgentEntry {
    AgentEntry { id: id.to_string(), enabled, provider_id: provider_id.to_string(), model: model.to_string() }
}

fn types(ts: &[&str]) -> Vec<String> {
    ts.iter().map(|t| t.to_string()).collect()
}

#[test]
fn bound_agents_run_their_analyses() {
    let bindings = vec![
        (TaskType::TechniqueAnalysis, "a1".to_string()),
        (TaskType::CharacterExtraction, "a2".to_string()),
        (TaskType::SettingExtraction, "a3".to_string()),
    ];
    let agents = vec![agent("a1", true, "p1", "gpt"), agent("a2", false, "p1", "gpt"), agent("a3", true, "p2", "unknown")];
    let providers = vec![provider("p1", false, "https://x"), provider("p2", true, "https://y")];
    match select_chapter_agents(&types(&["technique", "character", "setting", "timeline"]), &bindings, &agents, &providers) {
        ChapterAgents::Bound(v) => assert_eq!(v, vec![("technique".to_string(), 0, 0)]),
        _ => panic!("expected bound agents"),
    }
}

#[test]
fn first_enabled_provider_runs_when_none_bound() {
    let providers = vec![provider("p1", false, "https://x"), provider("p2", true, "https://y")];
    assert!(matches!(select_chapter_agents(&types(&["technique"]), &vec![], &vec![], &providers), ChapterAgents::Fallback(1)));
    assert!(matches!(select_chapter_agents(&types(&["technique"]), &vec![], &vec![], &vec![]), ChapterAgents::NoProvider));
}

#[test]
fn single_agent_errors_explain() {
    let bindings = vec![(TaskType::EventExtraction, "a1".to_string())];
    let agents = vec![agent("a1", true, "p1", "")];
    let providers = vec![provider("p1", true, "https://x")];
    assert_eq!(select_single_agent("plot", &bindings, &agents, &providers), Err("Unknown agent type: plot".to_string()));
    assert_eq!(select_single_agent("style", &bindings, &agents, &providers), Err("No task binding found for style".to_string()));
    assert_eq!(
        select_single_agent("event", &bindings, &agents, &providers),
        Err("Agent a1 has invalid model: ''. Please configure a valid model in settings.".to_string())
    );
    let providers2 = vec![provider("p1", true, "unknown")];
    assert_eq!(
        select_single_agent("event", &bindings, &agents, &providers2),
        Err("Provider p1 has invalid base_url: 'unknown'. Please configure a valid URL in settings.".to_string())
    );
    let good = vec![agent("a1", true, "p1", "gpt")];
    assert_eq!(select_single_agent("event", &bindings, &good, &providers), Ok((0, 0)));
    assert_eq!(select_single_agent("event", &bindings, &vec![], &providers), Err("Agent a1 not found or disabled".to_string()));
    assert_eq!(select_single_agent("event", &bindings, &vec![agent("a1", true, "p9", "gpt")], &providers), Err("Provider not found for agent a1".to_string()));
}

#[test]
fn batch_agent_types_filtered() {
    let ts: Vec<String> = ["style", "timeline", "character", "bogus"].iter().map(|t| t.to_string()).collect();
    assert_eq!(supported_agent_types(&ts), Ok(vec!["style".to_string(), "character".to_string()]));
    let none: Vec<String> = vec!["timeline".to_string()];
    assert_eq!(supported_agent_types(&none), Err("No valid agent types specified".to_string()));
    assert_eq!(supported_agent_types(&vec![]), Err("No valid agent types specified".to_string()));
}
