use narrative_loom::analysis::TechniqueCardInfo;
use narrative_loom::export::{
    collect_style_info, generate_style_markdown, generate_system_prompt,
    generate_technique_markdown, get_technique_type_label, StyleExportOptions, StyleInfo,
    StylePromptTemplate, TechniqueStyle,
};

fn card(t: &str, title: &str, evidence: &[&str]) -> TechniqueCardInfo {
    TechniqueCardInfo {
        id: format!("id-{}", title),
        chapter_id: "ch".to_string(),
        technique_type: t.to_string(),
        title: title.to_string(),
        description: format!("{} desc", title),
        mechanism: String::new(),
        evidence: evidence.iter().map(|s| s.to_string()).collect(),
        tags: vec![],
        collected: true,
        created_at: String::new(),
    }
}

fn one_style() -> Vec<StyleInfo> {
    vec![StyleInfo {
        category: "dialogue".to_string(),
        techniques: vec![TechniqueStyle {
            title: "短句".to_string(),
            description: "对话简短".to_string(),
            mechanism: "省略主语".to_string(),
            examples: vec!["“走。”".to_string()],
        }],
    }]
}

#[test]
fn technique_labels() {
    assert_eq!(get_technique_type_label("narrative"), "叙事技法");
    assert_eq!(get_technique_type_label("voice"), "叙述声音");
    assert_eq!(get_technique_type_label("custom"), "custom");
}

#[test]
fn system_prompt_text() {
    let p = generate_system_prompt(&one_style(), "书", "作者");
    let expected = "你是一位精通模仿作者写作风格的作家助手。\n\n以下是从《书》中提取的写作技法和风格特点，请在创作时严格遵循：\n\n【对话技法】\n• 短句: 对话简短\n  实现方式: 省略主语\n\n创作要求：\n1. 保持原作的叙述节奏和语言风格\n2. 运用上述技法自然地融入创作中\n3. 保持人物对话的特色和氛围营造手法\n4. 在描写和叙事中体现原作的美学追求\n";
    assert_eq!(p, expected);
}

#[test]
fn technique_markdown_generic() {
    let options = StyleExportOptions::default();
    let md = generate_technique_markdown(&one_style(), "书", "作者", &options).unwrap();
    let prompt = generate_system_prompt(&one_style(), "书", "作者");
    let expected = format!(
        "# 技法风格模仿 Prompt\n\n来源: 《书》 - 作者\n\n---\n\n## System Prompt\n\n```\n{}\n```\n\n---\n\n## 技法分析详情\n\n### 对话技法\n\n#### 短句\n\n对话简短\n\n**实现方式**: 省略主语\n\n**示例段落**:\n\n> “走。”\n\n",
        prompt
    );
    assert_eq!(md, expected);
}

#[test]
fn style_markdown_local_template() {
    let mut options = StyleExportOptions::default();
    options.prompt_template = StylePromptTemplate::LocalLlm;
    let md = generate_style_markdown(&[], "书", "作者", &options).unwrap();
    assert!(md.starts_with("# 本地 LLM 风格配置\n\n来源: 《书》 - 作者\n\n"));
    assert!(md.contains("## Ollama 示例"));
    assert!(md.ends_with("## 风格分析详情\n\n"));
}

#[test]
fn styles_grouped_by_category() {
    let mut options = StyleExportOptions::default();
    options.include_dialogue = false;
    options.example_count = 1;
    let cards = vec![
        card("pacing", "A", &["e1", "e2"]),
        card("dialogue", "B", &[]),
        card("scene", "C", &["e3"]),
        card("pacing", "D", &[]),
        card("other", "E", &[]),
    ];
    let styles = collect_style_info(&cards, &options);
    assert_eq!(styles.len(), 2);
    assert_eq!(styles[0].category, "pacing");
    assert_eq!(styles[0].techniques.len(), 2);
    assert_eq!(styles[0].techniques[0].title, "A");
    assert_eq!(styles[0].techniques[0].examples, vec!["e1".to_string()]);
    assert_eq!(styles[0].techniques[1].title, "D");
    assert_eq!(styles[1].category, "scene");
}
