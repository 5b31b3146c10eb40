use narrative_loom::export::{StyleExportOptions, StyleProfileExportOptions, StylePromptTemplate};
use narrative_loom::profile::{
    generate_style_markdown_from_profile, generate_style_profile_markdown,
    generate_system_prompt_from_profile, StyleProfile,
};

fn fields(pairs: &[(&str, &str)]) -> Vec<(String, String)> {
    pairs.iter().map(|(k, v)| (k.to_string(), v.to_string())).collect()
}

fn profile() -> StyleProfile {
    StyleProfile {
        sections: vec![
            (
                "vocabulary".to_string(),
                fields(&[("formality_level", "semi_formal"), ("word_choice_patterns", "偏爱古语")]),
            ),
            ("pacing".to_string(), fields(&[("overall_tempo", "brisk")])),
            ("narrative_voice".to_string(), vec![]),
        ],
        key_observations: Some(vec![
            Some("一".to_string()),
            None,
            Some("二".to_string()),
            Some("三".to_string()),
            Some("四".to_string()),
            Some("五".to_string()),
        ]),
    }
}

#[test]
fn profile_prompt_shows_present_sections() {
    let p = generate_system_prompt_from_profile(&profile(), "书", "作者");
    let expected = "你是一位精通模仿作者写作风格的作家助手。\n\n\
以下是从《书》中系统分析得出的写作风格特征，请在创作时严格遵循：\n\n\
【词汇特征】\n• 正式程度: 半正式\n• 选词模式: 偏爱古语\n\n\
【叙事声音】\n\n\
【节奏控制】\n• 整体节奏: brisk\n\n\
【关键观察】\n• 一\n• 二\n• 三\n• 四\n\n\
创作要求：\n1. 保持原作的叙述节奏和语言风格\n2. 自然运用上述风格特征\n3. 保持人物对话的特色和氛围营造手法\n4. 在描写和叙事中体现原作的美学追求\n";
    assert_eq!(p, expected);
}

#[test]
fn empty_profile_prompt() {
    let empty = StyleProfile { sections: vec![], key_observations: Some(vec![]) };
    let p = generate_system_prompt_from_profile(&empty, "书", "作者");
    assert!(!p.contains("【"));
    assert!(p.ends_with("4. 在描写和叙事中体现原作的美学追求\n"));
}

#[test]
fn profile_markdown_documents() {
    let options = StyleProfileExportOptions {
        format: narrative_loom::export::ExportFormat::Markdown,
        example_count: 3,
        prompt_template: StylePromptTemplate::Generic,
    };
    let md = generate_style_profile_markdown(&profile(), "{}", "书", "作者", &options).unwrap();
    assert!(md.starts_with("# 风格档案 Prompt\n\n来源: 《书》 - 作者\n\n---\n\n## System Prompt\n\n```\n你是一位"));
    assert!(md.ends_with("---\n\n## 风格分析详情\n\n```json\n{}\n```\n"));

    let mut style_options = StyleExportOptions::default();
    style_options.prompt_template = StylePromptTemplate::OpenAI;
    let md2 = generate_style_markdown_from_profile(&profile(), "{}", "书", "作者", &style_options).unwrap();
    assert!(md2.starts_with("# OpenAI API 风格配置\n\n来源: 《书》 - 作者\n\n---\n\n## System Message\n\n"));
    assert!(!md2.contains("## API 调用示例"));
}
