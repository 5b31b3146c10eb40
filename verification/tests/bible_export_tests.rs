use narrative_loom::analysis::TechniqueCardInfo;
use narrative_loom::bible_export::{generate_markdown_export, CharacterEntry, EventEntry, SettingEntry};
use narrative_loom::export::ExportOptions;

fn tech(t: &str, title: &str) -> TechniqueCardInfo {
    TechniqueCardInfo {
        id: title.to_string(),
        chapter_id: "c".to_string(),
        technique_type: t.to_string(),
        title: title.to_string(),
        description: "描述".to_string(),
        mechanism: String::new(),
        evidence: vec!["原文".to_string()],
        tags: vec!["a".to_string(), "b".to_string()],
        collected: true,
        created_at: String::new(),
    }
}

#[test]
fn bible_markdown_lists_entries() {
    let characters = vec![CharacterEntry {
        name: "林冲".to_string(),
        aliases: vec!["豹子头".to_string(), "林教头".to_string()],
        role: "protagonist".to_string(),
        description: Some("八十万禁军教头".to_string()),
        traits: vec!["隐忍".to_string()],
        relationships: vec![("鲁智深".to_string(), "兄弟".to_string())],
        notes: None,
    }];
    let settings = vec![SettingEntry {
        name: "东京".to_string(),
        setting_type: "location".to_string(),
        description: None,
        properties: vec![],
        notes: Some("都城".to_string()),
    }];
    let events = vec![EventEntry {
        title: "风雪山神庙".to_string(),
        importance: "major".to_string(),
        description: None,
        characters_involved: vec!["林冲".to_string()],
        notes: None,
    }];
    let techniques = vec![tech("dialogue", "甲"), tech("narrative", "乙"), tech("dialogue", "丙")];
    let md = generate_markdown_export(
        "水浒",
        "2024-01-01 00:00:00",
        &ExportOptions::default(),
        &characters,
        &settings,
        &events,
        &techniques,
    );
    let expected_start = "# 水浒 - 故事圣经\n\n> 导出时间: 2024-01-01 00:00:00\n\n---\n\n## 人物\n\n\
### 林冲\n\n**别名**: 豹子头, 林教头\n\n**角色**: protagonist\n\n八十万禁军教头\n\n\
**特征**:\n- 隐忍\n\n**关系**:\n- 鲁智深 - 兄弟\n\n---\n\n\
## 设定\n\n### 东京 (location)\n\n**备注**: 都城\n\n---\n\n\
## 事件\n\n### 风雪山神庙\n\n**重要性**: major\n\n**相关人物**: 林冲\n\n---\n\n\
## 收藏的技法\n\n### 对话技法\n\n#### 甲\n\n";
    assert!(md.starts_with(expected_start), "{}", md);
    let dialogue = md.find("### 对话技法").unwrap();
    let narrative = md.find("### 叙事技法").unwrap();
    let third = md.find("#### 丙").unwrap();
    assert!(dialogue < third && third < narrative);
    assert!(md.contains("**原文证据**:\n> 原文\n\n**标签**: a, b\n\n"));
}

#[test]
fn bible_markdown_skips_excluded_parts() {
    let mut options = ExportOptions::default();
    options.include_characters = false;
    let md = generate_markdown_export("书", "t", &options, &vec![], &vec![], &vec![], &vec![]);
    assert_eq!(md, "# 书 - 故事圣经\n\n> 导出时间: t\n\n---\n\n");
}
