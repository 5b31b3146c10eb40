use narrative_loom::search::{
    match_character, match_event, match_setting, CharacterSearchEntry, EventSearchEntry,
    SettingSearchEntry,
};

#[test]
fn character_matches_weighted() {
    let c = CharacterSearchEntry {
        id: "c1".to_string(),
        name: "林冲Lin".to_string(),
        aliases: vec!["豹子头".to_string(), "LIN教头".to_string()],
        description: None,
        traits: vec!["Linear".to_string()],
        role: "protagonist".to_string(),
        first_appearance_chapter_id: Some("ch1".to_string()),
    };
    let m = match_character(&c, "lin").unwrap();
    assert_eq!(m.weights, vec![5, 3, 1]);
    assert_eq!(m.result_type, "character");
    assert_eq!(m.content, "角色: protagonist");
    assert_eq!(m.chapter_id.as_deref(), Some("ch1"));
    assert_eq!(m.highlights.len(), 1);
    // "林冲" takes six bytes in UTF-8.
    assert_eq!((m.highlights[0].start, m.highlights[0].end), (6, 9));
    assert!(match_character(&c, "宋江").is_none());
}

#[test]
fn setting_and_event_matches() {
    let s = SettingSearchEntry {
        id: "s1".to_string(),
        name: "梁山".to_string(),
        setting_type: "location".to_string(),
        description: Some("水泊梁山".to_string()),
    };
    let m = match_setting(&s, "梁山").unwrap();
    assert_eq!(m.weights, vec![5, 3]);
    assert_eq!(m.content, "水泊梁山");
    assert_eq!((m.highlights[0].start, m.highlights[0].end), (0, 6));
    let only_type = match_setting(&s, "loc").unwrap();
    assert_eq!(only_type.weights, vec![2]);
    assert!(only_type.highlights.is_empty());

    let e = EventSearchEntry {
        id: "e1".to_string(),
        title: "智取生辰纲".to_string(),
        description: None,
        importance: "major".to_string(),
        chapter_id: None,
    };
    let m = match_event(&e, "生辰纲").unwrap();
    assert_eq!(m.weights, vec![5]);
    assert_eq!(m.content, "重要性: major");
    assert!(match_event(&e, "梁山").is_none());
}
