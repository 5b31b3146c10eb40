use narrative_loom::dedup::DedupResult;
use narrative_loom::inbox::{
    add_name_as_alias, card_entity_kind, character_description_notes, setting_description_notes,
    CharacterDescriptionFields, DescriptionAspect, SettingDescriptionFields, extracted_card_fields, find_pending_card, entity_card_action, EntityKind, inbox_stats, merge_ignoring_case, merge_new, CardAction,
};

#[test]
fn inbox_counts_by_kind() {
    let kinds: Vec<String> = ["character", "setting", "event", "character", "other"]
        .iter()
        .map(|s| s.to_string())
        .collect();
    let stats = inbox_stats(&kinds);
    assert_eq!(stats.total, 5);
    assert_eq!(stats.characters, 2);
    assert_eq!(stats.settings, 1);
    assert_eq!(stats.events, 1);
}

#[test]
fn merging_aliases_ignores_case() {
    let mut aliases = vec!["Fisher".to_string()];
    merge_ignoring_case(&mut aliases, &["fisher".to_string(), "Old Man".to_string(), "OLD MAN".to_string()]);
    assert_eq!(aliases, vec!["Fisher".to_string(), "Old Man".to_string()]);
    let before = aliases.clone();
    merge_ignoring_case(&mut aliases, &["fisher".to_string(), "Old Man".to_string()]);
    assert_eq!(aliases, before);
}

#[test]
fn merging_evidence_keeps_order() {
    let mut ev = vec!["a".to_string(), "b".to_string()];
    merge_new(&mut ev, &["b".to_string(), "c".to_string(), "a".to_string(), "B".to_string()]);
    assert_eq!(ev, vec!["a".to_string(), "b".to_string(), "c".to_string(), "B".to_string()]);
}

#[test]
fn name_added_as_alias_only_when_new() {
    let mut aliases = vec!["老费".to_string()];
    add_name_as_alias(&mut aliases, "费舍尔", "费舍尔·贝纳维德斯");
    assert_eq!(aliases, vec!["老费".to_string(), "费舍尔".to_string()]);
    add_name_as_alias(&mut aliases, "费舍尔", "费舍尔·贝纳维德斯");
    assert_eq!(aliases.len(), 2);
    add_name_as_alias(&mut aliases, "Zhang", "zhang");
    assert_eq!(aliases.len(), 2);
}

#[test]
fn card_actions() {
    let ids = vec!["1".to_string(), "2".to_string()];
    assert!(matches!(entity_card_action("张三 & 李四", &DedupResult::accept(), &ids, false), CardAction::Reject));
    assert!(matches!(entity_card_action("张三", &DedupResult::skip("dup"), &ids, false), CardAction::Reject));
    match entity_card_action("费舍尔", &DedupResult::merge("2", "费舍尔·贝纳维德斯", "alias"), &ids, false) {
        CardAction::MergeWith(id) => assert_eq!(id, "2"),
        _ => panic!("expected a merge"),
    }
    assert!(matches!(
        entity_card_action("费舍尔", &DedupResult::merge("9", "x", "alias"), &ids, true),
        CardAction::UpdateExisting
    ));
    assert!(matches!(entity_card_action("新角色", &DedupResult::accept(), &ids, false), CardAction::Create));
}

#[test]
fn card_kinds() {
    assert_eq!(card_entity_kind("character"), Ok(EntityKind::Character));
    assert_eq!(card_entity_kind("setting"), Ok(EntityKind::Setting));
    assert_eq!(card_entity_kind("event"), Ok(EntityKind::Event));
    assert_eq!(card_entity_kind("technique"), Err("Unknown knowledge type: technique".to_string()));
}

#[test]
fn pending_card_lookup() {
    let ids: Vec<String> = vec!["c1".to_string(), "c2".to_string(), "c2".to_string()];
    assert_eq!(find_pending_card(&ids, "c2"), Ok(1));
    assert_eq!(find_pending_card(&ids, "c9"), Err("Card not found: c9".to_string()));
}

#[test]
fn extracted_card_defaults() {
    let some = |x: &str| Some(x.to_string());
    let c = extracted_card_fields(EntityKind::Character, &some("林冲"), &some("人物"), &None, &None);
    assert_eq!((c.title.as_str(), c.confidence.as_str(), c.setting_type), ("林冲", "medium", None));
    let s = extracted_card_fields(EntityKind::Setting, &None, &some("梁山"), &some("high"), &None);
    assert_eq!((s.title.as_str(), s.confidence.as_str(), s.setting_type.as_deref()), ("梁山", "high", Some("location")));
    let e = extracted_card_fields(EntityKind::Event, &some("名"), &some("智取生辰纲"), &None, &some("x"));
    assert_eq!((e.title.as_str(), e.setting_type), ("智取生辰纲", None));
    let empty = extracted_card_fields(EntityKind::Event, &None, &None, &None, &None);
    assert_eq!(empty.title, "");
}

#[test]
fn structured_description_notes() {
    let some = |x: &str| Some(x.to_string());
    assert!(character_description_notes(&None, "ch1", 3).is_none());
    let f = CharacterDescriptionFields {
        appearance: some("高大"),
        personality: some(""),
        background: None,
        abilities: some("枪棒"),
        goals: None,
        status: some("在梁山"),
    };
    let notes = character_description_notes(&Some(f), "ch1", 3).unwrap();
    let got: Vec<(DescriptionAspect, &str, &str, u32)> =
        notes.iter().map(|n| (n.aspect, n.text.as_str(), n.chapter_id.as_str(), n.chapter_index)).collect();
    assert_eq!(
        got,
        vec![
            (DescriptionAspect::Appearance, "高大", "ch1", 3),
            (DescriptionAspect::Abilities, "枪棒", "ch1", 3),
            (DescriptionAspect::Status, "在梁山", "ch1", 3),
        ]
    );
    let s = SettingDescriptionFields {
        physical: None,
        atmosphere: some("肃杀"),
        history: None,
        function: None,
        rules: some("不得擅入"),
        inhabitants: None,
        status: None,
    };
    let notes = setting_description_notes(&Some(s), "ch2", 0).unwrap();
    let aspects: Vec<DescriptionAspect> = notes.iter().map(|n| n.aspect).collect();
    assert_eq!(aspects, vec![DescriptionAspect::Atmosphere, DescriptionAspect::Rules]);
    assert!(setting_description_notes(&None, "ch2", 0).is_none());
}
