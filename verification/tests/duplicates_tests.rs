use narrative_loom::duplicates::{
    find_duplicate_groups, plan_character_merges, plan_setting_merges, CharacterRecord,
    SettingRecord,
};

fn s(x: &str) -> String {
    x.to_string()
}

fn character(id: &str, name: &str, aliases: &[&str], desc: Option<&str>, at: &str) -> CharacterRecord {
    CharacterRecord {
        id: s(id),
        name: s(name),
        aliases: aliases.iter().map(|a| s(a)).collect(),
        traits: vec![s("勇敢")],
        evidence: vec![format!("证据{}", id)],
        description: desc.map(s),
        updated_at: s(at),
    }
}

#[test]
fn groups_by_trimmed_lowercase_name_and_time() {
    let keys = vec![s("a"), s("b"), s("a"), s("c"), s("a")];
    let times = vec![s("3"), s("1"), s("1"), s("0"), s("3")];
    let groups = find_duplicate_groups(&keys, &times);
    assert_eq!(groups, vec![vec![2, 0, 4]]);
}

#[test]
fn characters_merged_into_earliest() {
    let cs = vec![
        character("1", "Lin Chong", &["豹子头"], Some("短"), "2024-02"),
        character("2", "宋江", &[], None, "2024-01"),
        character("3", " lin chong ", &["豹子头", "林教头"], Some("更长的描述"), "2024-01"),
    ];
    let plans = plan_character_merges(&cs);
    assert_eq!(plans.len(), 1);
    let p = &plans[0];
    assert_eq!(p.keep_id, "3");
    assert_eq!(p.remove_ids, vec![s("1")]);
    assert_eq!(p.aliases, vec![s("豹子头"), s("林教头")]);
    assert_eq!(p.traits, vec![s("勇敢")]);
    assert_eq!(p.evidence, vec![s("证据3"), s("证据1")]);
    assert_eq!(p.description.as_deref(), Some("更长的描述"));
}

#[test]
fn settings_merge_new_property_keys() {
    let setting = |id: &str, props: Option<Vec<(&str, &str)>>, at: &str| SettingRecord {
        id: s(id),
        name: s("梁山"),
        properties: props.map(|v| v.into_iter().map(|(k, x)| (s(k), s(x))).collect()),
        evidence: vec![],
        description: None,
        updated_at: s(at),
    };
    let ss = vec![
        setting("a", Some(vec![("位置", "\"山东\"")]), "1"),
        setting("b", Some(vec![("位置", "\"别处\""), ("首领", "\"晁盖\"")]), "2"),
        setting("c", None, "3"),
    ];
    let plans = plan_setting_merges(&ss);
    assert_eq!(plans.len(), 1);
    assert_eq!(plans[0].keep_id, "a");
    assert_eq!(plans[0].remove_ids, vec![s("b"), s("c")]);
    assert_eq!(
        plans[0].properties,
        Some(vec![(s("位置"), s("\"山东\"")), (s("首领"), s("\"晁盖\""))])
    );
}

#[test]
fn no_duplicates_no_plans() {
    let cs = vec![character("1", "甲", &[], None, "1"), character("2", "乙", &[], None, "1")];
    assert!(plan_character_merges(&cs).is_empty());
}
