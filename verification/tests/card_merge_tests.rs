use narrative_loom::card_merge::{
    merge_character_card, merge_setting_card, new_character, CharacterCard, CharacterFields,
    SettingCard, SettingFields,
};

fn s(x: &str) -> String {
    x.to_string()
}

fn v(xs: &[&str]) -> Vec<String> {
    xs.iter().map(|x| s(x)).collect()
}

fn card() -> CharacterCard {
    CharacterCard {
        title: s("标题"),
        name: Some(s("豹子头")),
        description: None,
        aliases: v(&["林教头", "Leopard"]),
        traits: v(&["勇猛", "BRAVE"]),
        role: Some(s("major")),
        evidence: v(&["e2", "e1"]),
    }
}

fn existing() -> CharacterFields {
    CharacterFields {
        name: s("林冲"),
        aliases: v(&["leopard"]),
        description: Some(s("禁军教头")),
        traits: v(&["brave"]),
        role: s("protagonist"),
        evidence: v(&["e1"]),
    }
}

#[test]
fn new_character_from_card() {
    let mut c = card();
    c.name = None;
    c.role = None;
    let f = new_character(&c);
    assert_eq!(f.name, "标题");
    assert_eq!(f.role, "supporting");
    assert_eq!(f.aliases, v(&["林教头", "Leopard"]));
}

#[test]
fn card_joins_character_as_duplicate() {
    let f = merge_character_card(&existing(), &card(), true);
    assert_eq!(f.name, "林冲");
    assert_eq!(f.aliases, v(&["leopard", "豹子头", "林教头"]));
    assert_eq!(f.traits, v(&["brave", "勇猛"]));
    assert_eq!(f.description.as_deref(), Some("禁军教头"));
    assert_eq!(f.role, "protagonist");
    assert_eq!(f.evidence, v(&["e1", "e2"]));
}

#[test]
fn card_joins_character_by_name() {
    let f = merge_character_card(&existing(), &card(), false);
    assert_eq!(f.aliases, v(&["leopard", "林教头"]));
    assert_eq!(f.role, "major");
}

#[test]
fn joining_twice_changes_nothing() {
    let once = merge_character_card(&existing(), &card(), true);
    let twice = merge_character_card(&once, &card(), true);
    assert_eq!(twice.aliases, once.aliases);
    assert_eq!(twice.traits, once.traits);
    assert_eq!(twice.evidence, once.evidence);
    assert_eq!(twice.role, once.role);
    assert_eq!(twice.description, once.description);
}

#[test]
fn card_joins_setting() {
    let existing = SettingFields {
        name: s("梁山"),
        setting_type: s("location"),
        description: None,
        properties: Some(vec![(s("首领"), s("\"王伦\""))]),
        evidence: vec![],
    };
    let card = SettingCard {
        title: s("梁山泊"),
        name: None,
        description: Some(s("水泊")),
        setting_type: None,
        properties: Some(vec![(s("首领"), s("\"晁盖\"")), (s("位置"), s("\"山东\""))]),
        evidence: v(&["e"]),
    };
    let f = merge_setting_card(&existing, &card);
    assert_eq!(f.setting_type, "location");
    assert_eq!(f.description.as_deref(), Some("水泊"));
    assert_eq!(f.properties, Some(vec![(s("首领"), s("\"晁盖\"")), (s("位置"), s("\"山东\""))]));
    assert_eq!(f.evidence, v(&["e"]));
}

fn event_card() -> narrative_loom::card_merge::EventCard {
    narrative_loom::card_merge::EventCard {
        title: s("智取生辰纲"),
        description: Some(s("吴用设计")),
        importance: None,
        characters_involved: v(&["c1", "c2"]),
        time_marker: None,
        extra_time_marker: Some(s("夏天")),
        order_in_chapter: None,
        is_flashback: None,
        extra_is_flashback: Some(true),
        relative_time: Some(s("次日")),
        extra_relative_time: Some(s("旧")),
        evidence: v(&["e"]),
    }
}

#[test]
fn new_event_takes_older_timing_fields() {
    let e = narrative_loom::card_merge::new_event(&event_card());
    assert_eq!(e.importance, "normal");
    assert_eq!(e.time_marker.as_deref(), Some("夏天"));
    assert_eq!(e.relative_time.as_deref(), Some("次日"));
    assert!(e.is_flashback);
    assert_eq!(e.order_in_chapter, 0);
}

#[test]
fn descriptions_merged_by_strategy() {
    use_description_cases();
}

fn use_description_cases() {
    let f = narrative_loom::card_merge::merge_description;
    assert_eq!(f(&None, &Some(s("旧")), &Some(s("新"))), Some(s("旧\n\n新")));
    assert_eq!(f(&Some(s("append")), &Some(s("旧的新")), &Some(s("新"))), Some(s("旧的新")));
    assert_eq!(f(&Some(s("replace")), &Some(s("旧")), &None), None);
    assert_eq!(f(&None, &None, &Some(s("新"))), Some(s("新")));
    assert_eq!(f(&None, &Some(s("旧")), &None), Some(s("旧")));
}

#[test]
fn card_merged_into_chosen_entities() {
    let c = narrative_loom::card_merge::merge_card_into_character(&existing(), &card(), &None);
    assert_eq!(c.aliases, v(&["leopard", "林教头", "Leopard"]));
    assert_eq!(c.traits, v(&["brave", "勇猛", "BRAVE"]));
    assert_eq!(c.role, "protagonist");
    let existing_event = narrative_loom::card_merge::new_event(&event_card());
    let mut more = event_card();
    more.characters_involved = v(&["c2", "c3"]);
    more.description = Some(s("另述"));
    let e = narrative_loom::card_merge::merge_card_into_event(&existing_event, &more, &Some(s("replace")));
    assert_eq!(e.characters_involved, v(&["c1", "c2", "c3"]));
    assert_eq!(e.description.as_deref(), Some("另述"));
}
