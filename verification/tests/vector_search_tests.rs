use narrative_loom::vector_search::{
    extract_entity_mentions, find_entity_positions, AllEntities, EntityInfo,
};

#[test]
fn test_extract_entity_mentions() {
    let entities = AllEntities {
        characters: vec![
            EntityInfo {
                id: "c1".to_string(),
                name: "张三".to_string(),
                aliases: vec![],
                entity_type: "character".to_string(),
            },
            EntityInfo {
                id: "c2".to_string(),
                name: "李四".to_string(),
                aliases: vec![],
                entity_type: "character".to_string(),
            },
        ],
        settings: vec![EntityInfo {
            id: "s1".to_string(),
            name: "青云山".to_string(),
            aliases: vec![],
            entity_type: "setting".to_string(),
        }],
        events: vec![],
    };

    let text = "张三和李四一起去了青云山修炼。张三的剑法很厉害。";
    let mentions = extract_entity_mentions(text, &entities);

    assert_eq!(mentions.len(), 3);

    let zhang_san = mentions.iter().find(|m| m.entity_name == "张三").unwrap();
    assert_eq!(zhang_san.positions.len(), 2);
}

#[test]
fn test_extract_entity_mentions_supports_alias() {
    let entities_with_alias = AllEntities {
        characters: vec![EntityInfo {
            id: "char_1".to_string(),
            name: "费舍尔·贝纳维德斯".to_string(),
            aliases: vec!["费舍尔".to_string()],
            entity_type: "character".to_string(),
        }],
        settings: vec![],
        events: vec![],
    };

    let text = "费舍尔在雨夜里推开了旧教堂的门。";
    let mentions = extract_entity_mentions(text, &entities_with_alias);
    assert!(mentions.iter().any(|m| m.entity_id == "char_1"));
}

#[test]
fn test_find_entity_positions() {
    let positions = find_entity_positions("Hello World, Hello Again", "Hello");
    assert_eq!(positions.len(), 2);
    assert_eq!(positions[0], (0, 5));
    assert_eq!(positions[1], (13, 18));
}
