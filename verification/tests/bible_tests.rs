use narrative_loom::bible::{check_role, story_blueprint, update_character_roles, EventInfo};
use narrative_loom::chapters::{adjacent_indexes, ChapterListItem};
use narrative_loom::clock::{format_rfc3339, Timestamp};
use narrative_loom::search::{all_entities_info, mention_infos};
use narrative_loom::vector_search::{AllEntities, EntityInfo, EntityMention};

#[test]
fn roles_checked() {
    assert!(check_role("protagonist").is_ok());
    assert!(check_role("minor").is_ok());
    assert_eq!(
        check_role("hero"),
        Err("Invalid role 'hero'. Valid roles: [\"protagonist\", \"major\", \"supporting\", \"minor\"]".to_string())
    );
}

#[test]
fn roles_earned_by_appearances() {
    let current: Vec<String> = ["minor", "minor", "major", "minor", "minor", "minor", "minor"]
        .iter()
        .map(|s| s.to_string())
        .collect();
    let appearances = [30, 25, 1, 0, 12, 2, 0];
    let (roles, result) = update_character_roles(&current, &appearances, 20, 10);
    // Ranks by appearances: 30 -> 1, 25 -> 2, 12 -> 3, 2 -> 4, 1 -> 5, 0 -> 6, 0 -> 7.
    assert_eq!(roles, vec!["protagonist", "protagonist", "major", "minor", "major", "major", "minor"]);
    assert_eq!(result.protagonist_count, 2);
    assert_eq!(result.major_count, 3);
    assert_eq!(result.supporting_count, 0);
    assert_eq!(result.minor_count, 2);
    assert_eq!(result.updated_count, 4);
}

fn chapter(id: &str, index: u32, analyzed: bool) -> ChapterListItem {
    ChapterListItem {
        id: id.to_string(),
        index,
        title: None,
        parent_title: None,
        char_count: 0,
        analyzed,
    }
}

fn event(id: &str, chapter: &str, order: i32, importance: &str) -> EventInfo {
    EventInfo {
        id: id.to_string(),
        title: format!("事件{}", id),
        description: None,
        chapter_id: Some(chapter.to_string()),
        characters_involved: vec!["c1".to_string(), "unknown".to_string()],
        importance: importance.to_string(),
        evidence: vec![],
        notes: None,
        updated_at: String::new(),
        time_marker: None,
        order_in_chapter: order,
        is_flashback: false,
        relative_time: None,
    }
}

#[test]
fn blueprint_orders_chapters_and_events() {
    let chapters = vec![chapter("b", 2, false), chapter("a", 1, true)];
    let events = vec![event("e2", "a", 2, "minor"), event("e1", "a", 1, "critical"), event("e3", "b", 0, "major")];
    let characters = vec![("c1".to_string(), "林冲".to_string())];
    let bp = story_blueprint("book".to_string(), &chapters, &events, &characters);
    assert_eq!(bp.total_chapters, 2);
    assert_eq!(bp.analyzed_chapters, 1);
    assert_eq!(bp.chapters[0].id, "a");
    assert_eq!(bp.chapters[0].events.len(), 2);
    assert_eq!(bp.chapters[0].events[0].id, "e1");
    assert!(bp.chapters[0].events[0].is_turning_point);
    assert!(!bp.chapters[0].events[1].is_turning_point);
    assert_eq!(bp.chapters[0].events[0].characters_involved, vec!["林冲".to_string()]);
    assert_eq!(bp.chapters[1].events[0].id, "e3");
}

#[test]
fn adjacent_chapter_indexes() {
    assert_eq!(adjacent_indexes(1), (None, 2));
    assert_eq!(adjacent_indexes(5), (Some(4), 6));
}

#[test]
fn epoch_formatted() {
    assert_eq!(format_rfc3339(Timestamp { secs: 0, nanos: 0 }), "1970-01-01T00:00:00+00:00");
    assert_eq!(format_rfc3339(Timestamp { secs: 1, nanos: 500_000_000 }), "1970-01-01T00:00:01.500+00:00");
    assert_eq!(format_rfc3339(Timestamp { secs: 1, nanos: 123_456_789 }), "1970-01-01T00:00:01.123456789+00:00");
    assert_eq!(format_rfc3339(Timestamp { secs: 0, nanos: 1_500_000 }), "1970-01-01T00:00:00.001500+00:00");
    assert_eq!(format_rfc3339(Timestamp { secs: i64::MAX, nanos: 0 }), "");
}

#[test]
fn search_infos_copy_entities() {
    let mentions = vec![EntityMention {
        entity_id: "x".to_string(),
        entity_name: "林冲".to_string(),
        entity_type: "character".to_string(),
        positions: vec![(0, 6)],
    }];
    let infos = mention_infos(mentions);
    assert_eq!(infos[0].entity_name, "林冲");
    assert_eq!(infos[0].positions, vec![(0, 6)]);
    let e = |id: &str| EntityInfo {
        id: id.to_string(),
        name: format!("n{}", id),
        aliases: vec![],
        entity_type: "setting".to_string(),
    };
    let all = all_entities_info(AllEntities { characters: vec![], settings: vec![e("s1"), e("s2")], events: vec![] });
    assert_eq!(all.settings.len(), 2);
    assert_eq!(all.settings[1].name, "ns2");
}
