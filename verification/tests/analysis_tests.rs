use narrative_loom::analysis::{
    chapter_entity_ids, chapter_needs_embedding, should_auto_accept, validate_card_status, EnumFieldStats,
};
use narrative_loom::model::CardStatus;

#[test]
fn auto_accept_thresholds() {
    assert!(!should_auto_accept("high", "off"));
    assert!(should_auto_accept("high", "high"));
    assert!(!should_auto_accept("medium", "high"));
    assert!(should_auto_accept("medium", "medium"));
    assert!(!should_auto_accept("low", "medium"));
    assert!(should_auto_accept("low", "low"));
    assert!(!should_auto_accept("high", "unknown"));
}

#[test]
fn enum_stats_tally() {
    let mut s = EnumFieldStats::new();
    assert_eq!(s.get_value(), None);
    assert_eq!(s.max_count(), 0);
    s.add("first");
    s.add("third");
    s.add("third");
    s.add("first");
    s.add("third");
    assert_eq!(s.total(), 5);
    assert_eq!(s.max_count(), 3);
    assert_eq!(s.get_value(), Some("third".to_string()));
}

#[test]
fn enum_stats_tie_goes_to_first_seen() {
    let mut s = EnumFieldStats::new();
    s.add("a");
    s.add("b");
    assert_eq!(s.get_value(), Some("a".to_string()));
}

#[test]
fn needs_embedding() {
    assert!(chapter_needs_embedding(None));
    assert!(chapter_needs_embedding(Some(0)));
    assert!(!chapter_needs_embedding(Some(3)));
}

#[test]
fn entities_of_chapter() {
    let characters = vec![
        ("c1".to_string(), Some("ch-1".to_string())),
        ("c2".to_string(), Some("ch-2".to_string())),
        ("c3".to_string(), None),
    ];
    let events = vec![("e1".to_string(), Some("ch-1".to_string()))];
    let card_names = vec!["Blue Mountain".to_string()];
    let settings = vec![
        ("s1".to_string(), "blue mountain".to_string()),
        ("s2".to_string(), "Red River".to_string()),
    ];
    let ids = chapter_entity_ids("ch-1", &characters, &events, &card_names, &settings);
    assert_eq!(ids, vec!["c1".to_string(), "e1".to_string(), "s1".to_string()]);
    let none = chapter_entity_ids("ch-1", &characters, &events, &[], &settings);
    assert_eq!(none, vec!["c1".to_string(), "e1".to_string()]);
}

#[test]
fn card_status_requests() {
    assert_eq!(validate_card_status("confirmed"), Ok(CardStatus::Accepted));
    assert_eq!(validate_card_status("rejected"), Ok(CardStatus::Rejected));
    assert_eq!(validate_card_status("merged"), Ok(CardStatus::Merged));
    assert_eq!(
        validate_card_status("done"),
        Err("Invalid status: done. Allowed: pending, accepted, rejected, merged".to_string())
    );
}
