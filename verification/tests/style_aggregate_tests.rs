use narrative_loom::analysis::EnumFieldStats;
use narrative_loom::style_aggregate::{aggregate_style, StyleObservation};

fn s(x: &str) -> String {
    x.to_string()
}

fn obs(strings: &[(&str, &str, &str)], lists: &[(Option<&str>, &str, &[&str])], has_ee: bool) -> StyleObservation {
    StyleObservation {
        strings: strings.iter().map(|(a, b, c)| (s(a), s(b), s(c))).collect(),
        lists: lists
            .iter()
            .map(|(sec, f, items)| (sec.map(s), s(f), items.iter().map(|i| s(i)).collect()))
            .collect(),
        samples: vec![s("{\"text\":\"样例\"}")],
        has_emotional_expression: has_ee,
    }
}

#[test]
fn aggregates_modes_latest_and_frequencies() {
    let observations = vec![
        obs(
            &[("pacing", "overall_tempo", "slow"), ("pacing", "scene_transitions", "硬切")],
            &[(None, "key_observations", &["a", "b"])],
            true,
        ),
        obs(
            &[("pacing", "overall_tempo", "fast"), ("pacing", "scene_transitions", "")],
            &[(None, "key_observations", &["b", "c"])],
            true,
        ),
        obs(
            &[("pacing", "overall_tempo", "fast"), ("emotional_tone", "emotional_restraint", "high"), ("emotional_tone", "dominant_mood", "")],
            &[],
            false,
        ),
    ];
    let agg = aggregate_style(&observations);
    let tempo = agg.enum_fields.iter().find(|e| e.1 == "overall_tempo").unwrap();
    assert_eq!((tempo.2.as_str(), tempo.3, tempo.4), ("fast", 2, 3));
    let restraint = agg.enum_fields.iter().find(|e| e.1 == "emotional_restraint").unwrap();
    assert_eq!((restraint.0.as_str(), restraint.2.as_str(), restraint.3, restraint.4), ("emotional_expression", "high", 1, 1));
    assert_eq!(agg.enum_fields.len(), 2);
    // The empty description does not replace the earlier one; the older tone's mood does.
    assert!(agg.descriptions.contains(&(s("pacing"), s("scene_transitions"), s("硬切"))));
    assert!(agg.descriptions.contains(&(s("emotional_expression"), s("dominant_mood"), s(""))));
    assert_eq!(agg.lists.len(), 1);
    assert_eq!(agg.lists[0].2, vec![s("b"), s("a"), s("c")]);
    assert_eq!(agg.samples.iter().map(|p| p.0).collect::<Vec<_>>(), vec![1, 2, 3]);
}

#[test]
fn most_frequent_values_in_order() {
    let mut st = EnumFieldStats::new();
    for v in ["x", "y", "y", "z", "x", "y"] {
        st.add(v);
    }
    assert_eq!(st.most_frequent(2), vec![s("y"), s("x")]);
    assert_eq!(st.most_frequent(10), vec![s("y"), s("x"), s("z")]);
    assert_eq!(st.get_value(), Some(s("y")));
}
