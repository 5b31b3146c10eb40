use narrative_loom::segmentation::segment_chapters;
use narrative_loom::context_builder::split_content_for_query;
use narrative_loom::library::{cover_data_url, cover_extension};
use narrative_loom::context_builder::select_context_entities;
use narrative_loom::toc::{chapters_from_toc, BookPages, TocEntry};
use narrative_loom::duplicates::find_duplicate_groups;
use narrative_loom::analysis::should_auto_accept;
use narrative_loom::embedding_task::chunk_text_for_embedding;
use narrative_loom::embedding::{chunk_text_with_entities, EntityInfo};
use narrative_loom::epub::{decode_html_entities, extract_filename};
use narrative_loom::inbox::{inbox_stats, merge_ignoring_case, merge_new};
use narrative_loom::model::ChapterId;
use narrative_loom::parser::normalize_line_endings;

#[test]
fn normalizing_twice_is_normalizing_once() {
    for s in ["a\r\n\r\nb\r", "\r\r\n\n", "plain", ""] {
        let once = normalize_line_endings(s);
        assert!(!once.contains('\r'));
        assert_eq!(normalize_line_endings(&once), once);
    }
}

#[test]
fn plain_text_decodes_to_itself() {
    let s = "no entities here; just <tags> and \"quotes\"";
    assert_eq!(decode_html_entities(s), s);
}

#[test]
fn file_names_have_no_slash() {
    assert_eq!(extract_filename("OEBPS/Images/cover.jpg"), "cover.jpg");
    assert_eq!(extract_filename("cover.jpg"), "cover.jpg");
    assert_eq!(extract_filename("dir/"), "");
}

#[test]
fn thresholds_are_nested() {
    for c in ["high", "medium", "low", "other"] {
        if should_auto_accept(c, "high") {
            assert!(should_auto_accept(c, "medium"));
        }
        if should_auto_accept(c, "medium") {
            assert!(should_auto_accept(c, "low"));
        }
        assert!(!should_auto_accept(c, "off"));
    }
}

#[test]
fn merging_twice_adds_nothing() {
    let items = vec!["A".to_string(), "b".to_string(), "a".to_string()];
    let mut once = vec!["x".to_string()];
    merge_ignoring_case(&mut once, &items);
    let mut twice = once.clone();
    merge_ignoring_case(&mut twice, &items);
    assert_eq!(once, twice);
    assert_eq!(once[0], "x");
    let mut ev = vec!["e".to_string()];
    merge_new(&mut ev, &items);
    let mut ev2 = ev.clone();
    merge_new(&mut ev2, &items);
    assert_eq!(ev, ev2);
}

#[test]
fn kind_counts_within_total() {
    let kinds: Vec<String> = ["character", "event", "x", "setting"].iter().map(|s| s.to_string()).collect();
    let st = inbox_stats(&kinds);
    assert!(st.characters + st.settings + st.events <= st.total);
}

#[test]
fn chunks_numbered_in_order() {
    let p = "段".repeat(900);
    let text = format!("{0}\n\n{0}\n\n{0}\n\n{0}", p);
    let chunks = chunk_text_for_embedding(&text, &ChapterId::from_string("c".to_string()), 1);
    assert!(chunks.len() >= 2);
    for (i, c) in chunks.iter().enumerate() {
        assert_eq!(c.chunk_index as usize, i);
        assert!(c.char_start <= c.char_end);
    }
    let none: Vec<EntityInfo> = vec![];
    let planned = chunk_text_with_entities(&text, "c", &none);
    for (i, c) in planned.iter().enumerate() {
        assert_eq!(c.chunk_index as usize, i);
        assert!(c.char_start <= c.char_end);
    }
}

#[test]
fn short_contents_pages_are_passed_over() {
    let book = BookPages {
        resources: vec![("a".to_string(), "a.xhtml".to_string()), ("b".to_string(), "b.xhtml".to_string())],
        texts: vec![
            ("a".to_string(), "<p>短</p>".to_string()),
            ("b".to_string(), "<p>这一页的文字足够长了。</p>".to_string()),
        ],
        spine: vec!["a".to_string(), "b".to_string()],
    };
    let toc = vec![
        TocEntry { label: "一".to_string(), content: "a.xhtml".to_string(), children: vec![] },
        TocEntry { label: "二".to_string(), content: "b.xhtml".to_string(), children: vec![] },
    ];
    let chapters = chapters_from_toc(&toc, &book);
    assert_eq!(chapters.len(), 1);
    assert!(chapters.iter().all(|c| c.char_count >= 10));
}

#[test]
fn duplicate_groups_share_one_name() {
    let keys: Vec<String> = ["x", "y", "x", "y", "z"].iter().map(|s| s.to_string()).collect();
    let times: Vec<String> = ["2", "1", "1", "0", "0"].iter().map(|s| s.to_string()).collect();
    let groups = find_duplicate_groups(&keys, &times);
    assert_eq!(groups, vec![vec![2, 0], vec![3, 1]]);
    for g in &groups {
        assert!(g.len() > 1);
        assert!(g.iter().all(|&i| keys[i] == keys[g[0]]));
    }
}

#[test]
fn stored_cover_is_served_with_its_mime() {
    for mime in ["image/png", "image/jpeg", "image/gif", "image/webp"] {
        let url = cover_data_url(b"x", Some(cover_extension(mime)));
        assert!(url.starts_with(&format!("data:{};base64,", mime)));
    }
    assert_eq!(cover_extension("image/bmp"), "bin");
}

#[test]
fn context_entities_are_few_and_distinct() {
    let es: Vec<(String, String)> = ["甲", "乙", "甲", "丙", "丁", "乙"]
        .iter()
        .enumerate()
        .map(|(i, n)| (format!("e{}", i), n.to_string()))
        .collect();
    for max in 0..8 {
        for rel in [vec![], vec!["e0".to_string()], vec!["e5".to_string(), "e2".to_string(), "e1".to_string()]] {
            let picked = select_context_entities(&es, &rel, max);
            assert!(picked.len() <= max);
            assert!(picked.iter().all(|&p| p < es.len()));
            for i in 0..picked.len() {
                for j in i + 1..picked.len() {
                    assert_ne!(picked[i], picked[j]);
                }
            }
        }
    }
}

#[test]
fn query_chunks_hold_at_most_1501_characters() {
    let content = format!("{}\n\n{}", "甲".repeat(1499), "乙".repeat(600));
    let chunks = split_content_for_query(&content);
    assert_eq!(chunks.len(), 2);
    assert_eq!(chunks[0].chars().count(), 1501);
    assert_eq!(chunks[1], "乙".repeat(600));
    let long = "字".repeat(4000);
    for c in split_content_for_query(&long) {
        let n = c.chars().count();
        assert!(n > 0 && n <= 1501);
    }
    assert_eq!(split_content_for_query("   "), vec!["   ".to_string()]);
}

#[test]
fn segments_never_empty_and_none_only_for_blank_text() {
    assert!(segment_chapters("").is_empty());
    assert!(segment_chapters(" \n\t\n\u{3000}\n").is_empty());
    for text in ["第一章 开始\n\n第二章\n\n内容", "只有一句话。", "序\n第一章 甲\n乙", "\n\n  x  \n"] {
        let segs = segment_chapters(text);
        assert!(!segs.is_empty());
        assert!(segs.iter().all(|s| s.char_count > 0));
    }
}
