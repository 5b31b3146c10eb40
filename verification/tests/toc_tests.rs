use narrative_loom::cover::{image_resource_ids, ResourceInfo};
use narrative_loom::toc::{book_chapters, chapters_from_spine, chapters_from_toc, BookPages, TocEntry};

fn entry(label: &str, content: &str, children: Vec<TocEntry>) -> TocEntry {
    TocEntry { label: label.to_string(), content: content.to_string(), children }
}

fn page(body: &str) -> String {
    format!("<html><head><title>t</title></head><body>{}</body></html>", body)
}

fn book() -> BookPages {
    let ids = ["vol", "intro", "c1", "c2", "c3"];
    BookPages {
        resources: ids
            .iter()
            .map(|id| (id.to_string(), format!("OEBPS/Text/{}.xhtml", id)))
            .collect(),
        texts: vec![
            ("vol".to_string(), page("<h1>第一卷</h1>")),
            ("intro".to_string(), page("<p>这一卷讲述了主人公离开故乡踏上旅程的故事。</p>")),
            ("c1".to_string(), page("<p>第一章的正文内容足够长，会被收录进来。</p>")),
            ("c2".to_string(), page("<p>太短</p>")),
            ("c3".to_string(), page("<p>第三章的正文内容同样足够长。</p>")),
        ],
        spine: ids.iter().map(|s| s.to_string()).collect(),
    }
}

#[test]
fn volume_collects_pages_up_to_first_chapter() {
    let toc = vec![entry(
        " 第一卷 ",
        "OEBPS/Text/vol.xhtml",
        vec![
            entry("第一章", "OEBPS/Text/c1.xhtml", vec![]),
            entry("第二章", "OEBPS/Text/c2.xhtml#part", vec![]),
            entry("第三章", "OEBPS/Text/c3.xhtml", vec![]),
        ],
    )];
    let chapters = chapters_from_toc(&toc, &book());
    assert_eq!(chapters.len(), 3);
    assert_eq!(chapters[0].title.as_deref(), Some("第一卷"));
    assert_eq!(chapters[0].parent_title, None);
    assert_eq!(chapters[0].content, "第一卷\n\n这一卷讲述了主人公离开故乡踏上旅程的故事。");
    assert_eq!(chapters[0].char_count, chapters[0].content.chars().count() as u32 - 2);
    assert_eq!(chapters[1].title.as_deref(), Some("第一章"));
    assert_eq!(chapters[1].parent_title.as_deref(), Some("第一卷"));
    assert_eq!(chapters[2].title.as_deref(), Some("第三章"));
    for (i, c) in chapters.iter().enumerate() {
        assert_eq!(c.index, i as u32);
        assert_eq!(c.start_line, 0);
    }
}

#[test]
fn page_taken_once() {
    let toc = vec![
        entry("第一章", "OEBPS/Text/c1.xhtml", vec![]),
        entry("又是第一章", "OEBPS/Text/c1.xhtml", vec![]),
    ];
    let chapters = chapters_from_toc(&toc, &book());
    assert_eq!(chapters.len(), 1);
    assert_eq!(chapters[0].content, "第一章的正文内容足够长，会被收录进来。");
}

#[test]
fn spine_pages_make_chapters() {
    let chapters = chapters_from_spine(&book());
    // vol and c2 hold fewer than 10 characters.
    assert_eq!(chapters.len(), 3);
    assert_eq!(chapters[0].index, 0);
    assert_eq!(chapters[2].index, 2);
    assert!(chapters.iter().all(|c| c.parent_title.is_none()));
}

#[test]
fn empty_contents_fall_back_to_spine() {
    let from_book = book_chapters(&vec![], &book()).unwrap();
    assert_eq!(from_book.len(), chapters_from_spine(&book()).len());
    let unknown = vec![entry("缺失", "OEBPS/Text/missing.xhtml", vec![])];
    let fallback = book_chapters(&unknown, &book()).unwrap();
    assert_eq!(fallback.len(), 3);
}

#[test]
fn image_resources_listed_in_order() {
    let r = |id: &str, mime: &str| ResourceInfo {
        id: id.to_string(),
        path: format!("{}.bin", id),
        mime: mime.to_string(),
        properties: None,
    };
    let rs = vec![r("a", "image/png"), r("b", "application/xhtml+xml"), r("c", "image/jpeg")];
    assert_eq!(image_resource_ids(&rs), vec!["a".to_string(), "c".to_string()]);
}
