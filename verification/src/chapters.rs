//! Chapters as the reader shows them, and a chapter's neighbours.
use vstd::prelude::*;

verus! {

/// A chapter with its content.
pub struct ChapterDetail {
    pub id: String,
    pub book_id: String,
    pub index: u32,
    pub title: Option<String>,
    pub parent_title: Option<String>,
    pub char_count: u32,
    pub analyzed: bool,
    pub technique_count: u32,
    pub knowledge_count: u32,
    pub content: String,
}

/// A chapter as listed.
pub struct ChapterListItem {
    pub id: String,
    pub index: u32,
    pub title: Option<String>,
    pub parent_title: Option<String>,
    pub char_count: u32,
    pub analyzed: bool,
}

/// The chapters before and after a chapter.
pub struct AdjacentChapters {
    pub prev: Option<ChapterListItem>,
    pub next: Option<ChapterListItem>,
}

/// The indexes of the chapters to look up around chapter `current` (chapters count
/// from 1): the one before where there is one, and the one after.
pub fn adjacent_indexes(current: u32) -> (res: (Option<u32>, u32))
    requires
        current < u32::MAX,
    ensures
        res.0 == if current > 1 {
            Some((current - 1) as u32)
        } else {
            None::<u32>
        },
        res.1 == current + 1,
{
    let prev = if current > 1 {
        Some(current - 1)
    } else {
        None
    };
    (prev, current + 1)
}

} // verus!
