//! The technique library's summary and edit request.
use vstd::prelude::*;

verus! {

/// How many technique types, examples and featured examples a book's library holds.
pub struct TechniqueLibraryStats {
    pub type_count: u32,
    pub example_count: u32,
    pub featured_count: u32,
}

/// A request to change a technique type.
pub struct UpdateTechniqueTypeRequest {
    pub id: String,
    pub name: String,
    pub category: String,
    pub description: Option<String>,
    pub principle: Option<String>,
}

} // verus!
