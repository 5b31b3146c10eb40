pub mod agent_selection;
pub mod analysis;
pub mod bible;
pub mod bible_export;
pub mod card_merge;
pub mod chapters;
pub mod clock;
pub mod context_builder;
pub mod cooccurrence;
pub mod cover;
pub mod model;
pub mod dedup;
pub mod embedding;
pub mod embedding_task;
pub mod duplicates;
pub mod epub;
pub mod export;
pub mod html;
pub mod inbox;
pub mod ingestion;
pub mod laws;
pub mod library;
pub mod parser;
pub mod profile;
pub mod provider_requests;
pub mod pattern;
pub mod search;
pub mod segmentation;
pub mod settings;
pub mod style_aggregate;
pub mod technique_library;
pub mod text;
pub mod toc;
pub mod vector_search;
