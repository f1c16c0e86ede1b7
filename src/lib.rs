//! Keyword search over past conversation sessions: weighted scoring of session
//! index entries, and deep search over transcript lines with text extraction
//! for two record layouts, per-session caps and character-safe snippets.

pub mod dates;
pub mod deep;
pub mod deep_search;
pub mod extract;
pub mod index_search;
pub mod json;
pub mod present;
pub mod query;
pub mod scoring;
pub mod snippet;
pub mod text;
