//! Text-analysis primitives for a browser tab-management tool: a
//! Levenshtein edit-distance metric between two strings, and a keyword
//! extractor that turns a tab's title and URL into a normalized,
//! deduplicated, sorted set of search keywords.

pub mod keywords;
pub mod lev;
pub mod text;
pub mod words;

pub use keywords::generate_keyword_for_tab;
pub use keywords::KeywordError;
pub use lev::ld;
