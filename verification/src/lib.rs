//! Local storage layer for a writing-project tool.
//!
//! The library holds the verified logic of the store: frontmatter parsing,
//! metadata derivation, filename sanitization, the project descriptor codec,
//! path handling and recency ordering. Filesystem access is left to the
//! surrounding application, which hands the results of reads and stat calls
//! to the functions here as plain values.

pub mod descriptor;
pub mod document;
pub mod errors;
pub mod frontmatter;
pub mod listing;
pub mod models;
pub mod outside;
pub mod paths;
pub mod project;
pub mod text;
