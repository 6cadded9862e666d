//! Extraction of per-file edit history from a version-controlled working
//! tree: repository discovery, path resolution, commit-graph traversal,
//! per-commit change detection, and construction of the ordered list of
//! edit records.

pub mod gitio;
pub mod history;
pub mod paths;
pub mod text;
