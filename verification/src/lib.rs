//! Verified text search-and-mutate engine: context-aware content search,
//! unified-diff patch application, and fuzzy search-and-replace editing.

pub mod apply_patch;
pub mod error;
pub mod grep;
pub mod io_tools;
pub mod now;
pub mod params;
pub mod pattern;
pub mod search_replace_edit;
pub mod task_complete;
pub mod text;
