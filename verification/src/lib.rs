//! A verified core for a terminal code-review tool: a unified-diff parser,
//! a side-by-side alignment engine, a comment store persisted in git notes,
//! and a search index over the rendered diff.

pub mod align;
pub mod comments;
pub mod commits;
pub mod config;
pub mod diff_model;
pub mod diff_parser;
pub mod errors;
pub mod export;
pub mod input;
pub mod json;
pub mod notes;
pub mod rows;
pub mod search;
pub mod strutil;
pub mod syntax;
pub mod viewer;

pub use diff_model::{FileDiff, Hunk, HunkLine, LineType};
