//! A local context engine for code: identifier tokenization, search-query
//! sanitization, intent detection, structural diffs, reference resolution and
//! token-budget planning over an index of source symbols.
pub mod capsule;
pub mod config;
pub mod db;
pub mod git;
pub mod graph;
pub mod indexer;
pub mod lsp;
pub mod text;
pub mod types;
