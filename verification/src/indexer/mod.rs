//! Indexing: file selection, symbol extraction results, structural diffs and
//! cross-file reference resolution.
pub mod extractor;
pub mod languages;
pub mod pipeline;
pub mod resolver;
pub mod scanner;
pub mod structural_diff;
pub mod syntax;
