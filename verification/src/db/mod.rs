//! The index's data model and the identifier tokenizer behind its full-text
//! search.
pub mod records;
pub mod statements;
pub mod tokenizer;
