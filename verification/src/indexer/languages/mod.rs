//! Extraction for languages that need no syntax tree.
pub mod dotenv;
pub mod html;
pub mod shared;
pub mod typescript;
pub mod patterns;
pub mod python;
pub mod c_lang;
pub mod rust_lang;
