//! Context capsules: intent detection, query sanitization, budget planning and
//! result caching.
pub mod allocation;
pub mod budget;
pub mod cache;
pub mod generator;
pub mod intent;
pub mod pipeline;
pub mod search;
