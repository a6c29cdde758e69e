//! The layer between callers and the engine.
pub mod errors;
pub mod executor;
pub mod grouping_label;
pub mod instruction;
pub mod unit_content;
pub mod unit_key;
