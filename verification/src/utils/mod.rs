//! Encodings shared by the binary formats and the front-ends.
pub mod decimal;
pub mod text;
pub mod varint;
