//! What the front-ends share with the storage engine.
pub mod command;
pub mod errors;
pub mod server;
