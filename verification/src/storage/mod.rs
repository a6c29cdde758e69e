//! The storage engine and the parts it is built from.
pub mod buffer_parser;
pub mod chain_height;
pub mod errors;
pub mod executor;
pub mod instruction;
pub mod key_pointer_map;
pub mod kv;
pub mod kvkey;
pub mod kvvalue;
pub mod laws;
pub mod log_pointer;
pub mod log_state;
pub mod log_writer;
pub mod transaction_manager;
