//! An append-only, versioned key-value store with multi-key transactions and
//! point-in-time recovery.
//!
//! Every mutation is recorded as an instruction in an append-only log. The
//! engine keeps an index from keys to positions in that log, answers reads
//! through it, and can rebuild the index from the log alone.
//!
//! The library holds the bytes of the log in memory and never touches a
//! file: whoever uses it reads the log file before an engine is opened and
//! appends to the file what each operation has added to the log.
//!
//! - `utils` holds the encodings of numbers and texts.
//! - `storage` holds the instructions and their binary form, the index, the
//!   transaction manager, the engine, what a log means, and the laws that
//!   hold of every engine.
//! - `storage::executor` puts the engine behind groupings, keys and contents.
//! - `server` holds the errors of the front-ends and the reading of requests.
pub mod constants;
pub mod server;
pub mod storage;
pub mod utils;
