//! Limits of the engine, and names that the front-ends and the files use.
use vstd::prelude::*;

verus! {

/// The longest key, in bytes, that an instruction may carry.
pub const MAX_KEY_LENGTH: usize = 4096;

/// The largest transaction identifier that is ever handed out.
pub const MAX_TRANSACTION_ID: u64 = 0x7fff_ffff_ffff_ffff;

/// The host that the servers listen on.
pub const SERVER_END_POINT: &'static str = "127.0.0.1";

/// The first part of the path of a request that is made inside a
/// transaction, or that starts or ends one.
pub const URL_TRANSACTIONS_KEY_WORD: &'static str = ".transactions";

/// The part of the path of a request that asks for a history.
pub const URL_JOURNAL_KEY_WORD: &'static str = ".journal";

/// The name under which a query gives a filter.
pub const FILTER_KEY_WORD: &'static str = "filter";

/// The name under which a query gives a height.
pub const HEIGHT: &'static str = "height";

/// The name in a query that asks to commit a transaction.
pub const COMMIT_TRANSACTION_KEY_WORD: &'static str = "commit";

/// The name in a query that asks to abort a transaction.
pub const ABORT_TRANSACTION_KEY_WORD: &'static str = "abort";

/// The name of the log file, without its ending.
pub const LOG_FILE_NAME: &'static str = "immuxsys";

} // verus!
