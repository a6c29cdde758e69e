//! The errors of the storage engine.
use crate::storage::chain_height::ChainHeightError;
use crate::storage::instruction::InstructionError;
use crate::storage::transaction_manager::TransactionManagerError;
use vstd::prelude::*;
use vstd::string::*;

verus! {

/// Why the engine refuses a request.
#[derive(Debug, Clone, PartialEq, Eq)]
pub enum KVError {
    /// A file operation failed; the text is what the system said.
    IOError(String),
    /// An instruction could not be read or may not be written.
    InstructionError(InstructionError),
    /// The height to go back to lies above the current height.
    RevertOutOfRange,
    /// A number could not be read; the text says why.
    ParseIntError(String),
    /// The chain height cannot be stepped.
    ChainHeightError(ChainHeightError),
    /// A pointer of the index leads to an instruction that writes no key.
    PointToUnexpectedInstruction,
    /// The transaction manager refused.
    TransactionManagerError(TransactionManagerError),
    /// The log holds what the engine cannot have written.
    CorruptLog,
}

pub type KVResult<T> = Result<T, KVError>;

/// The text that stands for an error.
pub open spec fn spec_kv_error_text(error: KVError) -> Seq<char> {
    match error {
        KVError::IOError(text) => "KVError::IOError::"@ + text@,
        KVError::InstructionError(e) => "KVError::InstructionError::"@ + (match e {
            InstructionError::UnknownTag => "InstructionError::UnknownTag"@,
            InstructionError::Truncated => "InstructionError::Truncated"@,
            InstructionError::KeyTooLong => "InstructionError::KeyTooLong"@,
            InstructionError::VarintOverflow => "InstructionError::VarintOverflow"@,
        }),
        KVError::RevertOutOfRange => "KVError::RevertOutOfRange"@,
        KVError::ParseIntError(text) => "KVError::ParseIntError::"@ + text@,
        KVError::ChainHeightError(e) => "KVError::ChainHeightError::"@ + (match e {
            ChainHeightError::NegativeChainHeight => "ChainHeightError::NegativeChainHeight"@,
            ChainHeightError::ChainHeightOutOfRange => "ChainHeightError::ChainHeightOutOfRange"@,
        }),
        KVError::PointToUnexpectedInstruction => "KVError::PointToUnexpectedInstruction"@,
        KVError::TransactionManagerError(e) => "KVError::TransactionManagerError::"@ + (match e {
            TransactionManagerError::TransactionIdOutOfRange => "TransactionManagerError::TransactionIdOutOfRange"@,
            TransactionManagerError::TransactionNotAlive => "TransactionManagerError::TransactionNotAlive"@,
        }),
        KVError::CorruptLog => "KVError::CorruptLog"@,
    }
}

impl KVError {
    /// The text that stands for the error.
    pub fn to_string(&self) -> (text: String)
        ensures
            text@ == spec_kv_error_text(*self),
    {
        match self {
            KVError::IOError(text) => String::from_str("KVError::IOError::").concat(text.as_str()),
            KVError::InstructionError(e) => String::from_str("KVError::InstructionError::").concat(
                e.to_string().as_str(),
            ),
            KVError::RevertOutOfRange => String::from_str("KVError::RevertOutOfRange"),
            KVError::ParseIntError(text) => String::from_str("KVError::ParseIntError::").concat(
                text.as_str(),
            ),
            KVError::ChainHeightError(e) => String::from_str("KVError::ChainHeightError::").concat(
                e.to_string().as_str(),
            ),
            KVError::PointToUnexpectedInstruction => String::from_str(
                "KVError::PointToUnexpectedInstruction",
            ),
            KVError::TransactionManagerError(e) => String::from_str(
                "KVError::TransactionManagerError::",
            ).concat(e.to_string().as_str()),
            KVError::CorruptLog => String::from_str("KVError::CorruptLog"),
        }
    }
}

} // verus!
