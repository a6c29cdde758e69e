//! The instructions of the log as callers see them: with the keys and the
//! contents that callers use.
use crate::storage::chain_height::ChainHeight;
use crate::storage::executor::unit_content::{
    spec_parse_content, ContentView, UnitContent, UnitContentError,
};
use crate::storage::executor::unit_key::UnitKey;
use crate::storage::instruction::InstructionView;
use crate::storage::kvkey::copy_bytes;
use crate::storage::transaction_manager::TransactionId;
use vstd::prelude::*;

verus! {

/// One record of the log, with its value read as a content.
#[derive(Debug, PartialEq, Eq)]
pub enum Instruction {
    SetOne { key: UnitKey, value: UnitContent },
    RevertOne { key: UnitKey, height: ChainHeight },
    RevertAll { height: ChainHeight },
    RemoveOne { key: UnitKey },
    RemoveAll,
    TransactionStart { transaction_id: TransactionId },
    TransactionalSet { key: UnitKey, value: UnitContent, transaction_id: TransactionId },
    TransactionalRevertOne { key: UnitKey, height: ChainHeight, transaction_id: TransactionId },
    TransactionalRemoveOne { key: UnitKey, transaction_id: TransactionId },
    TransactionCommit { transaction_id: TransactionId },
    TransactionAbort { transaction_id: TransactionId },
}

/// The content that the value of an instruction of the log stands for, or
/// the reason the value is no content; nothing for an instruction without a
/// value.
pub open spec fn spec_content_of(instruction: InstructionView) -> Option<
    Result<ContentView, UnitContentError>,
> {
    match instruction.value() {
        Some(value) => Some(
            match spec_parse_content(value) {
                Ok((content, _)) => Ok(content),
                Err(e) => Err(e),
            },
        ),
        None => None,
    }
}

impl Instruction {
    /// The content of the instruction, if it carries one.
    pub open spec fn content(self) -> Option<ContentView> {
        match self {
            Instruction::SetOne { value, .. } => Some(value@),
            Instruction::TransactionalSet { value, .. } => Some(value@),
            _ => None,
        }
    }

    /// The instruction with its content put back into bytes `value`.
    pub open spec fn lowered(self, value: Seq<u8>) -> InstructionView {
        match self {
            Instruction::SetOne { key, .. } => InstructionView::SetOne { key: key@, value },
            Instruction::RevertOne { key, height } => InstructionView::RevertOne {
                key: key@,
                height: height@,
            },
            Instruction::RevertAll { height } => InstructionView::RevertAll { height: height@ },
            Instruction::RemoveOne { key } => InstructionView::RemoveOne { key: key@ },
            Instruction::RemoveAll => InstructionView::RemoveAll,
            Instruction::TransactionStart { transaction_id } => InstructionView::TransactionStart {
                transaction_id: transaction_id@,
            },
            Instruction::TransactionalSet {
                key,
                transaction_id,
                ..
            } => InstructionView::TransactionalSet {
                key: key@,
                value,
                transaction_id: transaction_id@,
            },
            Instruction::TransactionalRevertOne {
                key,
                height,
                transaction_id,
            } => InstructionView::TransactionalRevertOne {
                key: key@,
                height: height@,
                transaction_id: transaction_id@,
            },
            Instruction::TransactionalRemoveOne {
                key,
                transaction_id,
            } => InstructionView::TransactionalRemoveOne {
                key: key@,
                transaction_id: transaction_id@,
            },
            Instruction::TransactionCommit {
                transaction_id,
            } => InstructionView::TransactionCommit { transaction_id: transaction_id@ },
            Instruction::TransactionAbort { transaction_id } => InstructionView::TransactionAbort {
                transaction_id: transaction_id@,
            },
        }
    }

    /// Whether this is the instruction `logged` of the log as callers see it:
    /// the same kind, key, height and transaction, and for a value the
    /// content that the value stands for.
    pub open spec fn shows(self, logged: InstructionView) -> bool {
        match logged.value() {
            Some(value) => self.lowered(value) == logged && spec_content_of(logged) == Some(
                Ok::<ContentView, UnitContentError>(self.content().unwrap()),
            ),
            None => self.lowered(Seq::empty()) == logged && self.content() is None,
        }
    }

    /// Reads an instruction of the log as callers see it. An instruction
    /// whose value is no content cannot be read.
    pub fn try_from(logged: &crate::storage::instruction::Instruction) -> (result: Result<
        Instruction,
        UnitContentError,
    >)
        ensures
            match result {
                Ok(instruction) => instruction.shows(logged@),
                Err(e) => spec_content_of(logged@) == Some(Err::<ContentView, UnitContentError>(e)),
            },
    {
        match logged {
            crate::storage::instruction::Instruction::SetOne { key, value } => {
                match UnitContent::parse(value.as_slice()) {
                    Ok((content, _)) => Ok(
                        Instruction::SetOne {
                            key: UnitKey::new(copy_bytes(key.as_slice())),
                            value: content,
                        },
                    ),
                    Err(e) => Err(e),
                }
            },
            crate::storage::instruction::Instruction::RevertOne { key, height } => Ok(
                Instruction::RevertOne {
                    key: UnitKey::new(copy_bytes(key.as_slice())),
                    height: *height,
                },
            ),
            crate::storage::instruction::Instruction::RevertAll { height } => Ok(
                Instruction::RevertAll { height: *height },
            ),
            crate::storage::instruction::Instruction::RemoveOne { key } => Ok(
                Instruction::RemoveOne { key: UnitKey::new(copy_bytes(key.as_slice())) },
            ),
            crate::storage::instruction::Instruction::RemoveAll => Ok(Instruction::RemoveAll),
            crate::storage::instruction::Instruction::TransactionStart { transaction_id } => Ok(
                Instruction::TransactionStart { transaction_id: *transaction_id },
            ),
            crate::storage::instruction::Instruction::TransactionalSet {
                key,
                value,
                transaction_id,
            } => {
                match UnitContent::parse(value.as_slice()) {
                    Ok((content, _)) => Ok(
                        Instruction::TransactionalSet {
                            key: UnitKey::new(copy_bytes(key.as_slice())),
                            value: content,
                            transaction_id: *transaction_id,
                        },
                    ),
                    Err(e) => Err(e),
                }
            },
            crate::storage::instruction::Instruction::TransactionalRevertOne {
                key,
                height,
                transaction_id,
            } => Ok(
                Instruction::TransactionalRevertOne {
                    key: UnitKey::new(copy_bytes(key.as_slice())),
                    height: *height,
                    transaction_id: *transaction_id,
                },
            ),
            crate::storage::instruction::Instruction::TransactionalRemoveOne {
                key,
                transaction_id,
            } => Ok(
                Instruction::TransactionalRemoveOne {
                    key: UnitKey::new(copy_bytes(key.as_slice())),
                    transaction_id: *transaction_id,
                },
            ),
            crate::storage::instruction::Instruction::TransactionCommit { transaction_id } => Ok(
                Instruction::TransactionCommit { transaction_id: *transaction_id },
            ),
            crate::storage::instruction::Instruction::TransactionAbort { transaction_id } => Ok(
                Instruction::TransactionAbort { transaction_id: *transaction_id },
            ),
        }
    }
}

} // verus!
