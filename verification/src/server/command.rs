//! The commands that a request can stand for.
use crate::storage::chain_height::ChainHeight;
use crate::storage::executor::grouping_label::GroupingLabel;
use crate::storage::executor::unit_content::{ContentView, UnitContent};
use crate::storage::executor::unit_key::UnitKey;
use crate::storage::transaction_manager::TransactionId;
use vstd::prelude::*;
use vstd::string::*;

verus! {

/// The method of a request.
#[derive(Debug, Clone, Copy, PartialEq, Eq, Structural)]
pub enum HttpMethod {
    Get,
    Put,
    Post,
    Delete,
    /// Any other method.
    Other,
}

/// Which contents of a grouping a request asks for.
#[derive(Debug, PartialEq, Eq)]
pub enum SelectCondition {
    /// The content under a key, as a transaction sees it if one is given.
    Key(UnitKey, Option<TransactionId>),
    /// The contents that pass a filter, which is given as it was written.
    Filter(String),
    /// All contents.
    UnconditionalMatch,
}

/// Which contents of a grouping a request asks for, as a mathematical value.
pub enum SelectConditionView {
    Key(Seq<u8>, Option<u64>),
    Filter(Seq<char>),
    UnconditionalMatch,
}

/// What a request asks the store to do.
#[derive(Debug, PartialEq, Eq)]
pub enum Command {
    Select { grouping: GroupingLabel, condition: SelectCondition },
    Insert { grouping: GroupingLabel, key: UnitKey, content: UnitContent },
    RemoveOne { grouping: GroupingLabel, key: UnitKey },
    RemoveAll,
    RevertOne { grouping: GroupingLabel, key: UnitKey, height: ChainHeight },
    RevertAll { height: ChainHeight },
    InspectOne { grouping: GroupingLabel, key: UnitKey },
    InspectAll,
    CreateTransaction,
    TransactionCommit { transaction_id: TransactionId },
    TransactionAbort { transaction_id: TransactionId },
    TransactionalInsert {
        grouping: GroupingLabel,
        key: UnitKey,
        content: UnitContent,
        transaction_id: TransactionId,
    },
    TransactionalRemoveOne { grouping: GroupingLabel, key: UnitKey, transaction_id: TransactionId },
    TransactionalRevertOne {
        grouping: GroupingLabel,
        key: UnitKey,
        height: ChainHeight,
        transaction_id: TransactionId,
    },
}

/// A command as a mathematical value.
pub enum CommandView {
    Select { grouping: Seq<u8>, condition: SelectConditionView },
    Insert { grouping: Seq<u8>, key: Seq<u8>, content: ContentView },
    RemoveOne { grouping: Seq<u8>, key: Seq<u8> },
    RemoveAll,
    RevertOne { grouping: Seq<u8>, key: Seq<u8>, height: u64 },
    RevertAll { height: u64 },
    InspectOne { grouping: Seq<u8>, key: Seq<u8> },
    InspectAll,
    CreateTransaction,
    TransactionCommit { transaction_id: u64 },
    TransactionAbort { transaction_id: u64 },
    TransactionalInsert { grouping: Seq<u8>, key: Seq<u8>, content: ContentView, transaction_id: u64 },
    TransactionalRemoveOne { grouping: Seq<u8>, key: Seq<u8>, transaction_id: u64 },
    TransactionalRevertOne { grouping: Seq<u8>, key: Seq<u8>, height: u64, transaction_id: u64 },
}

impl SelectCondition {
    /// The condition as a mathematical value.
    pub open spec fn view(&self) -> SelectConditionView {
        match *self {
            SelectCondition::Key(key, transaction_id) => SelectConditionView::Key(
                key@,
                match transaction_id {
                    Some(id) => Some(id@),
                    None => None,
                },
            ),
            SelectCondition::Filter(filter) => SelectConditionView::Filter(filter@),
            SelectCondition::UnconditionalMatch => SelectConditionView::UnconditionalMatch,
        }
    }
}

impl Command {
    /// The command as a mathematical value.
    pub open spec fn view(&self) -> CommandView {
        match *self {
            Command::Select { grouping, condition } => CommandView::Select {
                grouping: grouping@,
                condition: condition@,
            },
            Command::Insert { grouping, key, content } => CommandView::Insert {
                grouping: grouping@,
                key: key@,
                content: content@,
            },
            Command::RemoveOne { grouping, key } => CommandView::RemoveOne {
                grouping: grouping@,
                key: key@,
            },
            Command::RemoveAll => CommandView::RemoveAll,
            Command::RevertOne { grouping, key, height } => CommandView::RevertOne {
                grouping: grouping@,
                key: key@,
                height: height@,
            },
            Command::RevertAll { height } => CommandView::RevertAll { height: height@ },
            Command::InspectOne { grouping, key } => CommandView::InspectOne {
                grouping: grouping@,
                key: key@,
            },
            Command::InspectAll => CommandView::InspectAll,
            Command::CreateTransaction => CommandView::CreateTransaction,
            Command::TransactionCommit { transaction_id } => CommandView::TransactionCommit {
                transaction_id: transaction_id@,
            },
            Command::TransactionAbort { transaction_id } => CommandView::TransactionAbort {
                transaction_id: transaction_id@,
            },
            Command::TransactionalInsert {
                grouping,
                key,
                content,
                transaction_id,
            } => CommandView::TransactionalInsert {
                grouping: grouping@,
                key: key@,
                content: content@,
                transaction_id: transaction_id@,
            },
            Command::TransactionalRemoveOne {
                grouping,
                key,
                transaction_id,
            } => CommandView::TransactionalRemoveOne {
                grouping: grouping@,
                key: key@,
                transaction_id: transaction_id@,
            },
            Command::TransactionalRevertOne {
                grouping,
                key,
                height,
                transaction_id,
            } => CommandView::TransactionalRevertOne {
                grouping: grouping@,
                key: key@,
                height: height@,
                transaction_id: transaction_id@,
            },
        }
    }
}

} // verus!
