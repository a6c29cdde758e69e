//! The executor: the engine behind the keys and the contents that callers
//! use.
//!
//! The executor turns a grouping and a key into a key of the engine and a
//! content into its binary form, hands the request to the engine, and turns
//! what comes back into contents again. The instructions it shows carry the
//! keys of the engine.
use crate::storage::buffer_parser::spec_records_end;
use crate::storage::chain_height::ChainHeight;
use crate::storage::errors::{KVError, KVResult};
use crate::storage::executor::errors::{ExecutorError, ExecutorResult};
use crate::storage::executor::grouping_label::{spec_kv_key, GroupingLabel};
use crate::storage::executor::instruction::{spec_content_of, Instruction};
use crate::storage::executor::unit_content::{
    spec_marshal_content, spec_parse_content, ContentView, UnitContent, UnitContentError,
};
use crate::storage::executor::unit_key::UnitKey;
use crate::storage::instruction::InstructionView;
use crate::storage::key_pointer_map::slot_view;
use crate::storage::kvkey::copy_bytes;

use vstd::slice::slice_subrange;
use crate::storage::kv::{
    log_accepted, spec_remove_instruction, spec_revert_instruction, spec_set_instruction,
    LogKeyValueStore,
};
use crate::storage::log_state::{
    instructions_of, spec_inspect_all, spec_inspect_one, spec_reverted, state_after,
};
use crate::storage::transaction_manager::{TransactionId, TransactionManagerError};
use crate::constants::MAX_TRANSACTION_ID;
use vstd::prelude::*;

verus! {

/// The answer of the engine as an answer of the executor.
pub open spec fn lifted<T>(answer: KVResult<T>) -> ExecutorResult<T> {
    match answer {
        Ok(value) => Ok(value),
        Err(e) => Err(ExecutorError::KVError(e)),
    }
}

/// The answer of the engine as an answer of the executor.
fn lift<T>(answer: KVResult<T>) -> (result: ExecutorResult<T>)
    ensures
        result == lifted(answer),
{
    match answer {
        Ok(value) => Ok(value),
        Err(e) => Err(ExecutorError::KVError(e)),
    }
}

/// The error of the executor that stands for bytes that are no content.
fn unreadable(error: UnitContentError) -> (result: ExecutorError)
    ensures
        result matches ExecutorError::UnitContentError(text) && text@ == error.spec_text(),
{
    ExecutorError::UnitContentError(error.to_string())
}

/// Whether the instruction at `i` has a value that is no content.
pub open spec fn unreadable_at(listed: Seq<(InstructionView, u64)>, i: int) -> bool {
    0 <= i < listed.len() && spec_content_of(listed[i].0) matches Some(Err(_))
}

/// Whether `error` says that the first instruction of `listed` whose value is
/// no content has such a value, and why.
pub open spec fn tells_first_unreadable(
    error: ExecutorError,
    listed: Seq<(InstructionView, u64)>,
) -> bool {
    exists|i: int|
        {
            &&& #[trigger] unreadable_at(listed, i)
            &&& forall|j: int| 0 <= j < i ==> !#[trigger] unreadable_at(listed, j)
            &&& error matches ExecutorError::UnitContentError(text)
            &&& spec_content_of(listed[i].0) matches Some(Err(e))
            &&& text@ == e.spec_text()
        }
}

/// Whether `shown` is `listed` as callers see it: the same instructions in
/// the same order, each with its height.
pub open spec fn shows_all(
    shown: Seq<(Instruction, ChainHeight)>,
    listed: Seq<(InstructionView, u64)>,
) -> bool {
    &&& shown.len() == listed.len()
    &&& forall|i: int|
        0 <= i < shown.len() ==> (#[trigger] shown[i]).0.shows(listed[i].0) && shown[i].1@
            == listed[i].1
}

/// The executor.
pub struct Executor {
    store_engine: LogKeyValueStore,
}

impl Executor {
    /// The engine behind the executor.
    pub closed spec fn engine(&self) -> LogKeyValueStore {
        self.store_engine
    }

    /// What holds of every executor: its engine is as every engine is.
    pub open spec fn wf(&self) -> bool {
        self.engine().wf()
    }

    /// Opens an executor on the bytes of a log, as the engine is opened on
    /// them.
    pub fn open(log: Vec<u8>) -> (result: ExecutorResult<Executor>)
        ensures
            match result {
                Ok(executor) => {
                    &&& log_accepted(log@)
                    &&& executor.wf()
                    &&& executor.engine().log() == log@.take(spec_records_end(log@, 0) as int)
                },
                Err(e) => e == ExecutorError::KVError(KVError::CorruptLog) && !log_accepted(log@),
            },
    {
        match LogKeyValueStore::open(log) {
            Ok(store_engine) => Ok(Executor { store_engine }),
            Err(e) => Err(ExecutorError::KVError(e)),
        }
    }

    /// The bytes of the log.
    pub fn log_bytes(&self) -> (bytes: &[u8])
        ensures
            bytes@ == self.engine().log(),
    {
        self.store_engine.log_bytes()
    }

    /// Writes `value` under `key` in `grouping`: the engine is asked to write
    /// the binary form of the content under the bytes of the grouping
    /// followed by the bytes of the key.
    pub fn set(
        &mut self,
        grouping: &GroupingLabel,
        key: &UnitKey,
        value: &UnitContent,
        transaction_id: Option<TransactionId>,
    ) -> (result: ExecutorResult<()>)
        requires
            old(self).wf(),
        ensures
            final(self).wf(),
            result == lifted(
                old(self).engine().write_outcome(
                    spec_kv_key(grouping@, key@),
                    None,
                    slot_view(transaction_id),
                ),
            ),
            result is Err ==> final(self).engine() == old(self).engine(),
            result is Ok ==> final(self).engine().follows(
                old(self).engine(),
                spec_set_instruction(
                    spec_kv_key(grouping@, key@),
                    spec_marshal_content(value@),
                    slot_view(transaction_id),
                ),
            ),
    {
        let kv_key = grouping.kv_key(key);
        let kv_value = value.marshal();
        lift(self.store_engine.set(&kv_key, &kv_value, transaction_id))
    }

    /// Reads `key` in `grouping`: the engine is asked for the bytes under the
    /// key that stands for them, and the bytes are read as a content.
    pub fn get(
        &self,
        grouping: &GroupingLabel,
        key: &UnitKey,
        transaction_id: Option<TransactionId>,
    ) -> (result: ExecutorResult<Option<UnitContent>>)
        ensures
            match self.engine().value(spec_kv_key(grouping@, key@), slot_view(transaction_id)) {
                Err(e) => result == Err::<Option<UnitContent>, ExecutorError>(
                    ExecutorError::KVError(e),
                ),
                Ok(None) => result == Ok::<Option<UnitContent>, ExecutorError>(None),
                Ok(Some(bytes)) => match spec_parse_content(bytes) {
                    Ok((content, _)) => result matches Ok(Some(found)) && found@ == content,
                    Err(e) => result matches Err(ExecutorError::UnitContentError(text))
                        && text@ == e.spec_text(),
                },
            },
    {
        let kv_key = grouping.kv_key(key);
        match self.store_engine.get(&kv_key, transaction_id) {
            Err(e) => Err(ExecutorError::KVError(e)),
            Ok(None) => Ok(None),
            Ok(Some(kv_value)) => match UnitContent::parse(kv_value.as_slice()) {
                Ok((content, _)) => Ok(Some(content)),
                Err(e) => Err(unreadable(e)),
            },
        }
    }

    /// The keys of `grouping` that have a content for everybody, each once
    /// and with its content. A value that is no content cannot be shown.
    pub fn get_all_current(&self, grouping: &GroupingLabel) -> (result: ExecutorResult<
        Vec<(UnitKey, UnitContent)>,
    >)
        requires
            self.wf(),
        ensures
            match result {
                Ok(found) => {
                    &&& forall|i: int|
                        0 <= i < found@.len() ==> self.shows_content(
                            grouping@,
                            (#[trigger] found@[i]).0@,
                            found@[i].1@,
                        )
                    &&& forall|key: Seq<u8>| #[trigger]
                        self.engine().has_value(spec_kv_key(grouping@, key)) ==> exists|i: int|
                            0 <= i < found@.len() && (#[trigger] found@[i]).0@ == key
                    &&& forall|a: int, b: int|
                        0 <= a < b < found@.len() ==> (#[trigger] found@[a]).0@ != (
                        #[trigger] found@[b]).0@
                },
                Err(ExecutorError::KVError(e)) => exists|key: Seq<u8>|
                    #[trigger] self.engine().value(key, None) == Err::<Option<Seq<u8>>, KVError>(
                        e,
                    ),
                Err(ExecutorError::UnitContentError(text)) => exists|key: Seq<u8>|
                    #[trigger] self.unreadable_content(grouping@, key),
                Err(_) => false,
            },
    {
        let pairs = match self.store_engine.get_all_current() {
            Ok(pairs) => pairs,
            Err(e) => {
                return Err(ExecutorError::KVError(e));
            },
        };
        let mut found: Vec<(UnitKey, UnitContent)> = Vec::new();
        let ghost mut from: Seq<int> = Seq::empty();
        let mut i: usize = 0;
        while i < pairs.len()
            invariant
                i <= pairs@.len(),
                from.len() == found@.len(),
                forall|k: int|
                    0 <= k < pairs@.len() ==> self.engine().value((#[trigger] pairs@[k]).0@, None)
                        == Ok::<Option<Seq<u8>>, KVError>(Some(pairs@[k].1@)),
                forall|a: int, b: int|
                    0 <= a < b < pairs@.len() ==> (#[trigger] pairs@[a]).0@ != (
                    #[trigger] pairs@[b]).0@,
                forall|k: int|
                    0 <= k < from.len() ==> 0 <= (#[trigger] from[k]) < i && spec_kv_key(
                        grouping@,
                        found@[k].0@,
                    ) == pairs@[from[k]].0@ && self.shows_content(
                        grouping@,
                        found@[k].0@,
                        found@[k].1@,
                    ),
                forall|a: int, b: int| 0 <= a < b < from.len() ==> from[a] < from[b],
                forall|j: int|
                    0 <= j < i && in_grouping(grouping@, (#[trigger] pairs@[j]).0@) ==> exists|
                        k: int,
                    | 0 <= k < from.len() && #[trigger] from[k] == j,
            decreases pairs.len() - i,
        {
            let kv_key = &pairs[i].0;
            let kv_value = &pairs[i].1;
            if starts_with(kv_key.as_slice(), grouping.as_bytes()) {
                let rest = slice_subrange(kv_key.as_slice(), grouping.as_bytes().len(), kv_key.len());
                let ghost key = kv_key@.skip(grouping@.len() as int);
                assert(rest@ == key);
                assert(spec_kv_key(grouping@, key) =~= kv_key@);
                match UnitContent::parse(kv_value.as_slice()) {
                    Ok((content, _)) => {
                        let ghost before = from;
                        found.push((UnitKey::new(copy_bytes(rest)), content));
                        proof {
                            from = from.push(i as int);
                            assert forall|j: int|
                                0 <= j < i + 1 && in_grouping(
                                    grouping@,
                                    (#[trigger] pairs@[j]).0@,
                                ) implies exists|k: int|
                                0 <= k < from.len() && #[trigger] from[k] == j by {
                                if j < i {
                                    let k = choose|k: int|
                                        0 <= k < before.len() && #[trigger] before[k] == j;
                                    assert(from[k] == j);
                                } else {
                                    assert(from[from.len() - 1] == j);
                                }
                            }
                        }
                    },
                    Err(e) => {
                        assert(self.unreadable_content(grouping@, key));
                        return Err(unreadable(e));
                    },
                }
            }
            i = i + 1;
        }
        proof {
            assert forall|key: Seq<u8>| #[trigger]
                self.engine().has_value(spec_kv_key(grouping@, key)) implies exists|i: int|
                0 <= i < found@.len() && (#[trigger] found@[i]).0@ == key by {
                let whole = spec_kv_key(grouping@, key);
                let j = choose|j: int| 0 <= j < pairs@.len() && (#[trigger] pairs@[j]).0@ == whole;
                assert(whole.take(grouping@.len() as int) =~= grouping@);
                assert(in_grouping(grouping@, pairs@[j].0@));
                let k = choose|k: int| 0 <= k < from.len() && #[trigger] from[k] == j;
                assert(spec_kv_key(grouping@, found@[k].0@) == whole);
                assert(found@[k].0@ =~= whole.skip(grouping@.len() as int));
                assert(key =~= whole.skip(grouping@.len() as int));
            }
            assert forall|a: int, b: int| 0 <= a < b < found@.len() implies (
            #[trigger] found@[a]).0@ != (#[trigger] found@[b]).0@ by {
                assert(from[a] < from[b]);
                assert(pairs@[from[a]].0@ != pairs@[from[b]].0@);
            }
            assert forall|i: int| 0 <= i < found@.len() implies self.shows_content(
                grouping@,
                (#[trigger] found@[i]).0@,
                found@[i].1@,
            ) by {
                assert(0 <= from[i]);
            }
        }
        Ok(found)
    }

    /// Whether `content` is what everybody reads under `key` in `grouping`.
    pub open spec fn shows_content(
        &self,
        grouping: Seq<u8>,
        key: Seq<u8>,
        content: ContentView,
    ) -> bool {
        match self.engine().value(spec_kv_key(grouping, key), None) {
            Ok(Some(bytes)) => spec_parse_content(bytes) matches Ok((found, _)) && found == content,
            _ => false,
        }
    }

    /// Whether what everybody reads under `key` in `grouping` is no content.
    pub open spec fn unreadable_content(&self, grouping: Seq<u8>, key: Seq<u8>) -> bool {
        match self.engine().value(spec_kv_key(grouping, key), None) {
            Ok(Some(bytes)) => spec_parse_content(bytes) is Err,
            _ => false,
        }
    }

    /// Sets `key` in `grouping` back to what it was once the instruction at
    /// `height` was in effect.
    pub fn revert_one(
        &mut self,
        grouping: &GroupingLabel,
        key: &UnitKey,
        height: &ChainHeight,
        transaction_id: Option<TransactionId>,
    ) -> (result: ExecutorResult<()>)
        requires
            old(self).wf(),
        ensures
            final(self).wf(),
            result == lifted(
                old(self).engine().write_outcome(
                    spec_kv_key(grouping@, key@),
                    Some(height@),
                    slot_view(transaction_id),
                ),
            ),
            result is Err ==> final(self).engine() == old(self).engine(),
            result is Ok ==> final(self).engine().follows(
                old(self).engine(),
                spec_revert_instruction(
                    spec_kv_key(grouping@, key@),
                    height@,
                    slot_view(transaction_id),
                ),
            ),
    {
        let kv_key = grouping.kv_key(key);
        lift(self.store_engine.revert_one(&kv_key, height, transaction_id))
    }

    /// Sets every key back to what it was once the instruction at `height`
    /// was in effect.
    pub fn revert_all(&mut self, height: &ChainHeight) -> (result: ExecutorResult<()>)
        requires
            old(self).wf(),
        ensures
            final(self).wf(),
            height@ > old(self).engine().height() ==> result == Err::<(), ExecutorError>(
                ExecutorError::KVError(KVError::RevertOutOfRange),
            ) && final(self).engine() == old(self).engine(),
            height@ <= old(self).engine().height() ==> {
                &&& result is Ok
                &&& final(self).engine().log() == old(self).engine().log() + crate::storage::instruction::spec_serialize(
                    InstructionView::RevertAll { height: height@ },
                )
                &&& final(self).engine().height() == old(self).engine().height() + 1
                &&& final(self).engine().state() == if height@ < old(self).engine().height() {
                    spec_reverted(
                        old(self).engine().state(),
                        state_after(old(self).engine().records(), (height@ + 1) as nat),
                    )
                } else {
                    old(self).engine().state()
                }
            },
    {
        lift(self.store_engine.revert_all(height))
    }

    /// Removes `key` in `grouping`.
    pub fn remove_one(
        &mut self,
        grouping: &GroupingLabel,
        key: &UnitKey,
        transaction_id: Option<TransactionId>,
    ) -> (result: ExecutorResult<()>)
        requires
            old(self).wf(),
        ensures
            final(self).wf(),
            result == lifted(
                old(self).engine().write_outcome(
                    spec_kv_key(grouping@, key@),
                    None,
                    slot_view(transaction_id),
                ),
            ),
            result is Err ==> final(self).engine() == old(self).engine(),
            result is Ok ==> final(self).engine().follows(
                old(self).engine(),
                spec_remove_instruction(spec_kv_key(grouping@, key@), slot_view(transaction_id)),
            ),
    {
        let kv_key = grouping.kv_key(key);
        lift(self.store_engine.remove_one(&kv_key, transaction_id))
    }

    /// Removes every key.
    pub fn remove_all(&mut self) -> (result: ExecutorResult<()>)
        requires
            old(self).wf(),
        ensures
            final(self).wf(),
            result is Ok,
            final(self).engine().follows(old(self).engine(), InstructionView::RemoveAll),
    {
        lift(self.store_engine.remove_all())
    }

    /// The instructions of the log as callers see them, each with its height.
    /// A log with a value that is no content cannot be shown: the error tells
    /// of the first such value.
    pub fn inspect_all(&self) -> (result: ExecutorResult<Vec<(Instruction, ChainHeight)>>)
        ensures
            match result {
                Ok(shown) => shows_all(
                    shown@,
                    spec_inspect_all(instructions_of(self.engine().records())),
                ),
                Err(e) => tells_first_unreadable(
                    e,
                    spec_inspect_all(instructions_of(self.engine().records())),
                ),
            },
    {
        match self.store_engine.inspect_all() {
            Ok(found) => show(found),
            Err(e) => Err(ExecutorError::KVError(e)),
        }
    }

    /// The history of `target_key` in `grouping` as callers see it.
    pub fn inspect_one(&self, grouping: &GroupingLabel, target_key: &UnitKey) -> (result:
        ExecutorResult<Vec<(Instruction, ChainHeight)>>)
        ensures
            match result {
                Ok(shown) => shows_all(
                    shown@,
                    spec_inspect_one(
                        instructions_of(self.engine().records()),
                        spec_kv_key(grouping@, target_key@),
                        self.engine().records().len(),
                    ),
                ),
                Err(e) => tells_first_unreadable(
                    e,
                    spec_inspect_one(
                        instructions_of(self.engine().records()),
                        spec_kv_key(grouping@, target_key@),
                        self.engine().records().len(),
                    ),
                ),
            },
    {
        let kv_key = grouping.kv_key(target_key);
        match self.store_engine.inspect_one(&kv_key) {
            Ok(found) => show(found),
            Err(e) => Err(ExecutorError::KVError(e)),
        }
    }

    /// Starts a transaction.
    pub fn start_transaction(&mut self) -> (result: ExecutorResult<TransactionId>)
        requires
            old(self).wf(),
        ensures
            final(self).wf(),
            old(self).engine().transactions().counter >= MAX_TRANSACTION_ID ==> result == Err::<
                TransactionId,
                ExecutorError,
            >(
                ExecutorError::KVError(
                    KVError::TransactionManagerError(
                        TransactionManagerError::TransactionIdOutOfRange,
                    ),
                ),
            ) && final(self).engine() == old(self).engine(),
            old(self).engine().transactions().counter < MAX_TRANSACTION_ID ==> result == Ok::<
                TransactionId,
                ExecutorError,
            >(TransactionId((old(self).engine().transactions().counter + 1) as u64))
                && final(self).engine().follows(
                old(self).engine(),
                InstructionView::TransactionStart {
                    transaction_id: (old(self).engine().transactions().counter + 1) as u64,
                },
            ),
    {
        lift(self.store_engine.start_transaction())
    }

    /// Commits a transaction.
    pub fn commit_transaction(&mut self, transaction_id: TransactionId) -> (result: ExecutorResult<
        (),
    >)
        requires
            old(self).wf(),
        ensures
            final(self).wf(),
            result == lifted(old(self).engine().end_outcome(transaction_id@)),
            result is Err ==> final(self).engine() == old(self).engine(),
            result is Ok ==> final(self).engine().follows(
                old(self).engine(),
                InstructionView::TransactionCommit { transaction_id: transaction_id@ },
            ),
    {
        lift(self.store_engine.commit_transaction(transaction_id))
    }

    /// Aborts a transaction.
    pub fn abort_transaction(&mut self, transaction_id: TransactionId) -> (result: ExecutorResult<
        (),
    >)
        requires
            old(self).wf(),
        ensures
            final(self).wf(),
            result == lifted(old(self).engine().end_outcome(transaction_id@)),
            result is Err ==> final(self).engine() == old(self).engine(),
            result is Ok ==> final(self).engine().follows(
                old(self).engine(),
                InstructionView::TransactionAbort { transaction_id: transaction_id@ },
            ),
    {
        lift(self.store_engine.abort_transaction(transaction_id))
    }
}

/// Shows instructions of the log as callers see them.
fn show(found: Vec<(crate::storage::instruction::Instruction, ChainHeight)>) -> (result:
    ExecutorResult<Vec<(Instruction, ChainHeight)>>)
    ensures
        match result {
            Ok(shown) => shows_all(shown@, crate::storage::kv::inspection_view(found@)),
            Err(e) => tells_first_unreadable(e, crate::storage::kv::inspection_view(found@)),
        },
{
    let ghost listed = crate::storage::kv::inspection_view(found@);
    let mut shown: Vec<(Instruction, ChainHeight)> = Vec::new();
    let mut i: usize = 0;
    while i < found.len()
        invariant
            i <= found@.len(),
            listed == crate::storage::kv::inspection_view(found@),
            shown@.len() == i,
            forall|j: int|
                0 <= j < i ==> (#[trigger] shown@[j]).0.shows(listed[j].0) && shown@[j].1@
                    == listed[j].1,
        decreases found.len() - i,
    {
        assert(listed[i as int] == (found@[i as int].0@, found@[i as int].1@));
        match Instruction::try_from(&found[i].0) {
            Ok(instruction) => {
                shown.push((instruction, found[i].1));
            },
            Err(e) => {
                let error = unreadable(e);
                proof {
                    assert(unreadable_at(listed, i as int));
                    assert forall|j: int| 0 <= j < i implies !#[trigger] unreadable_at(
                        listed,
                        j,
                    ) by {
                        assert(shown@[j].0.shows(listed[j].0));
                    }
                }
                return Err(error);
            },
        }
        i = i + 1;
    }
    Ok(shown)
}

/// Whether `key` is a key of the engine that stands for a key in `grouping`.
pub open spec fn in_grouping(grouping: Seq<u8>, key: Seq<u8>) -> bool {
    key.len() >= grouping.len() && key.take(grouping.len() as int) == grouping
}

/// Whether `bytes` begin with `prefix`.
fn starts_with(bytes: &[u8], prefix: &[u8]) -> (begins: bool)
    ensures
        begins == in_grouping(prefix@, bytes@),
{
    if bytes.len() < prefix.len() {
        return false;
    }
    let mut i: usize = 0;
    while i < prefix.len()
        invariant
            i <= prefix@.len() <= bytes@.len(),
            forall|j: int| 0 <= j < i ==> bytes@[j] == prefix@[j],
        decreases prefix.len() - i,
    {
        if bytes[i] != prefix[i] {
            assert(bytes@.take(prefix@.len() as int)[i as int] != prefix@[i as int]);
            return false;
        }
        i = i + 1;
    }
    assert(bytes@.take(prefix@.len() as int) =~= prefix@);
    true
}

} // verus!
