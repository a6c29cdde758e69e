//! What a log means: the index and the transactions that its instructions
//! leave behind, and the values that reads resolve to.
//!
//! Everything here is mathematics. The engine keeps its index and its
//! transaction manager equal to the state defined here, and recovery rebuilds
//! them from the log by the same definitions.
use crate::constants::MAX_TRANSACTION_ID;
use crate::storage::buffer_parser::{spec_records, LogRecord};
use crate::storage::errors::KVError;
use crate::storage::instruction::{spec_parse, InstructionError, InstructionView};
use crate::storage::key_pointer_map::{without_committed, IndexView};
use crate::storage::log_pointer::LogPointer;
use crate::storage::transaction_manager::TransactionManagerView;
use vstd::prelude::*;

verus! {

/// The index and the transactions of an engine.
pub struct LogState {
    pub index: IndexView,
    pub transactions: TransactionManagerView,
}

/// The state of an engine with an empty log.
pub open spec fn initial_state() -> LogState {
    LogState {
        index: Map::empty(),
        transactions: TransactionManagerView { counter: 0, live: Map::empty() },
    }
}

/// The pointer to a record.
pub open spec fn spec_pointer(record: LogRecord) -> LogPointer {
    LogPointer { pos: record.pos as u64, len: record.len as usize }
}

/// The instructions of `records`.
pub open spec fn instructions_of(records: Seq<LogRecord>) -> Seq<InstructionView> {
    Seq::new(records.len(), |i: int| records[i].instruction)
}

/// The keys that a transaction has written to; none for one that is not live.
pub open spec fn affected(live: Map<u64, Seq<Seq<u8>>>, transaction_id: u64) -> Seq<Seq<u8>> {
    if live.contains_key(transaction_id) {
        live[transaction_id]
    } else {
        Seq::empty()
    }
}

/// The live transactions after `transaction_id` has written to `key`.
pub open spec fn touched(
    live: Map<u64, Seq<Seq<u8>>>,
    transaction_id: u64,
    key: Seq<u8>,
) -> Map<u64, Seq<Seq<u8>>> {
    if live.contains_key(transaction_id) {
        live.insert(transaction_id, live[transaction_id].push(key))
    } else {
        live
    }
}

/// The index after a transaction that has written to `keys` commits: for each
/// of the keys, the pointer in the slot of the transaction moves to the
/// committed slot.
pub open spec fn promoted(index: IndexView, keys: Seq<Seq<u8>>, transaction_id: u64) -> IndexView {
    Map::new(
        |place: (Seq<u8>, Option<u64>)|
            if keys.contains(place.0) && place.1 == Some(transaction_id) {
                false
            } else if keys.contains(place.0) && place.1 is None {
                index.contains_key((place.0, Some(transaction_id))) || index.contains_key(place)
            } else {
                index.contains_key(place)
            },
        |place: (Seq<u8>, Option<u64>)|
            if keys.contains(place.0) && place.1 is None && index.contains_key(
                (place.0, Some(transaction_id)),
            ) {
                index[(place.0, Some(transaction_id))]
            } else {
                index[place]
            },
    )
}

/// The index after a transaction that has written to `keys` aborts: for each
/// of the keys, the pointer in the slot of the transaction is dropped.
pub open spec fn discarded(index: IndexView, keys: Seq<Seq<u8>>, transaction_id: u64) -> IndexView {
    Map::new(
        |place: (Seq<u8>, Option<u64>)|
            index.contains_key(place) && !(keys.contains(place.0) && place.1 == Some(
                transaction_id,
            )),
        |place: (Seq<u8>, Option<u64>)| index[place],
    )
}

/// The larger of two identifiers.
pub open spec fn raised(counter: u64, transaction_id: u64) -> u64 {
    if transaction_id > counter {
        transaction_id
    } else {
        counter
    }
}

/// The state that an instruction other than `RevertAll` leaves behind, when
/// it lies at `pointer` and finds the state `before`.
pub open spec fn spec_step(
    before: LogState,
    instruction: InstructionView,
    pointer: LogPointer,
) -> LogState {
    let index = before.index;
    let counter = before.transactions.counter;
    let live = before.transactions.live;
    match instruction {
        InstructionView::SetOne { key, .. } => LogState {
            index: index.insert((key, None), pointer),
            transactions: before.transactions,
        },
        InstructionView::RevertOne { key, .. } => LogState {
            index: index.insert((key, None), pointer),
            transactions: before.transactions,
        },
        InstructionView::RemoveOne { key } => LogState {
            index: index.insert((key, None), pointer),
            transactions: before.transactions,
        },
        InstructionView::RemoveAll => LogState {
            index: without_committed(index),
            transactions: before.transactions,
        },
        InstructionView::RevertAll { .. } => before,
        InstructionView::TransactionStart { transaction_id } => LogState {
            index,
            transactions: TransactionManagerView {
                counter: raised(counter, transaction_id),
                live: live.insert(transaction_id, Seq::empty()),
            },
        },
        InstructionView::TransactionalSet { key, transaction_id, .. } => LogState {
            index: index.insert((key, Some(transaction_id)), pointer),
            transactions: TransactionManagerView {
                counter,
                live: touched(live, transaction_id, key),
            },
        },
        InstructionView::TransactionalRevertOne { key, transaction_id, .. } => LogState {
            index: index.insert((key, Some(transaction_id)), pointer),
            transactions: TransactionManagerView {
                counter,
                live: touched(live, transaction_id, key),
            },
        },
        InstructionView::TransactionalRemoveOne { key, transaction_id } => LogState {
            index: index.insert((key, Some(transaction_id)), pointer),
            transactions: TransactionManagerView {
                counter,
                live: touched(live, transaction_id, key),
            },
        },
        InstructionView::TransactionCommit { transaction_id } => LogState {
            index: promoted(index, affected(live, transaction_id), transaction_id),
            transactions: TransactionManagerView { counter, live: live.remove(transaction_id) },
        },
        InstructionView::TransactionAbort { transaction_id } => LogState {
            index: discarded(index, affected(live, transaction_id), transaction_id),
            transactions: TransactionManagerView { counter, live: live.remove(transaction_id) },
        },
    }
}

/// The state that `RevertAll` leaves behind: the index and the live
/// transactions as they were at the height it goes back to. The highest
/// identifier never goes back.
pub open spec fn spec_reverted(before: LogState, past: LogState) -> LogState {
    LogState {
        index: past.index,
        transactions: TransactionManagerView {
            counter: raised(before.transactions.counter, past.transactions.counter),
            live: past.transactions.live,
        },
    }
}

/// The state after the first `n` of `records`.
///
/// A `RevertAll` that goes back to a height below its own brings back the
/// index and the live transactions that the instruction at that height left
/// behind. One that names its own height changes nothing.
pub open spec fn state_after(records: Seq<LogRecord>, n: nat) -> LogState
    decreases n,
{
    if n == 0 || n > records.len() {
        initial_state()
    } else {
        let before = state_after(records, (n - 1) as nat);
        let record = records[n - 1];
        match record.instruction {
            InstructionView::RevertAll { height } => if height < n - 1 {
                spec_reverted(before, state_after(records, (height + 1) as nat))
            } else {
                before
            },
            _ => spec_step(before, record.instruction, spec_pointer(record)),
        }
    }
}

/// Whether the engine, with the transactions `before` and at the height
/// `height`, writes `instruction` to its log when asked for the matching
/// operation.
pub open spec fn record_sound(
    before: TransactionManagerView,
    height: nat,
    instruction: InstructionView,
) -> bool {
    let live = before.live;
    match instruction {
        InstructionView::RevertOne { height: target, .. } => target <= height,
        InstructionView::RevertAll { height: target } => target <= height,
        InstructionView::TransactionStart { transaction_id } => transaction_id == before.counter
            + 1 && transaction_id <= MAX_TRANSACTION_ID,
        InstructionView::TransactionalSet { transaction_id, .. } => live.contains_key(
            transaction_id,
        ),
        InstructionView::TransactionalRevertOne {
            height: target,
            transaction_id,
            ..
        } => target <= height && live.contains_key(transaction_id),
        InstructionView::TransactionalRemoveOne { transaction_id, .. } => live.contains_key(
            transaction_id,
        ),
        InstructionView::TransactionCommit { transaction_id } => live.contains_key(transaction_id),
        InstructionView::TransactionAbort { transaction_id } => live.contains_key(transaction_id),
        _ => true,
    }
}

/// Whether each of the first `n` of `records` is one that the engine writes
/// in the state that the records before it leave behind.
#[verifier::opaque]
pub open spec fn log_sound(records: Seq<LogRecord>, n: nat) -> bool {
    forall|j: int|
        0 <= j < n && j < records.len() ==> record_sound(
            state_after(records, j as nat).transactions,
            j as nat,
            (#[trigger] records[j]).instruction,
        )
}

/// The value of `key` once the instruction at `height` and all before it are
/// in effect, as a walk down the log from that height finds it.
///
/// The walk stops at the first instruction that decides: a `SetOne` or a
/// `RemoveOne` of the key, or a `RemoveAll`. A `RevertOne` of the key, or a
/// `RevertAll`, sends the walk to the height it goes back to. Everything else,
/// writes inside transactions too, is stepped over. A revert that names its
/// own height or one above is stepped over as well.
pub open spec fn spec_resolve(
    instructions: Seq<InstructionView>,
    key: Seq<u8>,
    height: nat,
) -> Option<Seq<u8>>
    decreases height,
{
    if height >= instructions.len() {
        None
    } else {
        let below = if height == 0 {
            None
        } else {
            spec_resolve(instructions, key, (height - 1) as nat)
        };
        match instructions[height as int] {
            InstructionView::SetOne { key: k, value } => if k == key {
                Some(value)
            } else {
                below
            },
            InstructionView::RemoveOne { key: k } => if k == key {
                None
            } else {
                below
            },
            InstructionView::RemoveAll => None,
            InstructionView::RevertOne { key: k, height: target } => if k == key && target
                < height {
                spec_resolve(instructions, key, target as nat)
            } else {
                below
            },
            InstructionView::RevertAll { height: target } => if target < height {
                spec_resolve(instructions, key, target as nat)
            } else {
                below
            },
            _ => below,
        }
    }
}

/// The instruction that lies at `pointer` in `log`.
pub open spec fn spec_read(log: Seq<u8>, pointer: LogPointer) -> Result<
    InstructionView,
    InstructionError,
> {
    if pointer.pos + pointer.len > log.len() {
        Err(InstructionError::Truncated)
    } else {
        match spec_parse(log.subrange(pointer.pos as int, pointer.pos + pointer.len)) {
            Ok((instruction, _)) => Ok(instruction),
            Err(e) => Err(e),
        }
    }
}

/// The value that the instruction `found` at the end of a pointer stands for.
pub open spec fn spec_value_of(
    instructions: Seq<InstructionView>,
    found: Result<InstructionView, InstructionError>,
) -> Result<Option<Seq<u8>>, KVError> {
    match found {
        Err(e) => Err(KVError::InstructionError(e)),
        Ok(InstructionView::SetOne { value, .. }) => Ok(Some(value)),
        Ok(InstructionView::TransactionalSet { value, .. }) => Ok(Some(value)),
        Ok(InstructionView::RemoveOne { .. }) => Ok(None),
        Ok(InstructionView::TransactionalRemoveOne { .. }) => Ok(None),
        Ok(InstructionView::RevertOne { key, height }) => Ok(
            spec_resolve(instructions, key, height as nat),
        ),
        Ok(InstructionView::TransactionalRevertOne { key, height, .. }) => Ok(
            spec_resolve(instructions, key, height as nat),
        ),
        Ok(_) => Err(KVError::PointToUnexpectedInstruction),
    }
}

/// The slot that a read of `key` looks into: the slot of the transaction, if
/// the read is made inside one that has written to the key, the committed slot
/// otherwise.
pub open spec fn spec_slot(index: IndexView, key: Seq<u8>, transaction_id: Option<u64>) -> Option<
    u64,
> {
    if transaction_id is Some && index.contains_key((key, transaction_id)) {
        transaction_id
    } else {
        None
    }
}

/// What a read of `key` returns from an engine with the given log and index.
pub open spec fn spec_get(
    log: Seq<u8>,
    index: IndexView,
    key: Seq<u8>,
    transaction_id: Option<u64>,
) -> Result<Option<Seq<u8>>, KVError> {
    let place = (key, spec_slot(index, key, transaction_id));
    if index.contains_key(place) {
        spec_value_of(instructions_of(spec_records(log, 0)), spec_read(log, index[place]))
    } else {
        Ok(None)
    }
}

/// The state after the first `n` records depends on those records alone.
pub proof fn lemma_state_prefix(records: Seq<LogRecord>, longer: Seq<LogRecord>, n: nat)
    requires
        n <= records.len() <= longer.len(),
        forall|i: int| 0 <= i < records.len() ==> records[i] == longer[i],
    ensures
        state_after(longer, n) == state_after(records, n),
    decreases n,
{
    if n > 0 {
        lemma_state_prefix(records, longer, (n - 1) as nat);
        match records[n - 1].instruction {
            InstructionView::RevertAll { height } => {
                if height < n - 1 {
                    lemma_state_prefix(records, longer, (height + 1) as nat);
                }
            },
            _ => {},
        }
    }
}

/// Whether the first `n` records are sound depends on those records alone.
pub proof fn lemma_sound_prefix(records: Seq<LogRecord>, longer: Seq<LogRecord>, n: nat)
    requires
        n <= records.len() <= longer.len(),
        forall|i: int| 0 <= i < records.len() ==> records[i] == longer[i],
    ensures
        log_sound(longer, n) == log_sound(records, n),
{
    reveal(log_sound);
    assert forall|j: nat| j < n implies #[trigger] state_after(longer, j) == state_after(
        records,
        j,
    ) by {
        lemma_state_prefix(records, longer, j);
    }
    if log_sound(records, n) {
        assert forall|j: int| 0 <= j < n && j < longer.len() implies record_sound(
            state_after(longer, j as nat).transactions,
            j as nat,
            (#[trigger] longer[j]).instruction,
        ) by {
            assert(records[j] == longer[j]);
        }
    }
    if log_sound(longer, n) {
        assert forall|j: int| 0 <= j < n && j < records.len() implies record_sound(
            state_after(records, j as nat).transactions,
            j as nat,
            (#[trigger] records[j]).instruction,
        ) by {
            assert(records[j] == longer[j]);
        }
    }
}

/// The walk down a log from a height sees only the instructions at that
/// height and below.
pub proof fn lemma_resolve_prefix(
    instructions: Seq<InstructionView>,
    longer: Seq<InstructionView>,
    key: Seq<u8>,
    height: nat,
)
    requires
        height < instructions.len() <= longer.len(),
        forall|i: int| 0 <= i < instructions.len() ==> instructions[i] == longer[i],
    ensures
        spec_resolve(longer, key, height) == spec_resolve(instructions, key, height),
    decreases height,
{
    if height > 0 {
        lemma_resolve_prefix(instructions, longer, key, (height - 1) as nat);
    }
    match instructions[height as int] {
        InstructionView::RevertOne { key: k, height: target } => {
            if target < height {
                lemma_resolve_prefix(instructions, longer, key, target as nat);
            }
        },
        InstructionView::RevertAll { height: target } => {
            if target < height {
                lemma_resolve_prefix(instructions, longer, key, target as nat);
            }
        },
        _ => {},
    }
}

/// The state after one more record, in terms of the state before it.
pub proof fn lemma_state_next(records: Seq<LogRecord>, count: nat)
    requires
        count < records.len(),
    ensures
        state_after(records, count + 1) == (match records[count as int].instruction {
            InstructionView::RevertAll { height } => if height < count {
                spec_reverted(
                    state_after(records, count),
                    state_after(records, (height + 1) as nat),
                )
            } else {
                state_after(records, count)
            },
            _ => spec_step(
                state_after(records, count),
                records[count as int].instruction,
                spec_pointer(records[count as int]),
            ),
        }),
{
}

/// No record is unsound in a log of which none is looked at.
pub proof fn lemma_sound_none(records: Seq<LogRecord>)
    ensures
        log_sound(records, 0),
{
    reveal(log_sound);
}

/// A log is sound up to one more record exactly if it is sound up to that
/// record and the record is sound.
pub proof fn lemma_sound_next(records: Seq<LogRecord>, count: nat)
    requires
        count < records.len(),
    ensures
        log_sound(records, count + 1) <==> log_sound(records, count) && record_sound(
            state_after(records, count).transactions,
            count,
            records[count as int].instruction,
        ),
{
    reveal(log_sound);
    if log_sound(records, count) && record_sound(
        state_after(records, count).transactions,
        count,
        records[count as int].instruction,
    ) {
        assert forall|j: int| 0 <= j < count + 1 && j < records.len() implies record_sound(
            state_after(records, j as nat).transactions,
            j as nat,
            (#[trigger] records[j]).instruction,
        ) by {}
    }
    if log_sound(records, count + 1) {
        assert(record_sound(
            state_after(records, count).transactions,
            count,
            records[count as int].instruction,
        ));
    }
}

/// A log that is sound up to some record is sound up to every record before
/// that one, and each of those records is sound.
pub proof fn lemma_sound_before(records: Seq<LogRecord>, count: nat, fewer: nat)
    requires
        fewer <= count,
        log_sound(records, count),
    ensures
        log_sound(records, fewer),
        fewer < count && fewer < records.len() ==> record_sound(
            state_after(records, fewer).transactions,
            fewer,
            records[fewer as int].instruction,
        ),
{
    reveal(log_sound);
    if fewer < count && fewer < records.len() {
        assert(record_sound(
            state_after(records, fewer).transactions,
            fewer,
            records[fewer as int].instruction,
        ));
    }
}

/// Whether `instruction` is a write of `key` that is seen by everybody: a
/// `SetOne`, a `RevertOne` or a `RemoveOne` of the key.
pub open spec fn names_key(instruction: InstructionView, key: Seq<u8>) -> bool {
    match instruction {
        InstructionView::SetOne { key: k, .. } => k == key,
        InstructionView::RevertOne { key: k, .. } => k == key,
        InstructionView::RemoveOne { key: k } => k == key,
        _ => false,
    }
}

/// Whether one of the first `n` instructions is a write of `key` that is seen
/// by everybody.
pub open spec fn key_seen(instructions: Seq<InstructionView>, key: Seq<u8>, n: nat) -> bool
    decreases n,
{
    if n == 0 || n > instructions.len() {
        false
    } else {
        key_seen(instructions, key, (n - 1) as nat) || names_key(instructions[n - 1], key)
    }
}

/// Whether the instruction at `height` belongs to the history of `key`: it is
/// a write of the key that is seen by everybody, or it is a `RevertAll` or a
/// `RemoveAll` that comes after such a write.
pub open spec fn in_history(instructions: Seq<InstructionView>, key: Seq<u8>, height: nat) -> bool {
    match instructions[height as int] {
        InstructionView::RevertAll { .. } => key_seen(instructions, key, height),
        InstructionView::RemoveAll => key_seen(instructions, key, height),
        other => names_key(other, key),
    }
}

/// The history of `key` among the first `n` instructions: those that belong
/// to it, each with its height, in the order of the log.
pub open spec fn spec_inspect_one(
    instructions: Seq<InstructionView>,
    key: Seq<u8>,
    n: nat,
) -> Seq<(InstructionView, u64)>
    decreases n,
{
    if n == 0 || n > instructions.len() {
        Seq::empty()
    } else {
        let before = spec_inspect_one(instructions, key, (n - 1) as nat);
        if in_history(instructions, key, (n - 1) as nat) {
            before.push((instructions[n - 1], (n - 1) as u64))
        } else {
            before
        }
    }
}

/// The first `n` instructions, each with its height.
pub open spec fn spec_inspect_all(instructions: Seq<InstructionView>) -> Seq<
    (InstructionView, u64),
> {
    Seq::new(instructions.len(), |i: int| (instructions[i], i as u64))
}

} // verus!
