//! What holds of every engine, whatever was asked of it before.
//!
//! Each law is a theorem about the definitions in `log_state` and about the
//! contracts of the engine's operations.
use crate::storage::buffer_parser::{
    lemma_records_shape, lemma_records_torn, spec_log_whole, spec_records, spec_records_end,
    LogRecord,
};
use crate::storage::errors::KVError;
use crate::storage::instruction::{
    lemma_parse_cut, lemma_parse_serialized, lemma_parse_torn, spec_serialize, InstructionError,
    InstructionView,
};
use crate::storage::key_pointer_map::IndexView;
use crate::constants::{MAX_KEY_LENGTH, MAX_TRANSACTION_ID};
use crate::storage::kv::{
    lemma_append_record, lemma_append_revert_all, lemma_append_step, lemma_height_bound,
    lemma_push_contains, log_accepted, log_wf, LogKeyValueStore,
};
use crate::storage::log_pointer::LogPointer;
use crate::storage::log_state::{
    affected, instructions_of, lemma_resolve_prefix, lemma_sound_before, lemma_sound_none,
    lemma_state_next, log_sound, record_sound, spec_get, spec_pointer, spec_read, spec_resolve,
    spec_reverted, spec_slot, spec_step, spec_value_of, state_after, LogState,
};
use vstd::prelude::*;

verus! {

/// Whether `pointer` leads to one of the first `n` records, and that record
/// is a write of `key`.
pub open spec fn has_source(records: Seq<LogRecord>, n: nat, pointer: LogPointer, key: Seq<u8>) -> bool {
    exists|j: int| #[trigger] is_source(records, n, pointer, key, j)
}

/// Whether the record at `j` is one of the first `n`, lies at `pointer` and is
/// a write of `key`.
pub open spec fn is_source(
    records: Seq<LogRecord>,
    n: nat,
    pointer: LogPointer,
    key: Seq<u8>,
    j: int,
) -> bool {
    &&& 0 <= j < n
    &&& j < records.len()
    &&& pointer == spec_pointer(records[j])
    &&& records[j].instruction.key() == Some(key)
}

/// Whether every pointer of `index` leads to one of the first `n` records,
/// and to a write of the key it is kept for.
pub open spec fn sources_known(records: Seq<LogRecord>, n: nat, index: IndexView) -> bool {
    forall|place: (Seq<u8>, Option<u64>)| #[trigger]
        index.contains_key(place) ==> has_source(records, n, index[place], place.0)
}

/// Where a pointer of the index comes from after an instruction other than
/// `RevertAll`: it is the pointer to the instruction itself, or it was in the
/// index before, for the same key.
proof fn lemma_step_origin(
    before: LogState,
    instruction: InstructionView,
    pointer: LogPointer,
    place: (Seq<u8>, Option<u64>),
)
    requires
        spec_step(before, instruction, pointer).index.contains_key(place),
    ensures
        ({
            let after = spec_step(before, instruction, pointer).index;
            ||| after[place] == pointer && instruction.key() == Some(place.0)
            ||| before.index.contains_key(place) && before.index[place] == after[place]
            ||| instruction matches InstructionView::TransactionCommit { transaction_id }
                && before.index.contains_key((place.0, Some(transaction_id)))
                && before.index[(place.0, Some(transaction_id))] == after[place]
        }),
{
}

/// Every pointer of the index that a log leaves behind leads to an
/// instruction of the log that writes the key the pointer is kept for.
pub proof fn lemma_sources_known(records: Seq<LogRecord>, n: nat)
    requires
        n <= records.len(),
    ensures
        sources_known(records, n, state_after(records, n).index),
    decreases n,
{
    if n > 0 {
        let before = state_after(records, (n - 1) as nat);
        let after = state_after(records, n);
        let record = records[n - 1];
        lemma_sources_known(records, (n - 1) as nat);
        lemma_state_next(records, (n - 1) as nat);
        assert forall|place: (Seq<u8>, Option<u64>)| #[trigger]
            after.index.contains_key(place) implies has_source(
            records,
            n,
            after.index[place],
            place.0,
        ) by {
            let pointer = after.index[place];
            match record.instruction {
                InstructionView::RevertAll { height } => {
                    if height < n - 1 {
                        lemma_sources_known(records, (height + 1) as nat);
                        let past = state_after(records, (height + 1) as nat);
                        assert(past.index.contains_key(place));
                        let j = choose|j: int| #[trigger]
                            is_source(records, (height + 1) as nat, pointer, place.0, j);
                        assert(is_source(records, n, pointer, place.0, j));
                    } else {
                        assert(before.index.contains_key(place));
                        let j = choose|j: int| #[trigger]
                            is_source(records, (n - 1) as nat, pointer, place.0, j);
                        assert(is_source(records, n, pointer, place.0, j));
                    }
                },
                _ => {
                    lemma_step_origin(before, record.instruction, spec_pointer(record), place);
                    if pointer == spec_pointer(record) && record.instruction.key() == Some(
                        place.0,
                    ) {
                        assert(is_source(records, n, pointer, place.0, n - 1));
                    } else if before.index.contains_key(place) && before.index[place] == pointer {
                        let j = choose|j: int| #[trigger]
                            is_source(records, (n - 1) as nat, pointer, place.0, j);
                        assert(is_source(records, n, pointer, place.0, j));
                    } else {
                        let transaction_id = record.instruction->TransactionCommit_transaction_id;
                        let from = (place.0, Some(transaction_id));
                        assert(before.index.contains_key(from));
                        let j = choose|j: int| #[trigger]
                            is_source(records, (n - 1) as nat, before.index[from], place.0, j);
                        assert(is_source(records, n, pointer, place.0, j));
                    }
                },
            }
        }
    }
}

/// Reading at the pointer to a record of a log finds the instruction of the
/// record, also after bytes have been appended to the log.
pub proof fn lemma_read_record(log: Seq<u8>, more: Seq<u8>, j: int)
    requires
        0 <= j < spec_records(log, 0).len(),
        log.len() + more.len() <= usize::MAX,
    ensures
        spec_read(log + more, spec_pointer(spec_records(log, 0)[j])) == Ok::<
            InstructionView,
            InstructionError,
        >(spec_records(log, 0)[j].instruction),
{
    let record = spec_records(log, 0)[j];
    lemma_records_shape(log, 0);
    let here = log.skip(record.pos as int);
    lemma_parse_cut(here, record.len as int);
    assert((log + more).subrange(record.pos as int, (record.pos + record.len) as int) =~= here.take(
        record.len as int,
    ));
}

/// The instructions of a log that has grown by records start with the
/// instructions it had.
proof fn lemma_instructions_grow(records: Seq<LogRecord>, added: LogRecord)
    ensures
        instructions_of(records.push(added)).len() == records.len() + 1,
        forall|i: int|
            0 <= i < records.len() ==> instructions_of(records)[i] == instructions_of(
                records.push(added),
            )[i],
{
}

/// What a pointer of the index of an engine stands for is a value or
/// nothing, never an error.
pub proof fn lemma_value_ok(
    log: Seq<u8>,
    height: u64,
    state: LogState,
    place: (Seq<u8>, Option<u64>),
)
    requires
        log_wf(log, height, state),
        log.len() <= usize::MAX,
        state.index.contains_key(place),
    ensures
        spec_value_of(instructions_of(spec_records(log, 0)), spec_read(log, state.index[place]))
            is Ok,
{
    reveal(log_wf);
    let records = spec_records(log, 0);
    lemma_sources_known(records, records.len());
    let j = choose|j: int| #[trigger]
        is_source(records, records.len(), state.index[place], place.0, j);
    lemma_read_record(log, Seq::empty(), j);
    assert(log + Seq::<u8>::empty() =~= log);
}

/// What a pointer of the index of an engine stands for is a value or
/// nothing, never an error, and stays what it is when an instruction is
/// appended to the log.
pub proof fn lemma_value_stable(
    log: Seq<u8>,
    height: u64,
    state: LogState,
    instruction: InstructionView,
    place: (Seq<u8>, Option<u64>),
)
    requires
        log_wf(log, height, state),
        instruction.legal(),
        log.len() + spec_serialize(instruction).len() <= usize::MAX,
        state.index.contains_key(place),
    ensures
        spec_value_of(instructions_of(spec_records(log, 0)), spec_read(log, state.index[place]))
            is Ok,
        spec_value_of(
            instructions_of(spec_records(log + spec_serialize(instruction), 0)),
            spec_read(log + spec_serialize(instruction), state.index[place]),
        ) == spec_value_of(
            instructions_of(spec_records(log, 0)),
            spec_read(log, state.index[place]),
        ),
{
    reveal(log_wf);
    let records = spec_records(log, 0);
    let bytes = spec_serialize(instruction);
    let longer = spec_records(log + bytes, 0);
    let pointer = state.index[place];
    lemma_sources_known(records, records.len());
    let j = choose|j: int| #[trigger] is_source(records, records.len(), pointer, place.0, j);
    lemma_read_record(log, Seq::empty(), j);
    assert(log + Seq::<u8>::empty() =~= log);
    lemma_read_record(log, bytes, j);
    lemma_append_record(log, instruction);
    let added = longer[records.len() as int];
    lemma_instructions_grow(records, added);
    lemma_sound_before(records, records.len(), j as nat);
    let found = records[j].instruction;
    assert(instructions_of(records)[j] == found);
    match found {
        InstructionView::RevertOne { key, height: target } => {
            if target < records.len() {
                lemma_resolve_prefix(
                    instructions_of(records),
                    instructions_of(longer),
                    key,
                    target as nat,
                );
            }
        },
        InstructionView::TransactionalRevertOne { key, height: target, .. } => {
            if target < records.len() {
                lemma_resolve_prefix(
                    instructions_of(records),
                    instructions_of(longer),
                    key,
                    target as nat,
                );
            }
        },
        _ => {},
    }
}

/// The log decides the rest: two engines with the same log have the same
/// chain height, the same index and the same transactions.
pub proof fn lemma_log_decides(
    log: Seq<u8>,
    height: u64,
    state: LogState,
    other_height: u64,
    other_state: LogState,
)
    requires
        log_wf(log, height, state),
        log_wf(log, other_height, other_state),
    ensures
        height == other_height,
        state == other_state,
{
    reveal(log_wf);
}

/// The chain height of an engine is the number of instructions in its log,
/// and the log holds nothing but those instructions.
pub proof fn law_height_counts_instructions(engine: LogKeyValueStore)
    requires
        engine.wf(),
    ensures
        engine.height() == engine.records().len(),
        spec_log_whole(engine.log()),
        engine.state() == state_after(engine.records(), engine.records().len()),
        log_sound(engine.records(), engine.records().len()),
{
    reveal(log_wf);
}

/// An engine can be opened on the log of every engine, nothing of that log is
/// dropped, and the engine that is opened has the chain height, the index and
/// the transactions of the engine that wrote the log: every read returns from
/// the one what it returns from the other.
pub proof fn law_recovery_fidelity(live: LogKeyValueStore, reopened: LogKeyValueStore)
    requires
        live.wf(),
        reopened.wf(),
        reopened.log() == live.log().take(spec_records_end(live.log(), 0) as int),
    ensures
        log_accepted(live.log()),
        reopened.log() == live.log(),
        reopened.height() == live.height(),
        reopened.state() == live.state(),
        forall|key: Seq<u8>, transaction_id: Option<u64>|
            reopened.value(key, transaction_id) == live.value(key, transaction_id),
{
    reveal(log_wf);
    assert(live.log().take(live.log().len() as int) =~= live.log());
    lemma_log_decides(
        live.log(),
        live.height(),
        live.state(),
        reopened.height(),
        reopened.state(),
    );
}

/// Every read from an engine returns a value or nothing, never an error.
pub proof fn law_reads_succeed(engine: LogKeyValueStore, key: Seq<u8>, transaction_id: Option<u64>)
    requires
        engine.wf(),
    ensures
        engine.value(key, transaction_id) is Ok,
{
    let place = (key, spec_slot(engine.index(), key, transaction_id));
    engine.lemma_log_fits();
    if engine.index().contains_key(place) {
        lemma_value_ok(engine.log(), engine.height(), engine.state(), place);
    }
}

/// The state of an engine after it has appended a sound instruction other
/// than `RevertAll` to its log.
proof fn lemma_state_after_append(
    before: LogKeyValueStore,
    after: LogKeyValueStore,
    instruction: InstructionView,
)
    requires
        before.wf(),
        after.wf(),
        instruction.legal(),
        !(instruction is RevertAll),
        record_sound(before.transactions(), before.height() as nat, instruction),
        after.log() == before.log() + spec_serialize(instruction),
        after.log().len() <= usize::MAX,
    ensures
        after.state() == spec_step(
            before.state(),
            instruction,
            LogPointer {
                pos: before.log().len() as u64,
                len: spec_serialize(instruction).len() as usize,
            },
        ),
        spec_read(
            after.log(),
            LogPointer {
                pos: before.log().len() as u64,
                len: spec_serialize(instruction).len() as usize,
            },
        ) == Ok::<InstructionView, InstructionError>(instruction),
{
    lemma_height_bound(before.log(), before.height(), before.state());
    lemma_append_step(
        before.log(),
        before.height(),
        before.state(),
        instruction,
    );
    lemma_log_decides(
        after.log(),
        after.height(),
        after.state(),
        (before.height() + 1) as u64,
        spec_step(
            before.state(),
            instruction,
            LogPointer {
                pos: before.log().len() as u64,
                len: spec_serialize(instruction).len() as usize,
            },
        ),
    );
    let bytes = spec_serialize(instruction);
    lemma_parse_serialized(instruction, Seq::empty());
    assert(bytes + Seq::<u8>::empty() =~= bytes);
    assert(after.log().subrange(
        before.log().len() as int,
        (before.log().len() + bytes.len()) as int,
    )
        =~= bytes);
}

/// Read isolation: once a live transaction has written a value to a key, a
/// read of the key inside the transaction returns that value, and every read
/// outside of transactions returns what it returned before the write.
pub proof fn law_read_isolation(
    before: LogKeyValueStore,
    after: LogKeyValueStore,
    key: Seq<u8>,
    value: Seq<u8>,
    transaction_id: u64,
)
    requires
        before.wf(),
        after.wf(),
        before.transactions().live.contains_key(transaction_id),
        key.len() <= MAX_KEY_LENGTH,
        after.log() == before.log() + spec_serialize(
            InstructionView::TransactionalSet { key, value, transaction_id },
        ),
    ensures
        after.value(key, Some(transaction_id)) == Ok::<Option<Seq<u8>>, KVError>(Some(value)),
        forall|other: Seq<u8>| #[trigger] after.value(other, None) == before.value(other, None),
{
    after.lemma_log_fits();
    let instruction = InstructionView::TransactionalSet { key, value, transaction_id };
    lemma_state_after_append(before, after, instruction);
    assert forall|other: Seq<u8>| #[trigger] after.value(other, None) == before.value(
        other,
        None,
    ) by {
        let place = (other, None::<u64>);
        if before.index().contains_key(place) {
            lemma_value_stable(
                before.log(),
                before.height(),
                before.state(),
                instruction,
                place,
            );
        }
    }
}

/// Commit atomicity: once a transaction has committed, a read of each key it
/// has written to returns to everybody what it returned inside the
/// transaction just before the commit.
pub proof fn law_commit_publishes(
    before: LogKeyValueStore,
    after: LogKeyValueStore,
    transaction_id: u64,
    key: Seq<u8>,
)
    requires
        before.wf(),
        after.wf(),
        before.transactions().live.contains_key(transaction_id),
        before.transactions().live[transaction_id].contains(key),
        after.log() == before.log() + spec_serialize(
            InstructionView::TransactionCommit { transaction_id },
        ),
    ensures
        after.value(key, None) == before.value(key, Some(transaction_id)),
        !after.transactions().live.contains_key(transaction_id),
{
    after.lemma_log_fits();
    let instruction = InstructionView::TransactionCommit { transaction_id };
    lemma_state_after_append(before, after, instruction);
    let own = (key, Some(transaction_id));
    let shared = (key, None::<u64>);
    if before.index().contains_key(own) {
        lemma_value_stable(before.log(), before.height(), before.state(), instruction, own);
    } else if before.index().contains_key(shared) {
        lemma_value_stable(before.log(), before.height(), before.state(), instruction, shared);
    }
}

/// Abort leaves no trace: once a transaction has aborted, every read outside
/// of transactions returns what it returned before the abort. Together with
/// read isolation this means that it returns what it returned before the
/// transaction wrote anything.
pub proof fn law_abort_discards(
    before: LogKeyValueStore,
    after: LogKeyValueStore,
    transaction_id: u64,
)
    requires
        before.wf(),
        after.wf(),
        before.transactions().live.contains_key(transaction_id),
        after.log() == before.log() + spec_serialize(
            InstructionView::TransactionAbort { transaction_id },
        ),
    ensures
        forall|key: Seq<u8>| #[trigger] after.value(key, None) == before.value(key, None),
        !after.transactions().live.contains_key(transaction_id),
{
    after.lemma_log_fits();
    let instruction = InstructionView::TransactionAbort { transaction_id };
    lemma_state_after_append(before, after, instruction);
    assert forall|key: Seq<u8>| #[trigger] after.value(key, None) == before.value(key, None) by {
        let place = (key, None::<u64>);
        if before.index().contains_key(place) {
            lemma_value_stable(
                before.log(),
                before.height(),
                before.state(),
                instruction,
                place,
            );
        }
    }
}

/// An engine can be opened on the empty log.
pub proof fn lemma_empty_log_accepted()
    ensures
        log_accepted(Seq::<u8>::empty()),
        spec_records(Seq::<u8>::empty(), 0) == Seq::<LogRecord>::empty(),
{
    lemma_sound_none(spec_records(Seq::<u8>::empty(), 0));
}

/// Revert idempotence: a `revert_all` that follows a `revert_all` to the same
/// height changes nothing but the log. The index and the transactions stay
/// as the first one left them, and so does what every read returns.
pub proof fn law_revert_all_idempotent(
    start: LogKeyValueStore,
    once: LogKeyValueStore,
    twice: LogKeyValueStore,
    height: u64,
)
    requires
        start.wf(),
        once.wf(),
        twice.wf(),
        height <= start.height(),
        once.log() == start.log() + spec_serialize(InstructionView::RevertAll { height }),
        twice.log() == once.log() + spec_serialize(InstructionView::RevertAll { height }),
    ensures
        twice.state() == once.state(),
        forall|key: Seq<u8>, transaction_id: Option<u64>| #[trigger]
            twice.value(key, transaction_id) == once.value(key, transaction_id),
{
    twice.lemma_log_fits();
    let instruction = InstructionView::RevertAll { height };
    lemma_height_bound(start.log(), start.height(), start.state());
    lemma_height_bound(once.log(), once.height(), once.state());
    lemma_append_revert_all(
        start.log(),
        start.height(),
        start.state(),
        height,
    );
    let first = if height < start.height() {
        spec_reverted(start.state(), state_after(start.records(), (height + 1) as nat))
    } else {
        start.state()
    };
    lemma_log_decides(
        once.log(),
        once.height(),
        once.state(),
        (start.height() + 1) as u64,
        first,
    );
    lemma_append_revert_all(once.log(), once.height(), once.state(), height);
    let second = spec_reverted(once.state(), state_after(once.records(), (height + 1) as nat));
    lemma_log_decides(
        twice.log(),
        twice.height(),
        twice.state(),
        (once.height() + 1) as u64,
        second,
    );
    assert(state_after(once.records(), (height + 1) as nat).index == once.state().index
        && state_after(once.records(), (height + 1) as nat).transactions.live
        == once.state().transactions.live && state_after(
        once.records(),
        (height + 1) as nat,
    ).transactions.counter <= once.state().transactions.counter) by {
        reveal(log_wf);
        lemma_append_record(start.log(), instruction);
    }
    assert(twice.state().transactions == once.state().transactions);
    assert forall|key: Seq<u8>, transaction_id: Option<u64>| #[trigger]
        twice.value(key, transaction_id) == once.value(key, transaction_id) by {
        let place = (key, spec_slot(once.index(), key, transaction_id));
        if once.index().contains_key(place) {
            lemma_value_stable(once.log(), once.height(), once.state(), instruction, place);
        }
    }
}

/// What a read of `key` outside of transactions returns from the index that
/// the first `count` records of `log` leave behind.
pub open spec fn spec_committed_at(log: Seq<u8>, count: nat, key: Seq<u8>) -> Result<
    Option<Seq<u8>>,
    KVError,
> {
    let index = state_after(spec_records(log, 0), count).index;
    if index.contains_key((key, None)) {
        spec_value_of(instructions_of(spec_records(log, 0)), spec_read(log, index[(key, None)]))
    } else {
        Ok(None)
    }
}

/// Whether no commit among the first `count` records has moved a pointer for
/// `key` into the committed slot.
pub open spec fn no_commit_of(records: Seq<LogRecord>, count: nat, key: Seq<u8>) -> bool {
    forall|j: int|
        0 <= j < count && j < records.len() ==> ((
        #[trigger] records[j]).instruction matches InstructionView::TransactionCommit {
            transaction_id,
        } ==> !(affected(state_after(records, j as nat).transactions.live, transaction_id).contains(
            key,
        ) && state_after(records, j as nat).index.contains_key((key, Some(transaction_id)))))
}

/// What an engine returned for a key right before it appended an instruction
/// is what the index of that time gives for the key in the longer log.
pub proof fn lemma_committed_at_earlier(
    earlier: LogKeyValueStore,
    later: LogKeyValueStore,
    instruction: InstructionView,
    key: Seq<u8>,
)
    requires
        earlier.wf(),
        later.wf(),
        instruction.legal(),
        later.log() == earlier.log() + spec_serialize(instruction),
    ensures
        spec_committed_at(later.log(), earlier.height() as nat, key) == earlier.value(key, None),
{
    later.lemma_log_fits();
    reveal(log_wf);
    lemma_append_record(earlier.log(), instruction);
    let place = (key, None::<u64>);
    if earlier.index().contains_key(place) {
        lemma_value_stable(
            earlier.log(),
            earlier.height(),
            earlier.state(),
            instruction,
            place,
        );
    }
}

/// Revert determinism: the walk down the log from a height finds for a key
/// the value that a read of the key outside of transactions returned right
/// after the instruction at that height had been applied.
///
/// This holds of the keys for which no commit up to that height has made a
/// write of a transaction visible: the walk steps over what is written
/// inside transactions.
pub proof fn law_revert_determinism(log: Seq<u8>, key: Seq<u8>, height: nat)
    requires
        log.len() <= usize::MAX,
        height < spec_records(log, 0).len(),
        log_sound(spec_records(log, 0), height + 1),
        no_commit_of(spec_records(log, 0), height + 1, key),
    ensures
        spec_committed_at(log, height + 1, key) == Ok::<Option<Seq<u8>>, KVError>(
            spec_resolve(instructions_of(spec_records(log, 0)), key, height),
        ),
    decreases height,
{
    let records = spec_records(log, 0);
    let instructions = instructions_of(records);
    let record = records[height as int];
    let before = state_after(records, height);
    let after = state_after(records, height + 1);
    lemma_state_next(records, height);
    lemma_read_record(log, Seq::empty(), height as int);
    assert(log + Seq::<u8>::empty() =~= log);
    lemma_sound_before(records, height + 1, height);
    assert(instructions[height as int] == record.instruction);
    let below: Option<Seq<u8>> = if height == 0 {
        None
    } else {
        spec_resolve(instructions, key, (height - 1) as nat)
    };
    assert(spec_committed_at(log, height, key) == Ok::<Option<Seq<u8>>, KVError>(below)) by {
        if height > 0 {
            lemma_sound_before(records, height + 1, height);
            assert(no_commit_of(records, height, key));
            law_revert_determinism(log, key, (height - 1) as nat);
        }
    }
    match record.instruction {
        InstructionView::RevertAll { height: target } => {
            if target < height {
                lemma_sound_before(records, height + 1, (target + 1) as nat);
                assert(no_commit_of(records, (target + 1) as nat, key));
                law_revert_determinism(log, key, target as nat);
            }
        },
        InstructionView::TransactionCommit { transaction_id } => {
            assert(!(affected(before.transactions.live, transaction_id).contains(key)
                && before.index.contains_key((key, Some(transaction_id)))));
        },
        _ => {},
    }
}

/// What holds of the index and the transactions that a sound log leaves
/// behind: the highest identifier is at most `MAX_TRANSACTION_ID`; every live
/// transaction has an identifier between one and the highest; a pointer is
/// kept in the slot of a transaction only while the transaction is live, and
/// exactly for the keys that the transaction has written to.
pub open spec fn transactions_consistent(state: LogState) -> bool {
    let live = state.transactions.live;
    &&& state.transactions.counter <= MAX_TRANSACTION_ID
    &&& forall|t: u64| #[trigger] live.contains_key(t) ==> 1 <= t <= state.transactions.counter
    &&& forall|key: Seq<u8>, t: u64| #[trigger]
        state.index.contains_key((key, Some(t))) ==> live.contains_key(t) && live[t].contains(key)
    &&& forall|key: Seq<u8>, t: u64|
        live.contains_key(t) && #[trigger] live[t].contains(key) ==> state.index.contains_key(
            (key, Some(t)),
        )
}

/// An instruction that the engine writes keeps the index and the
/// transactions consistent.
proof fn lemma_step_consistent(
    before: LogState,
    height: nat,
    instruction: InstructionView,
    pointer: LogPointer,
)
    requires
        transactions_consistent(before),
        record_sound(before.transactions, height, instruction),
        !(instruction is RevertAll),
    ensures
        transactions_consistent(spec_step(before, instruction, pointer)),
{
    let after = spec_step(before, instruction, pointer);
    let live = before.transactions.live;
    match instruction {
        InstructionView::TransactionalSet { key, transaction_id, .. } => {
            lemma_push_contains(live[transaction_id], key);
        },
        InstructionView::TransactionalRevertOne { key, transaction_id, .. } => {
            lemma_push_contains(live[transaction_id], key);
        },
        InstructionView::TransactionalRemoveOne { key, transaction_id } => {
            lemma_push_contains(live[transaction_id], key);
        },
        InstructionView::TransactionStart { transaction_id } => {
            assert(!live.contains_key(transaction_id));
            assert forall|key: Seq<u8>, t: u64|
                after.transactions.live.contains_key(t) && #[trigger] after.transactions.live[t].contains(
                    key,
                ) implies after.index.contains_key((key, Some(t))) by {
                if t == transaction_id {
                    assert(after.transactions.live[t] =~= Seq::<Seq<u8>>::empty());
                }
            }
        },
        _ => {},
    }
}

/// Consistency of the transactions: in the state that a sound log leaves
/// behind, the highest identifier is at most `MAX_TRANSACTION_ID`, no live
/// transaction has a higher identifier, and the slot of a transaction holds a
/// pointer only while the transaction is live, and exactly for the keys that
/// the transaction has written to.
pub proof fn lemma_transactions_consistent(records: Seq<LogRecord>, n: nat)
    requires
        n <= records.len(),
        log_sound(records, n),
    ensures
        transactions_consistent(state_after(records, n)),
    decreases n,
{
    if n > 0 {
        let before = state_after(records, (n - 1) as nat);
        let record = records[n - 1];
        lemma_sound_before(records, n, (n - 1) as nat);
        lemma_transactions_consistent(records, (n - 1) as nat);
        lemma_state_next(records, (n - 1) as nat);
        match record.instruction {
            InstructionView::RevertAll { height } => {
                if height < n - 1 {
                    lemma_sound_before(records, n, (height + 1) as nat);
                    lemma_transactions_consistent(records, (height + 1) as nat);
                }
            },
            _ => {
                lemma_step_consistent(
                    before,
                    (n - 1) as nat,
                    record.instruction,
                    spec_pointer(record),
                );
            },
        }
    }
}

/// What holds of every engine besides its contract with the log: the highest
/// transaction identifier is at most `MAX_TRANSACTION_ID`; a transaction is
/// live only under an identifier that was handed out; the slot of a
/// transaction holds a pointer only while the transaction is live; and every
/// pointer of the index leads to an instruction of the log that writes the
/// key the pointer is kept for.
pub proof fn law_engine_invariants(engine: LogKeyValueStore)
    requires
        engine.wf(),
    ensures
        transactions_consistent(engine.state()),
        sources_known(engine.records(), engine.records().len(), engine.index()),
{
    reveal(log_wf);
    lemma_transactions_consistent(engine.records(), engine.records().len());
    lemma_sources_known(engine.records(), engine.records().len());
}

/// The highest identifier never falls: no instruction leaves a lower one
/// behind than it finds, and a `RevertAll` does not bring back a lower one.
pub proof fn law_highest_identifier_never_falls(
    before: LogState,
    instruction: InstructionView,
    pointer: LogPointer,
    past: LogState,
)
    ensures
        spec_step(before, instruction, pointer).transactions.counter
            >= before.transactions.counter,
        spec_reverted(before, past).transactions.counter >= before.transactions.counter,
{
}

/// Identifiers are never used twice: the identifier that a transaction starts
/// under is the one behind the highest identifier handed out before, and
/// belongs to no live transaction. The transactions that are live stay as
/// they are.
pub proof fn law_identifiers_are_fresh(before: LogKeyValueStore, after: LogKeyValueStore)
    requires
        before.wf(),
        after.wf(),
        before.transactions().counter < MAX_TRANSACTION_ID,
        after.follows(
            before,
            InstructionView::TransactionStart {
                transaction_id: (before.transactions().counter + 1) as u64,
            },
        ),
    ensures
        !before.transactions().live.contains_key((before.transactions().counter + 1) as u64),
        after.transactions().counter == before.transactions().counter + 1,
        forall|t: u64| #[trigger]
            before.transactions().live.contains_key(t) ==> after.transactions().live.contains_key(t)
                && after.transactions().live[t] == before.transactions().live[t],
{
    law_engine_invariants(before);
}

/// An append that is cut short does no harm: when only the beginning of an
/// instruction has reached the log of an engine, an engine can still be
/// opened on the log, and opening drops exactly the bytes of that beginning.
pub proof fn law_torn_append_is_dropped(
    engine: LogKeyValueStore,
    instruction: InstructionView,
    keep: int,
)
    requires
        engine.wf(),
        instruction.legal(),
        0 <= keep < spec_serialize(instruction).len(),
    ensures
        log_accepted(engine.log() + spec_serialize(instruction).take(keep)),
        (engine.log() + spec_serialize(instruction).take(keep)).take(
            spec_records_end(engine.log() + spec_serialize(instruction).take(keep), 0) as int,
        ) == engine.log(),
        spec_records(engine.log() + spec_serialize(instruction).take(keep), 0) == engine.records(),
{
    reveal(log_wf);
    let log = engine.log();
    let torn = spec_serialize(instruction).take(keep);
    lemma_parse_torn(instruction, keep);
    lemma_records_torn(log, 0, torn);
    assert((log + torn).skip(log.len() as int) =~= torn);
    assert((log + torn).take(log.len() as int) =~= log);
}

/// Whether `instruction` leaves alone what everybody reads: it is a write
/// inside a transaction, or it starts or aborts one.
pub open spec fn inside_transactions(instruction: InstructionView) -> bool {
    instruction is TransactionalSet || instruction is TransactionalRemoveOne
        || instruction is TransactionalRevertOne || instruction is TransactionStart
        || instruction is TransactionAbort
}

/// An instruction that is a write inside a transaction, or starts or aborts
/// one, changes nothing of what everybody reads.
pub proof fn lemma_step_keeps_committed(
    log: Seq<u8>,
    height: u64,
    state: LogState,
    instruction: InstructionView,
    key: Seq<u8>,
)
    requires
        log_wf(log, height, state),
        instruction.legal(),
        inside_transactions(instruction),
        log.len() + spec_serialize(instruction).len() <= usize::MAX,
    ensures
        spec_get(
            log + spec_serialize(instruction),
            spec_step(
                state,
                instruction,
                LogPointer {
                    pos: log.len() as u64,
                    len: spec_serialize(instruction).len() as usize,
                },
            ).index,
            key,
            None,
        ) == spec_get(log, state.index, key, None),
{
    let place = (key, None::<u64>);
    if state.index.contains_key(place) {
        lemma_value_stable(log, height, state, instruction, place);
    }
}

/// The log after `instructions` have been appended to it, one after the
/// other.
pub open spec fn spec_appended(log: Seq<u8>, instructions: Seq<InstructionView>) -> Seq<u8>
    decreases instructions.len(),
{
    if instructions.len() == 0 {
        log
    } else {
        spec_appended(log, instructions.drop_last()) + spec_serialize(instructions.last())
    }
}

/// Whether `instruction` is a write inside the transaction `transaction_id`
/// that the engine makes at the height `height` and at every height above.
pub open spec fn written_inside(
    instruction: InstructionView,
    transaction_id: u64,
    height: u64,
) -> bool {
    &&& instruction.legal()
    &&& instruction.transaction_id() == Some(transaction_id)
    &&& instruction is TransactionalSet || instruction is TransactionalRemoveOne
        || instruction is TransactionalRevertOne
    &&& instruction matches InstructionView::TransactionalRevertOne { height: target, .. }
        ==> target <= height
}

/// Writes inside a live transaction, however many, keep the engine as every
/// engine is, keep the transaction live, and change nothing of what everybody
/// reads.
pub proof fn lemma_writes_inside(
    log: Seq<u8>,
    height: u64,
    state: LogState,
    transaction_id: u64,
    writes: Seq<InstructionView>,
)
    requires
        log_wf(log, height, state),
        state.transactions.live.contains_key(transaction_id),
        forall|i: int|
            0 <= i < writes.len() ==> written_inside(#[trigger] writes[i], transaction_id, height),
        spec_appended(log, writes).len() < usize::MAX,
    ensures
        ({
            let longer = spec_appended(log, writes);
            let after = state_after(spec_records(longer, 0), spec_records(longer, 0).len());
            &&& log.len() <= longer.len()
            &&& height + writes.len() <= u64::MAX
            &&& log_wf(longer, (height + writes.len()) as u64, after)
            &&& after.transactions.live.contains_key(transaction_id)
            &&& forall|key: Seq<u8>|
                spec_get(longer, after.index, key, None) == #[trigger] spec_get(
                    log,
                    state.index,
                    key,
                    None,
                )
        }),
    decreases writes.len(),
{
    if writes.len() == 0 {
        reveal(log_wf);
    } else {
        let earlier = writes.drop_last();
        let last = writes.last();
        let shorter = spec_appended(log, earlier);
        let before = state_after(spec_records(shorter, 0), spec_records(shorter, 0).len());
        let reached = (height + earlier.len()) as u64;
        assert forall|i: int| 0 <= i < earlier.len() implies written_inside(
            #[trigger] earlier[i],
            transaction_id,
            height,
        ) by {
            assert(earlier[i] == writes[i]);
        }
        assert(written_inside(writes[writes.len() - 1], transaction_id, height));
        lemma_writes_inside(log, height, state, transaction_id, earlier);
        lemma_height_bound(shorter, reached, before);
        lemma_append_step(shorter, reached, before, last);
        let pointer = LogPointer {
            pos: shorter.len() as u64,
            len: spec_serialize(last).len() as usize,
        };
        let longer = spec_appended(log, writes);
        let after = state_after(spec_records(longer, 0), spec_records(longer, 0).len());
        assert(after == spec_step(before, last, pointer)) by {
            reveal(log_wf);
        }
        assert forall|key: Seq<u8>|
            spec_get(longer, after.index, key, None) == #[trigger] spec_get(
                log,
                state.index,
                key,
                None,
            ) by {
            lemma_step_keeps_committed(shorter, reached, before, last, key);
            assert(spec_get(shorter, before.index, key, None) == spec_get(
                log,
                state.index,
                key,
                None,
            ));
        }
    }
}

/// Abort restores: when a transaction has written, whatever and however
/// often, and then aborts, with nothing else asked of the engine in between,
/// everybody reads what was read before the first of those writes.
pub proof fn law_abort_restores(
    before: LogKeyValueStore,
    after: LogKeyValueStore,
    transaction_id: u64,
    writes: Seq<InstructionView>,
)
    requires
        before.wf(),
        after.wf(),
        before.transactions().live.contains_key(transaction_id),
        forall|i: int|
            0 <= i < writes.len() ==> written_inside(
                #[trigger] writes[i],
                transaction_id,
                before.height(),
            ),
        after.log() == spec_appended(before.log(), writes) + spec_serialize(
            InstructionView::TransactionAbort { transaction_id },
        ),
    ensures
        forall|key: Seq<u8>| #[trigger] after.value(key, None) == before.value(key, None),
        !after.transactions().live.contains_key(transaction_id),
{
    after.lemma_log_fits();
    let abort = InstructionView::TransactionAbort { transaction_id };
    let longer = spec_appended(before.log(), writes);
    let reached = state_after(spec_records(longer, 0), spec_records(longer, 0).len());
    lemma_writes_inside(before.log(), before.height(), before.state(), transaction_id, writes);
    let height = (before.height() + writes.len()) as u64;
    lemma_height_bound(longer, height, reached);
    lemma_append_step(longer, height, reached, abort);
    let pointer = LogPointer { pos: longer.len() as u64, len: spec_serialize(abort).len() as usize };
    lemma_log_decides(
        after.log(),
        after.height(),
        after.state(),
        (height + 1) as u64,
        spec_step(reached, abort, pointer),
    );
    assert forall|key: Seq<u8>| #[trigger] after.value(key, None) == before.value(key, None) by {
        lemma_step_keeps_committed(longer, height, reached, abort, key);
        assert(spec_get(longer, reached.index, key, None) == spec_get(
            before.log(),
            before.index(),
            key,
            None,
        ));
    }
}

/// What is written is read: once the engine has appended a write of a key,
/// a read of the key in the slot of the write finds that write. After a set
/// it returns the value that was set, after a removal nothing, and after a
/// revert what the walk down the log from the height of the revert finds.
pub proof fn law_write_is_read(
    before: LogKeyValueStore,
    after: LogKeyValueStore,
    instruction: InstructionView,
)
    requires
        instruction.legal(),
        instruction.key() is Some,
        after.follows(before, instruction),
    ensures
        after.value(instruction.key().unwrap(), instruction.transaction_id()) == spec_value_of(
            instructions_of(after.records()),
            Ok(instruction),
        ),
        instruction.value() matches Some(value) ==> after.value(
            instruction.key().unwrap(),
            instruction.transaction_id(),
        ) == Ok::<Option<Seq<u8>>, KVError>(Some(value)),
        instruction is RemoveOne || instruction is TransactionalRemoveOne ==> after.value(
            instruction.key().unwrap(),
            instruction.transaction_id(),
        ) == Ok::<Option<Seq<u8>>, KVError>(None),
{
    after.lemma_log_fits();
    let bytes = spec_serialize(instruction);
    lemma_parse_serialized(instruction, Seq::empty());
    assert(bytes + Seq::<u8>::empty() =~= bytes);
    assert(after.log().subrange(
        before.log().len() as int,
        (before.log().len() + bytes.len()) as int,
    ) =~= bytes);
}

} // verus!
