//! The storage engine.
//!
//! The engine owns the log, the index, the chain height and the transaction
//! manager. Every mutation appends one instruction to the log and brings the
//! index and the transactions to the state that the log then stands for.
use crate::constants::{LOG_FILE_NAME, MAX_KEY_LENGTH, MAX_TRANSACTION_ID};
use crate::storage::buffer_parser::{
    lemma_records_append, lemma_records_cut, lemma_records_shape, lemma_records_split,
    spec_log_whole, spec_records, spec_records_end, CommandBufferParser, LogRecord,
};
use crate::storage::chain_height::ChainHeight;
use crate::storage::errors::{KVError, KVResult};
use crate::storage::instruction::{
    lemma_parse_serialized, spec_parse, spec_serialize, Instruction, InstructionError,
    InstructionView,
};
use crate::storage::key_pointer_map::{slot_view, IndexView, KeyPointerMap};
use crate::storage::kvkey::{copy_bytes, same_key, KVKey};
use crate::storage::kvvalue::KVValue;
use crate::storage::log_pointer::LogPointer;
use crate::storage::log_state::{
    affected, discarded, instructions_of, key_seen, lemma_sound_before, lemma_sound_next,
    lemma_sound_none, lemma_sound_prefix, lemma_state_next, lemma_state_prefix, log_sound,
    names_key, promoted, record_sound, spec_get, spec_inspect_all, spec_inspect_one, spec_pointer,
    spec_read, spec_resolve, spec_reverted, spec_step, state_after, LogState,
};
use crate::storage::log_writer::LogWriter;
use crate::storage::transaction_manager::{
    keys_view, TransactionId, TransactionManager, TransactionManagerError, TransactionManagerView,
};
use vstd::prelude::*;
use vstd::slice::slice_subrange;
use vstd::string::*;

verus! {

/// A sequence holds a thing after a push exactly if it held it before or the
/// thing is what was pushed.
pub proof fn lemma_push_contains(keys: Seq<Seq<u8>>, key: Seq<u8>)
    ensures
        forall|other: Seq<u8>| #[trigger]
            keys.push(key).contains(other) <==> keys.contains(other) || other == key,
{
    let longer = keys.push(key);
    assert forall|other: Seq<u8>| #[trigger] longer.contains(other) implies keys.contains(other)
        || other == key by {
        let i = choose|i: int| 0 <= i < longer.len() && longer[i] == other;
        if i < keys.len() {
            assert(keys[i] == other);
        }
    }
    assert forall|other: Seq<u8>| keys.contains(other) || other == key implies #[trigger]
        longer.contains(other) by {
        if keys.contains(other) {
            let i = choose|i: int| 0 <= i < keys.len() && keys[i] == other;
            assert(longer[i] == other);
        } else {
            assert(longer[keys.len() as int] == other);
        }
    }
}

/// Keeps `log_pointer` for `key`: in the slot of the transaction if there is
/// one, in the committed slot otherwise.
pub fn update_key_pointer_map(
    key: &KVKey,
    log_pointer: &LogPointer,
    key_pointer_map: &mut KeyPointerMap,
    transaction_id: Option<TransactionId>,
)
    ensures
        final(key_pointer_map)@ == old(key_pointer_map)@.insert(
            (key@, slot_view(transaction_id)),
            *log_pointer,
        ),
        old(key_pointer_map).well_formed() ==> final(key_pointer_map).well_formed(),
{
    key_pointer_map.insert(key, transaction_id, *log_pointer);
}

/// Makes the writes of a transaction visible to everybody: for each key that
/// the transaction has written to, the pointer in its slot moves to the
/// committed slot. The transaction is forgotten.
pub fn update_committed_log_pointers(
    transaction_manager: &mut TransactionManager,
    key_pointer_map: &mut KeyPointerMap,
    transaction_id: TransactionId,
)
    ensures
        final(key_pointer_map)@ == promoted(
            old(key_pointer_map)@,
            affected(old(transaction_manager)@.live, transaction_id@),
            transaction_id@,
        ),
        old(key_pointer_map).well_formed() ==> final(key_pointer_map).well_formed(),
        final(transaction_manager)@.counter == old(transaction_manager)@.counter,
        final(transaction_manager)@.live == old(transaction_manager)@.live.remove(
            transaction_id@,
        ),
{
    let affected_keys = transaction_manager.get_affected_keys(&transaction_id);
    let ghost keys = keys_view(affected_keys@);
    let ghost start = key_pointer_map@;
    let mut i: usize = 0;
    assert(keys.take(0) =~= Seq::<Seq<u8>>::empty());
    assert(key_pointer_map@ =~= promoted(start, keys.take(0), transaction_id@));
    while i < affected_keys.len()
        invariant
            i <= affected_keys@.len(),
            keys == keys_view(affected_keys@),
            old(key_pointer_map).well_formed() ==> key_pointer_map.well_formed(),
            key_pointer_map@ == promoted(start, keys.take(i as int), transaction_id@),
        decreases affected_keys.len() - i,
    {
        let key = &affected_keys[i];
        let ghost done = keys.take(i as int);
        proof {
            lemma_push_contains(done, key@);
            assert(keys.take(i + 1) =~= done.push(key@));
        }
        match key_pointer_map.get(key, Some(transaction_id)) {
            Some(pointer) => {
                key_pointer_map.insert(key, None, pointer);
                key_pointer_map.remove(key, Some(transaction_id));
            },
            None => {},
        }
        assert(key_pointer_map@ =~= promoted(start, done.push(key@), transaction_id@));
        i = i + 1;
    }
    assert(keys.take(affected_keys@.len() as int) =~= keys);
    transaction_manager.remove_transaction(&transaction_id);
}

/// Throws the writes of a transaction away: for each key that the transaction
/// has written to, the pointer in its slot is dropped. The transaction is
/// forgotten.
pub fn update_aborted_log_pointers(
    transaction_manager: &mut TransactionManager,
    key_pointer_map: &mut KeyPointerMap,
    transaction_id: TransactionId,
)
    ensures
        final(key_pointer_map)@ == discarded(
            old(key_pointer_map)@,
            affected(old(transaction_manager)@.live, transaction_id@),
            transaction_id@,
        ),
        old(key_pointer_map).well_formed() ==> final(key_pointer_map).well_formed(),
        final(transaction_manager)@.counter == old(transaction_manager)@.counter,
        final(transaction_manager)@.live == old(transaction_manager)@.live.remove(
            transaction_id@,
        ),
{
    let affected_keys = transaction_manager.get_affected_keys(&transaction_id);
    let ghost keys = keys_view(affected_keys@);
    let ghost start = key_pointer_map@;
    let mut i: usize = 0;
    assert(keys.take(0) =~= Seq::<Seq<u8>>::empty());
    assert(key_pointer_map@ =~= discarded(start, keys.take(0), transaction_id@));
    while i < affected_keys.len()
        invariant
            i <= affected_keys@.len(),
            keys == keys_view(affected_keys@),
            old(key_pointer_map).well_formed() ==> key_pointer_map.well_formed(),
            key_pointer_map@ == discarded(start, keys.take(i as int), transaction_id@),
        decreases affected_keys.len() - i,
    {
        let key = &affected_keys[i];
        let ghost done = keys.take(i as int);
        proof {
            lemma_push_contains(done, key@);
            assert(keys.take(i + 1) =~= done.push(key@));
        }
        key_pointer_map.remove(key, Some(transaction_id));
        assert(key_pointer_map@ =~= discarded(start, done.push(key@), transaction_id@));
        i = i + 1;
    }
    assert(keys.take(affected_keys@.len() as int) =~= keys);
    transaction_manager.remove_transaction(&transaction_id);
}

/// Brings the index and the transactions to the state that `instruction`
/// leaves behind when it lies at `pointer`. A `RevertAll` changes nothing
/// here: what it brings back is not in the state it finds.
fn apply_instruction(
    key_pointer_map: &mut KeyPointerMap,
    transaction_manager: &mut TransactionManager,
    instruction: &Instruction,
    pointer: LogPointer,
)
    ensures
        (LogState { index: final(key_pointer_map)@, transactions: final(transaction_manager)@ })
            == spec_step(
            LogState { index: old(key_pointer_map)@, transactions: old(transaction_manager)@ },
            instruction@,
            pointer,
        ),
        old(key_pointer_map).well_formed() ==> final(key_pointer_map).well_formed(),
{
    match instruction {
        Instruction::SetOne { key, .. } => {
            update_key_pointer_map(key, &pointer, key_pointer_map, None);
        },
        Instruction::RevertOne { key, .. } => {
            update_key_pointer_map(key, &pointer, key_pointer_map, None);
        },
        Instruction::RemoveOne { key } => {
            update_key_pointer_map(key, &pointer, key_pointer_map, None);
        },
        Instruction::RemoveAll => {
            key_pointer_map.remove_committed();
        },
        Instruction::RevertAll { .. } => {},
        Instruction::TransactionStart { transaction_id } => {
            transaction_manager.initialize_transaction(transaction_id);
            transaction_manager.update_transaction_id(transaction_id);
        },
        Instruction::TransactionalSet { key, transaction_id, .. } => {
            update_key_pointer_map(key, &pointer, key_pointer_map, Some(*transaction_id));
            let _ = transaction_manager.add_affected_keys(transaction_id, key);
        },
        Instruction::TransactionalRevertOne { key, transaction_id, .. } => {
            update_key_pointer_map(key, &pointer, key_pointer_map, Some(*transaction_id));
            let _ = transaction_manager.add_affected_keys(transaction_id, key);
        },
        Instruction::TransactionalRemoveOne { key, transaction_id } => {
            update_key_pointer_map(key, &pointer, key_pointer_map, Some(*transaction_id));
            let _ = transaction_manager.add_affected_keys(transaction_id, key);
        },
        Instruction::TransactionCommit { transaction_id } => {
            update_committed_log_pointers(transaction_manager, key_pointer_map, *transaction_id);
        },
        Instruction::TransactionAbort { transaction_id } => {
            update_aborted_log_pointers(transaction_manager, key_pointer_map, *transaction_id);
        },
    }
}

/// What appending one instruction to a whole log does to the records and to
/// the states they stand for.
pub proof fn lemma_append_record(log: Seq<u8>, instruction: InstructionView)
    requires
        spec_log_whole(log),
        instruction.legal(),
    ensures
        spec_records(log + spec_serialize(instruction), 0) == spec_records(log, 0).push(
            LogRecord {
                instruction,
                pos: log.len(),
                len: spec_serialize(instruction).len(),
            },
        ),
        spec_log_whole(log + spec_serialize(instruction)),
        forall|n: nat|
            n <= spec_records(log, 0).len() ==> #[trigger] state_after(
                spec_records(log + spec_serialize(instruction), 0),
                n,
            ) == state_after(spec_records(log, 0), n),
        log_sound(spec_records(log, 0), spec_records(log, 0).len()) && record_sound(
            state_after(spec_records(log, 0), spec_records(log, 0).len()).transactions,
            spec_records(log, 0).len(),
            instruction,
        ) ==> log_sound(
            spec_records(log + spec_serialize(instruction), 0),
            spec_records(log, 0).len() + 1,
        ),
{
    let bytes = spec_serialize(instruction);
    let records = spec_records(log, 0);
    let longer = spec_records(log + bytes, 0);
    lemma_parse_serialized(instruction, Seq::empty());
    assert(bytes + Seq::<u8>::empty() =~= bytes);
    lemma_records_append(log, 0, bytes);
    assert forall|n: nat| n <= records.len() implies #[trigger] state_after(longer, n)
        == state_after(records, n) by {
        lemma_state_prefix(records, longer, n);
    }
    if log_sound(records, records.len()) && record_sound(
        state_after(records, records.len()).transactions,
        records.len(),
        instruction,
    ) {
        lemma_sound_prefix(records, longer, records.len());
        assert(state_after(longer, records.len()) == state_after(records, records.len()));
        lemma_sound_next(longer, records.len());
    }
}

/// What holds of the log, the chain height and the state of every engine:
/// the log is instructions from its first byte to its last, each of them one
/// that the engine writes; the chain height is their number; the index and
/// the transactions are what they leave behind.
#[verifier::opaque]
pub open spec fn log_wf(log: Seq<u8>, height: u64, state: LogState) -> bool {
    &&& spec_log_whole(log)
    &&& log_sound(spec_records(log, 0), spec_records(log, 0).len())
    &&& height == spec_records(log, 0).len()
    &&& state == state_after(spec_records(log, 0), spec_records(log, 0).len())
}

/// There are no more instructions in a log than bytes.
pub proof fn lemma_height_bound(log: Seq<u8>, height: u64, state: LogState)
    requires
        log_wf(log, height, state),
    ensures
        height <= log.len(),
{
    reveal(log_wf);
    lemma_records_shape(log, 0);
}

/// Appending a sound instruction other than `RevertAll` keeps what holds of
/// every engine, with the state that the instruction leaves behind.
pub proof fn lemma_append_step(log: Seq<u8>, height: u64, state: LogState, instruction: InstructionView)
    requires
        log_wf(log, height, state),
        instruction.legal(),
        !(instruction is RevertAll),
        record_sound(state.transactions, height as nat, instruction),
        height < u64::MAX,
    ensures
        log_wf(
            log + spec_serialize(instruction),
            (height + 1) as u64,
            spec_step(
                state,
                instruction,
                LogPointer {
                    pos: log.len() as u64,
                    len: spec_serialize(instruction).len() as usize,
                },
            ),
        ),
        spec_records(log + spec_serialize(instruction), 0) == spec_records(log, 0).push(
            LogRecord {
                instruction,
                pos: log.len(),
                len: spec_serialize(instruction).len(),
            },
        ),
{
    reveal(log_wf);
    let records = spec_records(log, 0);
    let longer = spec_records(log + spec_serialize(instruction), 0);
    lemma_append_record(log, instruction);
    let added = longer[records.len() as int];
    assert(added.instruction == instruction);
    assert(state_after(longer, records.len()) == state_after(records, records.len()));
    assert(state_after(longer, (records.len() + 1) as nat) == spec_step(
        state_after(longer, records.len()),
        added.instruction,
        spec_pointer(added),
    ));
}

/// The offset at which the record behind the first `count` records starts.
pub open spec fn record_start(records: Seq<LogRecord>, count: nat) -> nat {
    if count == 0 {
        0
    } else {
        records[count - 1].pos + records[count - 1].len
    }
}

/// How many records a replay takes in: all of them, or those up to and
/// including the one at the height `target`.
pub open spec fn replay_count(records: Seq<LogRecord>, target: Option<u64>) -> nat {
    match target {
        Some(height) => if height + 1 < records.len() {
            (height + 1) as nat
        } else {
            records.len()
        },
        None => records.len(),
    }
}

/// What a reader that stands behind the first `count` records of a log finds
/// there is the next record; where it finds nothing, there is none.
proof fn lemma_next_record(log: Seq<u8>, count: nat)
    requires
        count <= spec_records(log, 0).len(),
    ensures
        record_start(spec_records(log, 0), count) <= log.len(),
        spec_records(log, 0).len() <= log.len(),
        record_start(spec_records(log, 0), count) < log.len() && spec_parse(
            log.skip(record_start(spec_records(log, 0), count) as int),
        ) is Ok ==> count < spec_records(log, 0).len() && spec_records(log, 0)[count as int]
            == (LogRecord {
            instruction: spec_parse(
                log.skip(record_start(spec_records(log, 0), count) as int),
            ).unwrap().0,
            pos: record_start(spec_records(log, 0), count),
            len: spec_parse(log.skip(record_start(spec_records(log, 0), count) as int)).unwrap().1,
        }),
        record_start(spec_records(log, 0), count) >= log.len() || spec_parse(
            log.skip(record_start(spec_records(log, 0), count) as int),
        ) is Err ==> count == spec_records(log, 0).len() && spec_records_end(log, 0)
            == record_start(spec_records(log, 0), count),
{
    let records = spec_records(log, 0);
    let pos = record_start(records, count);
    lemma_records_shape(log, 0);
    lemma_records_split(log, 0, count);
    let rest = spec_records(log, pos);
    assert(records.len() == count + rest.len()) by {
        assert(records.take(count as int).len() == count);
    }
    if pos < log.len() && spec_parse(log.skip(pos as int)) is Ok {
        assert(rest.len() > 0);
        assert(records[count as int] == rest[0]);
    } else {
        assert(rest.len() == 0);
        assert(spec_records_end(log, pos) == pos);
    }
}

/// Whether the engine, with the transactions of `transaction_manager` and at
/// the height `height`, writes `instruction` to its log.
fn is_sound(transaction_manager: &TransactionManager, height: u64, instruction: &Instruction) -> (sound:
    bool)
    ensures
        sound == record_sound(transaction_manager@, height as nat, instruction@),
{
    match instruction {
        Instruction::RevertOne { height: target, .. } => target.as_u64() <= height,
        Instruction::RevertAll { height: target } => target.as_u64() <= height,
        Instruction::TransactionStart { transaction_id } => {
            let counter = transaction_manager.current_transaction_id().as_u64();
            counter < MAX_TRANSACTION_ID && transaction_id.as_u64() == counter + 1
        },
        Instruction::TransactionalSet { transaction_id, .. } => transaction_manager.is_live(
            transaction_id,
        ),
        Instruction::TransactionalRevertOne { height: target, transaction_id, .. } => {
            target.as_u64() <= height && transaction_manager.is_live(transaction_id)
        },
        Instruction::TransactionalRemoveOne { transaction_id, .. } => transaction_manager.is_live(
            transaction_id,
        ),
        Instruction::TransactionCommit { transaction_id } => transaction_manager.is_live(
            transaction_id,
        ),
        Instruction::TransactionAbort { transaction_id } => transaction_manager.is_live(
            transaction_id,
        ),
        _ => true,
    }
}

/// What a replay has built: the index, the number of records taken in, the
/// transactions, and the offset behind the last record taken in.
pub struct Replayed {
    pub key_pointer_map: KeyPointerMap,
    pub height: ChainHeight,
    pub transaction_manager: TransactionManager,
    pub end: usize,
}

/// Takes the record at the height `height` of `log` into the index and the
/// transactions that the records before it have left behind. A record that
/// the engine does not write in that state is refused, and nothing changes.
fn replay_record(
    log: &[u8],
    key_pointer_map: &mut KeyPointerMap,
    transaction_manager: &mut TransactionManager,
    instruction: &Instruction,
    pointer: LogPointer,
    height: u64,
) -> (result: KVResult<()>)
    requires
        height < spec_records(log@, 0).len(),
        spec_records(log@, 0)[height as int].instruction == instruction@,
        spec_pointer(spec_records(log@, 0)[height as int]) == pointer,
        old(key_pointer_map)@ == state_after(spec_records(log@, 0), height as nat).index,
        old(transaction_manager)@ == state_after(
            spec_records(log@, 0),
            height as nat,
        ).transactions,
        log_sound(spec_records(log@, 0), height as nat),
        old(key_pointer_map).well_formed(),
    ensures
        final(key_pointer_map).well_formed(),
        match result {
            Ok(()) => {
                &&& log_sound(spec_records(log@, 0), (height + 1) as nat)
                &&& final(key_pointer_map)@ == state_after(
                    spec_records(log@, 0),
                    (height + 1) as nat,
                ).index
                &&& final(transaction_manager)@ == state_after(
                    spec_records(log@, 0),
                    (height + 1) as nat,
                ).transactions
            },
            Err(e) => e == KVError::CorruptLog && !log_sound(
                spec_records(log@, 0),
                (height + 1) as nat,
            ),
        },
    decreases height + 1, 0int,
{
    let ghost records = spec_records(log@, 0);
    proof {
        lemma_state_next(records, height as nat);
        lemma_sound_next(records, height as nat);
    }
    if !is_sound(transaction_manager, height, instruction) {
        return Err(KVError::CorruptLog);
    }
    match instruction {
        Instruction::RevertAll { height: back } => {
            if back.as_u64() < height {
                proof {
                    lemma_sound_before(records, height as nat, (back@ + 1) as nat);
                }
                let past = match replay(log, Some(back)) {
                    Ok(past) => past,
                    Err(e) => {
                        return Err(e);
                    },
                };
                let counter = transaction_manager.current_transaction_id();
                *key_pointer_map = past.key_pointer_map;
                *transaction_manager = past.transaction_manager;
                transaction_manager.update_transaction_id(&counter);
            }
        },
        _ => {
            apply_instruction(key_pointer_map, transaction_manager, instruction, pointer);
        },
    }
    Ok(())
}

/// Rebuilds the index and the transactions from `log`: from all of its
/// records, or from those up to and including the one at `target_height`.
///
/// A log with a record that the engine does not write in the state that the
/// records before it leave behind is refused.
pub fn replay(log: &[u8], target_height: Option<&ChainHeight>) -> (result: KVResult<Replayed>)
    ensures
        match result {
            Ok(replayed) => {
                let records = spec_records(log@, 0);
                let n = replay_count(
                    records,
                    match target_height {
                        Some(t) => Some(t@),
                        None => None,
                    },
                );
                &&& log_sound(records, n)
                &&& replayed.key_pointer_map.well_formed()
                &&& replayed.key_pointer_map@ == state_after(records, n).index
                &&& replayed.transaction_manager@ == state_after(records, n).transactions
                &&& replayed.height@ == n
                &&& replayed.end == record_start(records, n)
                &&& target_height is None ==> replayed.end == spec_records_end(log@, 0)
            },
            Err(e) => e == KVError::CorruptLog && !log_sound(
                spec_records(log@, 0),
                replay_count(
                    spec_records(log@, 0),
                    match target_height {
                        Some(t) => Some(t@),
                        None => None,
                    },
                ),
            ),
        },
    decreases
            match target_height {
                Some(t) => t@ + 1,
                None => (log@.len() + 1) as int,
            },
            1int,
{
    let ghost records = spec_records(log@, 0);
    let ghost target = match target_height {
        Some(t) => Some(t@),
        None => None,
    };
    let ghost n = replay_count(records, target);
    let mut parser = CommandBufferParser::new(copy_bytes(log), 0);
    let mut key_pointer_map = KeyPointerMap::new();
    let mut transaction_manager = TransactionManager::new();
    let mut height: u64 = 0;
    let mut done = false;
    proof {
        lemma_next_record(log@, 0);
        lemma_sound_none(records);
        assert(log@.len() == log.len());
    }
    while !done
        invariant
            records == spec_records(log@, 0),
            target == (match target_height {
                Some(t) => Some(t@),
                None => None,
            }),
            n == replay_count(records, target),
            parser.bytes() == log@,
            height <= records.len() <= log@.len() <= usize::MAX,
            parser.position() == record_start(records, height as nat),
            parser.position() <= log@.len(),
            key_pointer_map.well_formed(),
            key_pointer_map@ == state_after(records, height as nat).index,
            transaction_manager@ == state_after(records, height as nat).transactions,
            log_sound(records, height as nat),
            height <= n,
            done ==> height == n,
            done && target is None ==> parser.position() == spec_records_end(log@, 0),
        decreases
                if done {
                    0
                } else {
                    1 + log@.len() - parser.position()
                },
    {
        let start = parser.offset();
        proof {
            lemma_next_record(log@, height as nat);
        }
        let reached = match target_height {
            Some(t) => t.as_u64() < height,
            None => false,
        };
        if reached {
            done = true;
        } else {
            match parser.next() {
                None => {
                    done = true;
                },
                Some((instruction, len)) => {
                    let pointer = LogPointer::new(start as u64, len);
                    match replay_record(
                        log,
                        &mut key_pointer_map,
                        &mut transaction_manager,
                        &instruction,
                        pointer,
                        height,
                    ) {
                        Ok(()) => {},
                        Err(e) => {
                            proof {
                                if log_sound(records, n) {
                                    lemma_sound_before(records, n, (height + 1) as nat);
                                }
                            }
                            return Err(e);
                        },
                    }
                    height = height + 1;
                },
            }
        }
    }
    Ok(
        Replayed {
            key_pointer_map,
            height: ChainHeight::new(height),
            transaction_manager,
            end: parser.offset(),
        },
    )
}

/// Rebuilds the index, the chain height and the transactions from `log`: from
/// all of its records, or from those up to and including the one at
/// `target_height`.
pub fn load_key_pointer_map(log: &[u8], target_height: Option<&ChainHeight>) -> (result: KVResult<
    (KeyPointerMap, ChainHeight, TransactionManager),
>)
    ensures
        match result {
            Ok((key_pointer_map, height, transaction_manager)) => {
                let records = spec_records(log@, 0);
                let n = replay_count(
                    records,
                    match target_height {
                        Some(t) => Some(t@),
                        None => None,
                    },
                );
                &&& log_sound(records, n)
                &&& key_pointer_map.well_formed()
                &&& key_pointer_map@ == state_after(records, n).index
                &&& transaction_manager@ == state_after(records, n).transactions
                &&& height@ == n
            },
            Err(e) => e == KVError::CorruptLog && !log_sound(
                spec_records(log@, 0),
                replay_count(
                    spec_records(log@, 0),
                    match target_height {
                        Some(t) => Some(t@),
                        None => None,
                    },
                ),
            ),
        },
{
    match replay(log, target_height) {
        Ok(replayed) => Ok(
            (replayed.key_pointer_map, replayed.height, replayed.transaction_manager),
        ),
        Err(e) => Err(e),
    }
}

/// The instructions of `instructions` as mathematical values.
pub open spec fn instruction_views(instructions: Seq<Instruction>) -> Seq<InstructionView> {
    Seq::new(instructions.len(), |i: int| instructions[i]@)
}

/// Instructions with heights as mathematical values.
pub open spec fn inspection_view(found: Seq<(Instruction, ChainHeight)>) -> Seq<
    (InstructionView, u64),
> {
    Seq::new(found.len(), |i: int| (found[i].0@, found[i].1@))
}

/// The instructions of `log`, in the order in which they lie in it.
pub fn read_instructions(log: &[u8]) -> (instructions: Vec<Instruction>)
    ensures
        instruction_views(instructions@) == instructions_of(spec_records(log@, 0)),
{
    let ghost records = spec_records(log@, 0);
    let mut parser = CommandBufferParser::new(copy_bytes(log), 0);
    let mut instructions: Vec<Instruction> = Vec::new();
    let mut done = false;
    proof {
        lemma_next_record(log@, 0);
    }
    while !done
        invariant
            records == spec_records(log@, 0),
            parser.bytes() == log@,
            instructions@.len() <= records.len() <= log@.len(),
            parser.position() == record_start(records, instructions@.len()),
            parser.position() <= log@.len(),
            forall|i: int|
                0 <= i < instructions@.len() ==> (#[trigger] instructions@[i])@
                    == records[i].instruction,
            done ==> instructions@.len() == records.len(),
        decreases
                if done {
                    0
                } else {
                    1 + log@.len() - parser.position()
                },
    {
        proof {
            lemma_next_record(log@, instructions@.len());
        }
        match parser.next() {
            None => {
                done = true;
            },
            Some((instruction, _)) => {
                instructions.push(instruction);
            },
        }
    }
    assert(instruction_views(instructions@) =~= instructions_of(records));
    instructions
}

/// Looks for the value that `target_key` has once the instruction at
/// `target_height` and all before it are in effect, by walking down the
/// instructions from that height.
pub fn recursive_find(
    target_key: &KVKey,
    instructions: &Vec<Instruction>,
    target_height: &ChainHeight,
) -> (result: KVResult<Option<KVValue>>)
    ensures
        match result {
            Ok(Some(value)) => spec_resolve(
                instruction_views(instructions@),
                target_key@,
                target_height@ as nat,
            ) == Some(value@),
            Ok(None) => spec_resolve(
                instruction_views(instructions@),
                target_key@,
                target_height@ as nat,
            ) is None,
            Err(_) => false,
        },
    decreases target_height@,
{
    let height = target_height.as_u64();
    if height >= instructions.len() as u64 {
        return Ok(None);
    }
    let ghost views = instruction_views(instructions@);
    assert(views[height as int] == instructions@[height as int]@);
    match &instructions[height as usize] {
        Instruction::SetOne { key, value } => {
            if same_key(key, target_key) {
                return Ok(Some(copy_bytes(value.as_slice())));
            }
        },
        Instruction::RemoveOne { key } => {
            if same_key(key, target_key) {
                return Ok(None);
            }
        },
        Instruction::RemoveAll => {
            return Ok(None);
        },
        Instruction::RevertOne { key, height: back } => {
            if same_key(key, target_key) && back.as_u64() < height {
                return recursive_find(target_key, instructions, back);
            }
        },
        Instruction::RevertAll { height: back } => {
            if back.as_u64() < height {
                return recursive_find(target_key, instructions, back);
            }
        },
        _ => {},
    }
    if height == 0 {
        Ok(None)
    } else {
        recursive_find(target_key, instructions, &ChainHeight::new(height - 1))
    }
}

/// Looks for the value that `key` has once the instruction at `height` of
/// `log` and all before it are in effect.
pub fn get_revert_value(log: &[u8], key: &KVKey, height: &ChainHeight) -> (result: KVResult<
    Option<KVValue>,
>)
    ensures
        match result {
            Ok(Some(value)) => spec_resolve(
                instructions_of(spec_records(log@, 0)),
                key@,
                height@ as nat,
            ) == Some(value@),
            Ok(None) => spec_resolve(instructions_of(spec_records(log@, 0)), key@, height@ as nat)
                is None,
            Err(_) => false,
        },
{
    let instructions = read_instructions(log);
    recursive_find(key, &instructions, height)
}

/// Reads the instruction that lies at `pointer` in `log`.
pub fn read_at(log: &[u8], pointer: LogPointer) -> (result: Result<Instruction, InstructionError>)
    ensures
        match result {
            Ok(instruction) => spec_read(log@, pointer) == Ok::<InstructionView, InstructionError>(
                instruction@,
            ),
            Err(e) => spec_read(log@, pointer) == Err::<InstructionView, InstructionError>(e),
        },
{
    if pointer.pos > log.len() as u64 {
        return Err(InstructionError::Truncated);
    }
    let from: usize = pointer.pos as usize;
    if pointer.len > log.len() - from {
        return Err(InstructionError::Truncated);
    }
    let bytes = slice_subrange(log, from, from + pointer.len);
    match Instruction::parse(bytes) {
        Ok((instruction, _)) => Ok(instruction),
        Err(e) => Err(e),
    }
}

/// Whether `instruction` is a write of `key` that is seen by everybody.
fn instruction_names_key(instruction: &Instruction, key: &KVKey) -> (names: bool)
    ensures
        names == names_key(instruction@, key@),
{
    match instruction {
        Instruction::SetOne { key: k, .. } => same_key(k, key),
        Instruction::RevertOne { key: k, .. } => same_key(k, key),
        Instruction::RemoveOne { key: k } => same_key(k, key),
        _ => false,
    }
}

/// The instructions of `log`, each with its height: all of them, or those
/// that belong to the history of `target_key`.
fn inspect(log: &[u8], target_key: Option<&KVKey>) -> (found: Vec<(Instruction, ChainHeight)>)
    ensures
        inspection_view(found@) == match target_key {
            Some(key) => spec_inspect_one(
                instructions_of(spec_records(log@, 0)),
                key@,
                spec_records(log@, 0).len(),
            ),
            None => spec_inspect_all(instructions_of(spec_records(log@, 0))),
        },
{
    let ghost records = spec_records(log@, 0);
    let ghost instructions = instructions_of(records);
    let mut parser = CommandBufferParser::new(copy_bytes(log), 0);
    let mut found: Vec<(Instruction, ChainHeight)> = Vec::new();
    let mut height: u64 = 0;
    let mut seen = false;
    let mut done = false;
    proof {
        lemma_next_record(log@, 0);
        assert(log@.len() == log.len());
        assert(inspection_view(found@) =~= Seq::<(InstructionView, u64)>::empty());
    }
    while !done
        invariant
            records == spec_records(log@, 0),
            instructions == instructions_of(records),
            parser.bytes() == log@,
            height <= records.len() <= log@.len() <= usize::MAX,
            parser.position() == record_start(records, height as nat),
            parser.position() <= log@.len(),
            target_key matches Some(key) ==> seen == key_seen(instructions, key@, height as nat)
                && inspection_view(found@) == spec_inspect_one(
                instructions,
                key@,
                height as nat,
            ),
            target_key is None ==> inspection_view(found@) == spec_inspect_all(
                instructions.take(height as int),
            ),
            done ==> height == records.len(),
        decreases
                if done {
                    0
                } else {
                    1 + log@.len() - parser.position()
                },
    {
        proof {
            lemma_next_record(log@, height as nat);
        }
        match parser.next() {
            None => {
                done = true;
            },
            Some((instruction, _)) => {
                assert(instructions[height as int] == instruction@);
                let ghost before = inspection_view(found@);
                let ghost item = (instruction@, height);
                let keep = match target_key {
                    None => true,
                    Some(key) => {
                        let names = instruction_names_key(&instruction, key);
                        let keep = match &instruction {
                            Instruction::RevertAll { .. } => seen,
                            Instruction::RemoveAll => seen,
                            _ => names,
                        };
                        seen = seen || names;
                        keep
                    },
                };
                if keep {
                    found.push((instruction, ChainHeight::new(height)));
                    assert(inspection_view(found@) =~= before.push(item));
                }
                proof {
                    if target_key is None {
                        assert(spec_inspect_all(instructions.take(height + 1)) =~= spec_inspect_all(
                            instructions.take(height as int),
                        ).push(item));
                    }
                }
                height = height + 1;
            },
        }
    }
    assert(instructions.take(records.len() as int) =~= instructions);
    found
}

/// Whether what lies behind the last instruction of `log` is no more than an
/// instruction that was not written to its end.
pub open spec fn tail_tolerated(log: Seq<u8>) -> bool {
    spec_records_end(log, 0) == log.len() || spec_parse(
        log.skip(spec_records_end(log, 0) as int),
    ) == Err::<(InstructionView, nat), InstructionError>(InstructionError::Truncated)
}

/// Whether an engine can be opened on `log`: every instruction in it is one
/// that the engine writes, and behind the last there is at most an
/// instruction that was not written to its end.
pub open spec fn log_accepted(log: Seq<u8>) -> bool {
    tail_tolerated(log) && log_sound(spec_records(log, 0), spec_records(log, 0).len())
}

/// A sound log, cut behind its last instruction, is the log of an engine in
/// the state that its instructions leave behind.
pub proof fn lemma_cut_log_wf(log: Seq<u8>)
    requires
        log_sound(spec_records(log, 0), spec_records(log, 0).len()),
        log.len() <= u64::MAX,
    ensures
        log_wf(
            log.take(spec_records_end(log, 0) as int),
            spec_records(log, 0).len() as u64,
            state_after(spec_records(log, 0), spec_records(log, 0).len()),
        ),
        spec_records(log.take(spec_records_end(log, 0) as int), 0) == spec_records(log, 0),
{
    reveal(log_wf);
    lemma_records_shape(log, 0);
    lemma_records_cut(log, 0, spec_records_end(log, 0) as int);
}

/// Appending a `RevertAll` that goes back no further up than the current
/// height keeps what holds of every engine, with the state it brings back.
pub proof fn lemma_append_revert_all(log: Seq<u8>, height: u64, state: LogState, target: u64)
    requires
        log_wf(log, height, state),
        target <= height,
        height < u64::MAX,
    ensures
        log_wf(
            log + spec_serialize(InstructionView::RevertAll { height: target }),
            (height + 1) as u64,
            if target < height {
                spec_reverted(state, state_after(spec_records(log, 0), (target + 1) as nat))
            } else {
                state
            },
        ),
{
    reveal(log_wf);
    let instruction = InstructionView::RevertAll { height: target };
    let records = spec_records(log, 0);
    let longer = spec_records(log + spec_serialize(instruction), 0);
    lemma_append_record(log, instruction);
    lemma_state_next(longer, records.len());
    assert(state_after(longer, records.len()) == state_after(records, records.len()));
    if target < height {
        assert(state_after(longer, (target + 1) as nat) == state_after(
            records,
            (target + 1) as nat,
        ));
    }
}

/// The log of an engine is sound up to every height below the current one.
pub proof fn lemma_wf_sound_before(log: Seq<u8>, height: u64, state: LogState, target: u64)
    requires
        log_wf(log, height, state),
        target < height,
    ensures
        log_sound(spec_records(log, 0), (target + 1) as nat),
        replay_count(spec_records(log, 0), Some(target)) == target + 1,
{
    reveal(log_wf);
    lemma_sound_before(spec_records(log, 0), spec_records(log, 0).len(), (target + 1) as nat);
}

/// The instruction that a write of `value` under `key` appends to the log.
pub open spec fn spec_set_instruction(
    key: Seq<u8>,
    value: Seq<u8>,
    transaction_id: Option<u64>,
) -> InstructionView {
    match transaction_id {
        Some(transaction_id) => InstructionView::TransactionalSet { key, value, transaction_id },
        None => InstructionView::SetOne { key, value },
    }
}

/// The instruction that a removal of `key` appends to the log.
pub open spec fn spec_remove_instruction(key: Seq<u8>, transaction_id: Option<u64>) -> InstructionView {
    match transaction_id {
        Some(transaction_id) => InstructionView::TransactionalRemoveOne { key, transaction_id },
        None => InstructionView::RemoveOne { key },
    }
}

/// The instruction that a revert of `key` to `height` appends to the log.
pub open spec fn spec_revert_instruction(
    key: Seq<u8>,
    height: u64,
    transaction_id: Option<u64>,
) -> InstructionView {
    match transaction_id {
        Some(transaction_id) => InstructionView::TransactionalRevertOne {
            key,
            height,
            transaction_id,
        },
        None => InstructionView::RevertOne { key, height },
    }
}

/// The storage engine.
pub struct LogKeyValueStore {
    writer: LogWriter,
    key_pointer_map: KeyPointerMap,
    current_height: ChainHeight,
    transaction_manager: TransactionManager,
}

impl LogKeyValueStore {
    /// The bytes of the log.
    pub closed spec fn log(&self) -> Seq<u8> {
        self.writer.bytes()
    }

    /// The index.
    pub closed spec fn index(&self) -> IndexView {
        self.key_pointer_map@
    }

    /// The transactions.
    pub closed spec fn transactions(&self) -> TransactionManagerView {
        self.transaction_manager@
    }

    /// The chain height.
    pub closed spec fn height(&self) -> u64 {
        self.current_height@
    }

    /// The instructions of the log, each with its place.
    pub open spec fn records(&self) -> Seq<LogRecord> {
        spec_records(self.log(), 0)
    }

    /// The index and the transactions.
    pub open spec fn state(&self) -> LogState {
        LogState { index: self.index(), transactions: self.transactions() }
    }

    /// What holds of every engine: the log is instructions from its first byte
    /// to its last, each of them one that the engine writes; the chain height
    /// is their number; the index and the transactions are what they leave
    /// behind; and the index keeps nothing twice.
    pub open spec fn wf(&self) -> bool {
        log_wf(self.log(), self.height(), self.state()) && self.index_well_formed()
    }

    /// Whether the index keeps nothing twice under a key and a slot.
    pub closed spec fn index_well_formed(&self) -> bool {
        self.key_pointer_map.well_formed()
    }

    /// The log fits into memory.
    pub proof fn lemma_log_fits(&self)
        ensures
            self.log().len() <= usize::MAX,
    {
        self.writer.lemma_bytes_fit();
    }

    /// The value that a read of `key` returns.
    pub open spec fn value(&self, key: Seq<u8>, transaction_id: Option<u64>) -> Result<
        Option<Seq<u8>>,
        KVError,
    > {
        spec_get(self.log(), self.index(), key, transaction_id)
    }

    /// Whether this is the engine `before` after it has appended
    /// `instruction`, an instruction other than `RevertAll`: the log is
    /// longer by the instruction, the chain height is one more, and the index
    /// and the transactions are what the instruction leaves behind.
    pub open spec fn follows(&self, before: LogKeyValueStore, instruction: InstructionView) -> bool {
        &&& self.log() == before.log() + spec_serialize(instruction)
        &&& self.height() == before.height() + 1
        &&& self.state() == spec_step(
            before.state(),
            instruction,
            LogPointer {
                pos: before.log().len() as u64,
                len: spec_serialize(instruction).len() as usize,
            },
        )
    }

    /// What the engine answers to a write to `key`, which may go back to the
    /// height `target` and may be made inside a transaction. The key is
    /// looked at first, then the height, then the transaction.
    pub open spec fn write_outcome(
        &self,
        key: Seq<u8>,
        target: Option<u64>,
        transaction_id: Option<u64>,
    ) -> KVResult<()> {
        if key.len() > MAX_KEY_LENGTH {
            Err(KVError::InstructionError(InstructionError::KeyTooLong))
        } else if target is Some && target.unwrap() > self.height() {
            Err(KVError::RevertOutOfRange)
        } else if transaction_id is Some && !self.transactions().live.contains_key(
            transaction_id.unwrap(),
        ) {
            Err(KVError::TransactionManagerError(TransactionManagerError::TransactionNotAlive))
        } else {
            Ok(())
        }
    }

    /// What the engine answers when it is asked to end a transaction.
    pub open spec fn end_outcome(&self, transaction_id: u64) -> KVResult<()> {
        if self.transactions().live.contains_key(transaction_id) {
            Ok(())
        } else {
            Err(KVError::TransactionManagerError(TransactionManagerError::TransactionNotAlive))
        }
    }

    /// Whether `key` has a value for everybody.
    pub open spec fn has_value(&self, key: Seq<u8>) -> bool {
        self.value(key, None) matches Ok(Some(_))
    }

    /// The chain height: the number of instructions in the log.
    pub fn current_height(&self) -> (height: ChainHeight)
        ensures
            height@ == self.height(),
    {
        self.current_height
    }

    /// The bytes of the log.
    pub fn log_bytes(&self) -> (bytes: &[u8])
        ensures
            bytes@ == self.log(),
    {
        self.writer.as_slice()
    }

    /// Appends `instruction` to the log, brings the index and the
    /// transactions to the state it leaves behind, and steps the chain
    /// height.
    fn record(&mut self, instruction: Instruction)
        requires
            old(self).wf(),
            instruction@.legal(),
            !(instruction@ is RevertAll),
            record_sound(old(self).transactions(), old(self).height() as nat, instruction@),
        ensures
            final(self).wf(),
            final(self).follows(*old(self), instruction@),
    {
        proof {
            lemma_height_bound(self.log(), self.height(), self.state());
        }
        let ghost bytes = spec_serialize(instruction@);
        let ghost target = LogPointer {
            pos: self.log().len() as u64,
            len: bytes.len() as usize,
        };
        let pointer = self.writer.append_instruction(&instruction);
        assert(pointer == target);
        proof {
            lemma_append_step(old(self).log(), old(self).height(), old(self).state(), instruction@);
        }
        apply_instruction(
            &mut self.key_pointer_map,
            &mut self.transaction_manager,
            &instruction,
            pointer,
        );
        let _ = self.current_height.increment();
        assert(self.log() == old(self).log() + bytes);
        assert(self.state() == spec_step(old(self).state(), instruction@, target));
    }

    /// Opens an engine on the bytes of a log.
    ///
    /// The index, the chain height and the transactions are rebuilt from the
    /// instructions of the log. Bytes behind the last instruction that are
    /// the beginning of one more are dropped. A log that holds anything else
    /// the engine cannot have written is refused.
    pub fn open(log: Vec<u8>) -> (result: KVResult<LogKeyValueStore>)
        ensures
            match result {
                Ok(engine) => {
                    &&& log_accepted(log@)
                    &&& engine.wf()
                    &&& engine.log() == log@.take(spec_records_end(log@, 0) as int)
                    &&& engine.records() == spec_records(log@, 0)
                },
                Err(e) => e == KVError::CorruptLog && !log_accepted(log@),
            },
    {
        let mut log = log;
        let ghost bytes = log@;
        assert(bytes.len() == log.len());
        let replayed = match replay(log.as_slice(), None) {
            Ok(replayed) => replayed,
            Err(e) => {
                return Err(e);
            },
        };
        let end = replayed.end;
        proof {
            lemma_records_shape(bytes, 0);
        }
        if end < log.len() {
            let rest = slice_subrange(log.as_slice(), end, log.len());
            assert(rest@ =~= bytes.skip(end as int));
            match Instruction::parse(rest) {
                Err(InstructionError::Truncated) => {},
                _ => {
                    return Err(KVError::CorruptLog);
                },
            }
            log.truncate(end);
        }
        assert(log@ =~= bytes.take(end as int));
        proof {
            lemma_cut_log_wf(bytes);
        }
        Ok(
            LogKeyValueStore {
                writer: LogWriter::new(log),
                key_pointer_map: replayed.key_pointer_map,
                current_height: replayed.height,
                transaction_manager: replayed.transaction_manager,
            },
        )
    }

    /// Reads `key`: as everybody sees it, or as the transaction sees it if one
    /// is given. A transaction sees its own last write to the key, and what
    /// everybody sees as long as it has not written to the key.
    ///
    /// The pointer in the slot that is looked into leads to the instruction
    /// that decides: a set gives its value, a removal gives nothing, a revert
    /// gives what a walk down the log from its height finds.
    pub fn get(&self, key: &KVKey, transaction_id: Option<TransactionId>) -> (result: KVResult<
        Option<KVValue>,
    >)
        ensures
            match result {
                Ok(Some(value)) => self.value(key@, slot_view(transaction_id)) == Ok::<
                    Option<Seq<u8>>,
                    KVError,
                >(Some(value@)),
                Ok(None) => self.value(key@, slot_view(transaction_id)) == Ok::<
                    Option<Seq<u8>>,
                    KVError,
                >(None),
                Err(e) => self.value(key@, slot_view(transaction_id)) == Err::<
                    Option<Seq<u8>>,
                    KVError,
                >(e),
            },
    {
        let own = match transaction_id {
            Some(transaction_id) => self.key_pointer_map.get(key, Some(transaction_id)),
            None => None,
        };
        let pointer = match own {
            Some(pointer) => Some(pointer),
            None => self.key_pointer_map.get(key, None),
        };
        let pointer = match pointer {
            Some(pointer) => pointer,
            None => {
                return Ok(None);
            },
        };
        let log = self.writer.as_slice();
        let instruction = match read_at(log, pointer) {
            Ok(instruction) => instruction,
            Err(e) => {
                return Err(KVError::InstructionError(e));
            },
        };
        match instruction {
            Instruction::SetOne { value, .. } => Ok(Some(value)),
            Instruction::TransactionalSet { value, .. } => Ok(Some(value)),
            Instruction::RemoveOne { .. } => Ok(None),
            Instruction::TransactionalRemoveOne { .. } => Ok(None),
            Instruction::RevertOne { key, height } => get_revert_value(log, &key, &height),
            Instruction::TransactionalRevertOne { key, height, .. } => get_revert_value(
                log,
                &key,
                &height,
            ),
            _ => Err(KVError::PointToUnexpectedInstruction),
        }
    }

    /// The keys that have a value for everybody, each once and with its
    /// value.
    pub fn get_all_current(&self) -> (result: KVResult<Vec<(KVKey, KVValue)>>)
        requires
            self.wf(),
        ensures
            match result {
                Ok(pairs) => {
                    &&& forall|i: int|
                        0 <= i < pairs@.len() ==> self.value((#[trigger] pairs@[i]).0@, None)
                            == Ok::<Option<Seq<u8>>, KVError>(Some(pairs@[i].1@))
                    &&& forall|key: Seq<u8>| #[trigger]
                        self.has_value(key) ==> exists|i: int|
                            0 <= i < pairs@.len() && (#[trigger] pairs@[i]).0@ == key
                    &&& forall|a: int, b: int|
                        0 <= a < b < pairs@.len() ==> (#[trigger] pairs@[a]).0@ != (
                        #[trigger] pairs@[b]).0@
                },
                Err(e) => exists|key: Seq<u8>|
                    #[trigger] self.value(key, None) == Err::<Option<Seq<u8>>, KVError>(e),
            },
    {
        let keys = self.key_pointer_map.committed_keys();
        let mut pairs: Vec<(KVKey, KVValue)> = Vec::new();
        let ghost mut from: Seq<int> = Seq::empty();
        let mut i: usize = 0;
        while i < keys.len()
            invariant
                i <= keys@.len(),
                from.len() == pairs@.len(),
                forall|k: int|
                    0 <= k < from.len() ==> 0 <= (#[trigger] from[k]) < i && pairs@[k].0@
                        == keys@[from[k]]@ && self.value(pairs@[k].0@, None) == Ok::<
                        Option<Seq<u8>>,
                        KVError,
                    >(Some(pairs@[k].1@)),
                forall|a: int, b: int| 0 <= a < b < from.len() ==> from[a] < from[b],
                forall|j: int|
                    0 <= j < i && self.has_value((#[trigger] keys@[j])@) ==> exists|k: int|
                        0 <= k < from.len() && #[trigger] from[k] == j,
            decreases keys.len() - i,
        {
            match self.get(&keys[i], None) {
                Ok(Some(value)) => {
                    let ghost before = from;
                    pairs.push((copy_bytes(keys[i].as_slice()), value));
                    proof {
                        from = from.push(i as int);
                        assert forall|j: int|
                            0 <= j < i + 1 && self.has_value(
                                (#[trigger] keys@[j])@,
                            ) implies exists|k: int|
                            0 <= k < from.len() && #[trigger] from[k] == j by {
                            if j < i {
                                let k = choose|k: int|
                                    0 <= k < before.len() && #[trigger] before[k] == j;
                                assert(from[k] == j);
                            } else {
                                assert(from[from.len() - 1] == j);
                            }
                        }
                    }
                },
                Ok(None) => {},
                Err(e) => {
                    assert(self.value(keys@[i as int]@, None) == Err::<Option<Seq<u8>>, KVError>(e));
                    return Err(e);
                },
            }
            i = i + 1;
        }
        proof {
            assert forall|key: Seq<u8>| #[trigger] self.has_value(key) implies exists|i: int|
                0 <= i < pairs@.len() && (#[trigger] pairs@[i]).0@ == key by {
                assert(self.index().contains_key((key, None)));
                let j = choose|j: int| 0 <= j < keys@.len() && (#[trigger] keys@[j])@ == key;
                let k = choose|k: int| 0 <= k < from.len() && #[trigger] from[k] == j;
                assert(pairs@[k].0@ == key);
            }
            assert forall|a: int, b: int| 0 <= a < b < pairs@.len() implies (
            #[trigger] pairs@[a]).0@ != (#[trigger] pairs@[b]).0@ by {
                assert(from[a] < from[b]);
                assert(keys@[from[a]]@ != keys@[from[b]]@);
            }
            assert forall|i: int| 0 <= i < pairs@.len() implies self.value(
                (#[trigger] pairs@[i]).0@,
                None,
            ) == Ok::<Option<Seq<u8>>, KVError>(Some(pairs@[i].1@)) by {
                assert(0 <= from[i]);
            }
        }
        Ok(pairs)
    }

    /// The instructions of the log, each with its height.
    pub fn inspect_all(&self) -> (result: KVResult<Vec<(Instruction, ChainHeight)>>)
        ensures
            result is Ok,
            inspection_view(result.unwrap()@) == spec_inspect_all(instructions_of(self.records())),
    {
        Ok(inspect(self.writer.as_slice(), None))
    }

    /// The history of `target_key`: the writes of the key that everybody
    /// sees, and every `RevertAll` and `RemoveAll` that comes after the first
    /// of them, each with its height.
    pub fn inspect_one(&self, target_key: &KVKey) -> (result: KVResult<
        Vec<(Instruction, ChainHeight)>,
    >)
        ensures
            result is Ok,
            inspection_view(result.unwrap()@) == spec_inspect_one(
                instructions_of(self.records()),
                target_key@,
                self.records().len(),
            ),
    {
        Ok(inspect(self.writer.as_slice(), Some(target_key)))
    }

    /// Sets every key back to the value it had once the instruction at
    /// `height` was in effect, and the live transactions back to those of
    /// that time. Going back to the current height changes nothing but the
    /// log.
    pub fn revert_all(&mut self, height: &ChainHeight) -> (result: KVResult<()>)
        requires
            old(self).wf(),
        ensures
            final(self).wf(),
            height@ > old(self).height() ==> result == Err::<(), KVError>(
                KVError::RevertOutOfRange,
            ) && *final(self) == *old(self),
            height@ <= old(self).height() ==> {
                &&& result is Ok
                &&& final(self).log() == old(self).log() + spec_serialize(
                    InstructionView::RevertAll { height: height@ },
                )
                &&& final(self).height() == old(self).height() + 1
                &&& final(self).state() == if height@ < old(self).height() {
                    spec_reverted(
                        old(self).state(),
                        state_after(old(self).records(), (height@ + 1) as nat),
                    )
                } else {
                    old(self).state()
                }
            },
    {
        if height.as_u64() > self.current_height.as_u64() {
            return Err(KVError::RevertOutOfRange);
        }
        proof {
            lemma_height_bound(self.log(), self.height(), self.state());
        }
        let past = if height.as_u64() < self.current_height.as_u64() {
            proof {
                lemma_wf_sound_before(self.log(), self.height(), self.state(), height@);
            }
            match replay(self.writer.as_slice(), Some(height)) {
                Ok(past) => Some(past),
                Err(e) => {
                    return Err(e);
                },
            }
        } else {
            None
        };
        let instruction = Instruction::RevertAll { height: *height };
        self.writer.append_instruction(&instruction);
        proof {
            lemma_append_revert_all(
                old(self).log(),
                old(self).height(),
                old(self).state(),
                height@,
            );
        }
        match past {
            Some(past) => {
                let counter = self.transaction_manager.current_transaction_id();
                self.key_pointer_map = past.key_pointer_map;
                self.transaction_manager = past.transaction_manager;
                self.transaction_manager.update_transaction_id(&counter);
            },
            None => {},
        }
        let _ = self.current_height.increment();
        Ok(())
    }

    /// Writes `value` under `key`: for everybody, or inside the transaction
    /// if one is given.
    pub fn set(&mut self, key: &KVKey, value: &KVValue, transaction_id: Option<TransactionId>) -> (result:
        KVResult<()>)
        requires
            old(self).wf(),
        ensures
            final(self).wf(),
            result == old(self).write_outcome(key@, None, slot_view(transaction_id)),
            result is Err ==> *final(self) == *old(self),
            result is Ok ==> final(self).follows(
                *old(self),
                spec_set_instruction(key@, value@, slot_view(transaction_id)),
            ),
    {
        if key.len() > MAX_KEY_LENGTH {
            return Err(KVError::InstructionError(InstructionError::KeyTooLong));
        }
        assert(value@.len() == value.len());
        let instruction = match transaction_id {
            Some(transaction_id) => {
                if !self.transaction_manager.is_live(&transaction_id) {
                    return Err(
                        KVError::TransactionManagerError(
                            TransactionManagerError::TransactionNotAlive,
                        ),
                    );
                }
                Instruction::TransactionalSet {
                    key: copy_bytes(key.as_slice()),
                    value: copy_bytes(value.as_slice()),
                    transaction_id,
                }
            },
            None => Instruction::SetOne {
                key: copy_bytes(key.as_slice()),
                value: copy_bytes(value.as_slice()),
            },
        };
        self.record(instruction);
        Ok(())
    }

    /// Removes `key`: for everybody, or inside the transaction if one is
    /// given. The index keeps a pointer to the removal, so that reads find
    /// the key absent.
    pub fn remove_one(&mut self, key: &KVKey, transaction_id: Option<TransactionId>) -> (result:
        KVResult<()>)
        requires
            old(self).wf(),
        ensures
            final(self).wf(),
            result == old(self).write_outcome(key@, None, slot_view(transaction_id)),
            result is Err ==> *final(self) == *old(self),
            result is Ok ==> final(self).follows(
                *old(self),
                spec_remove_instruction(key@, slot_view(transaction_id)),
            ),
    {
        if key.len() > MAX_KEY_LENGTH {
            return Err(KVError::InstructionError(InstructionError::KeyTooLong));
        }
        let instruction = match transaction_id {
            Some(transaction_id) => {
                if !self.transaction_manager.is_live(&transaction_id) {
                    return Err(
                        KVError::TransactionManagerError(
                            TransactionManagerError::TransactionNotAlive,
                        ),
                    );
                }
                Instruction::TransactionalRemoveOne {
                    key: copy_bytes(key.as_slice()),
                    transaction_id,
                }
            },
            None => Instruction::RemoveOne { key: copy_bytes(key.as_slice()) },
        };
        self.record(instruction);
        Ok(())
    }

    /// Removes every key for everybody. What live transactions have written
    /// stays in their slots.
    pub fn remove_all(&mut self) -> (result: KVResult<()>)
        requires
            old(self).wf(),
        ensures
            final(self).wf(),
            result is Ok,
            final(self).follows(*old(self), InstructionView::RemoveAll),
    {
        self.record(Instruction::RemoveAll);
        Ok(())
    }

    /// Sets `key` back to the value it had once the instruction at `height`
    /// was in effect: for everybody, or inside the transaction if one is
    /// given. The index keeps a pointer to the revert; the value is looked for
    /// when the key is read.
    pub fn revert_one(
        &mut self,
        key: &KVKey,
        height: &ChainHeight,
        transaction_id: Option<TransactionId>,
    ) -> (result: KVResult<()>)
        requires
            old(self).wf(),
        ensures
            final(self).wf(),
            result == old(self).write_outcome(key@, Some(height@), slot_view(transaction_id)),
            result is Err ==> *final(self) == *old(self),
            result is Ok ==> final(self).follows(
                *old(self),
                spec_revert_instruction(key@, height@, slot_view(transaction_id)),
            ),
    {
        if key.len() > MAX_KEY_LENGTH {
            return Err(KVError::InstructionError(InstructionError::KeyTooLong));
        }
        if height.as_u64() > self.current_height.as_u64() {
            return Err(KVError::RevertOutOfRange);
        }
        let instruction = match transaction_id {
            Some(transaction_id) => {
                if !self.transaction_manager.is_live(&transaction_id) {
                    return Err(
                        KVError::TransactionManagerError(
                            TransactionManagerError::TransactionNotAlive,
                        ),
                    );
                }
                Instruction::TransactionalRevertOne {
                    key: copy_bytes(key.as_slice()),
                    height: *height,
                    transaction_id,
                }
            },
            None => Instruction::RevertOne { key: copy_bytes(key.as_slice()), height: *height },
        };
        self.record(instruction);
        Ok(())
    }

    /// Starts a transaction, and returns its identifier: the one behind the
    /// highest that was handed out before.
    pub fn start_transaction(&mut self) -> (result: KVResult<TransactionId>)
        requires
            old(self).wf(),
        ensures
            final(self).wf(),
            old(self).transactions().counter >= MAX_TRANSACTION_ID ==> result == Err::<
                TransactionId,
                KVError,
            >(KVError::TransactionManagerError(TransactionManagerError::TransactionIdOutOfRange))
                && *final(self) == *old(self),
            old(self).transactions().counter < MAX_TRANSACTION_ID ==> result == Ok::<
                TransactionId,
                KVError,
            >(TransactionId((old(self).transactions().counter + 1) as u64)) && final(self).follows(
                *old(self),
                InstructionView::TransactionStart {
                    transaction_id: (old(self).transactions().counter + 1) as u64,
                },
            ),
    {
        let current = self.transaction_manager.current_transaction_id();
        if current.as_u64() >= MAX_TRANSACTION_ID {
            return Err(
                KVError::TransactionManagerError(TransactionManagerError::TransactionIdOutOfRange),
            );
        }
        let transaction_id = TransactionId::new(current.as_u64() + 1);
        self.record(Instruction::TransactionStart { transaction_id });
        Ok(transaction_id)
    }

    /// Commits a transaction: what it has written becomes what everybody
    /// sees, and the transaction is over.
    pub fn commit_transaction(&mut self, transaction_id: TransactionId) -> (result: KVResult<()>)
        requires
            old(self).wf(),
        ensures
            final(self).wf(),
            result == old(self).end_outcome(transaction_id@),
            result is Err ==> *final(self) == *old(self),
            result is Ok ==> final(self).follows(
                *old(self),
                InstructionView::TransactionCommit { transaction_id: transaction_id@ },
            ),
    {
        if !self.transaction_manager.is_live(&transaction_id) {
            return Err(
                KVError::TransactionManagerError(TransactionManagerError::TransactionNotAlive),
            );
        }
        self.record(Instruction::TransactionCommit { transaction_id });
        Ok(())
    }

    /// Aborts a transaction: what it has written is thrown away, and the
    /// transaction is over.
    pub fn abort_transaction(&mut self, transaction_id: TransactionId) -> (result: KVResult<()>)
        requires
            old(self).wf(),
        ensures
            final(self).wf(),
            result == old(self).end_outcome(transaction_id@),
            result is Err ==> *final(self) == *old(self),
            result is Ok ==> final(self).follows(
                *old(self),
                InstructionView::TransactionAbort { transaction_id: transaction_id@ },
            ),
    {
        if !self.transaction_manager.is_live(&transaction_id) {
            return Err(
                KVError::TransactionManagerError(TransactionManagerError::TransactionNotAlive),
            );
        }
        self.record(Instruction::TransactionAbort { transaction_id });
        Ok(())
    }
}

/// A path of the file system as the standard library holds it.
#[verifier::external_type_specification]
#[verifier::external_body]
pub struct ExPathBuf(std::path::PathBuf);

/// What `Path::join` of the standard library returns for a directory and a
/// name.
pub uninterp spec fn spec_path_join(dir: std::path::PathBuf, name: Seq<char>) -> std::path::PathBuf;

/// The path of the entry `name` of the directory `dir`.
///
/// This is `Path::join` of the standard library. It looks at the two paths
/// alone, not at the file system: the path it returns depends on the
/// directory and the name and on nothing else. Nothing more is said here
/// about that path.
#[verifier::external_body]
fn path_join(dir: &std::path::PathBuf, name: &str) -> (joined: std::path::PathBuf)
    ensures
        joined == spec_path_join(*dir, name@),
{
    dir.join(name)
}

/// The name of the log file: `LOG_FILE_NAME` with the ending `.log`.
pub open spec fn spec_log_file_name() -> Seq<char> {
    LOG_FILE_NAME@ + ".log"@
}

/// The path of the log file in the data directory `dir`: the path of the
/// entry of `dir` that is named `LOG_FILE_NAME` with the ending `.log`.
pub fn get_log_file_dir(dir: &std::path::PathBuf) -> (log_path: std::path::PathBuf)
    ensures
        log_path == spec_path_join(*dir, spec_log_file_name()),
{
    let log_file_name = String::from_str(LOG_FILE_NAME).concat(".log");
    path_join(dir, log_file_name.as_str())
}

} // verus!
