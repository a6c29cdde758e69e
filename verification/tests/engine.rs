use immuxsys::storage::chain_height::ChainHeight;
use immuxsys::storage::errors::KVError;
use immuxsys::storage::instruction::{Instruction, InstructionError};
use immuxsys::storage::kv::{
    get_revert_value, load_key_pointer_map, read_at, read_instructions, recursive_find,
    LogKeyValueStore,
};
use immuxsys::storage::log_pointer::LogPointer;
use immuxsys::storage::transaction_manager::{TransactionId, TransactionManagerError};

fn key(text: &str) -> Vec<u8> {
    text.as_bytes().to_vec()
}

fn fresh() -> LogKeyValueStore {
    LogKeyValueStore::open(Vec::new()).unwrap()
}

fn not_live<T>() -> Result<T, KVError> {
    Err(KVError::TransactionManagerError(TransactionManagerError::TransactionNotAlive))
}

#[test]
fn basic_set_get() {
    let mut engine = fresh();
    assert_eq!(engine.set(&key("a"), &key("1"), None), Ok(()));
    assert_eq!(engine.get(&key("a"), None), Ok(Some(key("1"))));
    assert_eq!(engine.get(&key("b"), None), Ok(None));
    assert_eq!(engine.current_height().as_u64(), 1);
}

#[test]
fn overwrite_and_history() {
    let mut engine = fresh();
    engine.set(&key("a"), &key("1"), None).unwrap();
    engine.set(&key("a"), &key("2"), None).unwrap();
    assert_eq!(engine.get(&key("a"), None), Ok(Some(key("2"))));
    assert_eq!(engine.revert_one(&key("a"), &ChainHeight::new(0), None), Ok(()));
    assert_eq!(engine.get(&key("a"), None), Ok(Some(key("1"))));
    assert_eq!(engine.current_height().as_u64(), 3);
}

#[test]
fn remove_and_set_again() {
    let mut engine = fresh();
    engine.set(&key("a"), &key("1"), None).unwrap();
    assert_eq!(engine.remove_one(&key("a"), None), Ok(()));
    assert_eq!(engine.get(&key("a"), None), Ok(None));
    engine.set(&key("a"), &key("3"), None).unwrap();
    assert_eq!(engine.get(&key("a"), None), Ok(Some(key("3"))));
}

#[test]
fn transaction_isolation_and_commit() {
    let mut engine = fresh();
    engine.set(&key("a"), &key("1"), None).unwrap();
    assert_eq!(engine.current_height().as_u64(), 1);
    let t = engine.start_transaction().unwrap();
    assert_eq!(t, TransactionId::new(1));
    assert_eq!(engine.current_height().as_u64(), 2);
    engine.set(&key("a"), &key("2"), Some(t)).unwrap();
    assert_eq!(engine.current_height().as_u64(), 3);
    assert_eq!(engine.get(&key("a"), None), Ok(Some(key("1"))));
    assert_eq!(engine.get(&key("a"), Some(t)), Ok(Some(key("2"))));
    assert_eq!(engine.commit_transaction(t), Ok(()));
    assert_eq!(engine.current_height().as_u64(), 4);
    assert_eq!(engine.get(&key("a"), None), Ok(Some(key("2"))));
    assert_eq!(engine.commit_transaction(t), not_live());
}

#[test]
fn transaction_abort() {
    let mut engine = fresh();
    engine.set(&key("a"), &key("1"), None).unwrap();
    let t = engine.start_transaction().unwrap();
    engine.set(&key("a"), &key("2"), Some(t)).unwrap();
    assert_eq!(engine.get(&key("a"), None), Ok(Some(key("1"))));
    assert_eq!(engine.get(&key("a"), Some(t)), Ok(Some(key("2"))));
    assert_eq!(engine.abort_transaction(t), Ok(()));
    assert_eq!(engine.get(&key("a"), None), Ok(Some(key("1"))));
    assert_eq!(engine.get(&key("a"), Some(t)), Ok(Some(key("1"))));
    assert_eq!(engine.abort_transaction(t), not_live());
}

#[test]
fn revert_all_rewinds_transactions() {
    let mut engine = fresh();
    engine.set(&key("a"), &key("1"), None).unwrap();
    let t = engine.start_transaction().unwrap();
    engine.set(&key("a"), &key("X"), Some(t)).unwrap();
    assert_eq!(engine.revert_all(&ChainHeight::new(0)), Ok(()));
    assert_eq!(engine.get(&key("a"), None), Ok(Some(key("1"))));
    assert_eq!(engine.commit_transaction(t), not_live());
    assert_eq!(engine.get(&key("a"), Some(t)), Ok(Some(key("1"))));
}

#[test]
fn recovery_after_close() {
    let mut engine = fresh();
    engine.set(&key("a"), &key("1"), None).unwrap();
    engine.set(&key("a"), &key("2"), None).unwrap();
    engine.revert_one(&key("a"), &ChainHeight::new(0), None).unwrap();
    let log = engine.log_bytes().to_vec();
    drop(engine);
    let reopened = LogKeyValueStore::open(log.clone()).unwrap();
    assert_eq!(reopened.get(&key("a"), None), Ok(Some(key("1"))));
    assert_eq!(reopened.current_height().as_u64(), 3);
    assert_eq!(reopened.log_bytes(), log.as_slice());
}

#[test]
fn height_counts_instructions() {
    let mut engine = fresh();
    assert_eq!(engine.current_height().as_u64(), 0);
    engine.set(&key("a"), &key("1"), None).unwrap();
    engine.remove_one(&key("b"), None).unwrap();
    engine.remove_all().unwrap();
    let t = engine.start_transaction().unwrap();
    engine.remove_one(&key("a"), Some(t)).unwrap();
    engine.revert_one(&key("a"), &ChainHeight::new(2), Some(t)).unwrap();
    engine.abort_transaction(t).unwrap();
    engine.revert_all(&ChainHeight::new(1)).unwrap();
    assert_eq!(engine.current_height().as_u64(), 8);
    assert_eq!(engine.inspect_all().unwrap().len(), 8);
}

#[test]
fn log_holds_the_instructions() {
    let mut engine = fresh();
    engine.set(&key("a"), &key("1"), None).unwrap();
    let t = engine.start_transaction().unwrap();
    engine.set(&key("a"), &key("2"), Some(t)).unwrap();
    let mut expected = Vec::new();
    expected.extend_from_slice(&[0x00, 0x01, 0x61, 0x01, 0x31]);
    expected.extend_from_slice(&[0x10, 0x01]);
    expected.extend_from_slice(&[0x11, 0x01, 0x61, 0x01, 0x32, 0x01]);
    assert_eq!(engine.log_bytes(), expected.as_slice());
}

#[test]
fn key_length_guard() {
    let mut engine = fresh();
    let long = vec![0u8; 4097];
    let too_long = Err(KVError::InstructionError(InstructionError::KeyTooLong));
    assert_eq!(engine.set(&long, &key("1"), None), too_long);
    assert_eq!(engine.remove_one(&long, None), too_long);
    assert_eq!(engine.revert_one(&long, &ChainHeight::new(0), None), too_long);
    assert_eq!(engine.revert_one(&long, &ChainHeight::new(9), Some(TransactionId::new(4))), too_long);
    assert_eq!(engine.log_bytes().len(), 0);
    assert_eq!(engine.current_height().as_u64(), 0);
    let longest = vec![0u8; 4096];
    assert_eq!(engine.set(&longest, &key("1"), None), Ok(()));
    assert_eq!(engine.get(&longest, None), Ok(Some(key("1"))));
}

#[test]
fn out_of_range_revert() {
    let mut engine = fresh();
    engine.set(&key("a"), &key("1"), None).unwrap();
    let before = engine.log_bytes().to_vec();
    assert_eq!(engine.revert_one(&key("a"), &ChainHeight::new(2), None), Err(KVError::RevertOutOfRange));
    assert_eq!(engine.revert_all(&ChainHeight::new(2)), Err(KVError::RevertOutOfRange));
    assert_eq!(engine.log_bytes(), before.as_slice());
    assert_eq!(engine.current_height().as_u64(), 1);
    assert_eq!(engine.get(&key("a"), None), Ok(Some(key("1"))));
}

#[test]
fn revert_to_the_current_height_changes_no_value() {
    let mut engine = fresh();
    engine.set(&key("a"), &key("1"), None).unwrap();
    assert_eq!(engine.revert_one(&key("a"), &ChainHeight::new(1), None), Ok(()));
    assert_eq!(engine.get(&key("a"), None), Ok(Some(key("1"))));
    assert_eq!(engine.revert_all(&ChainHeight::new(2)), Ok(()));
    assert_eq!(engine.get(&key("a"), None), Ok(Some(key("1"))));
    assert_eq!(engine.current_height().as_u64(), 3);
    let reopened = LogKeyValueStore::open(engine.log_bytes().to_vec()).unwrap();
    assert_eq!(reopened.get(&key("a"), None), Ok(Some(key("1"))));
}

#[test]
fn transaction_not_live() {
    let mut engine = fresh();
    let ghost = TransactionId::new(3);
    assert_eq!(engine.set(&key("a"), &key("1"), Some(ghost)), not_live());
    assert_eq!(engine.remove_one(&key("a"), Some(ghost)), not_live());
    assert_eq!(engine.revert_one(&key("a"), &ChainHeight::new(0), Some(ghost)), not_live());
    assert_eq!(engine.commit_transaction(ghost), not_live());
    assert_eq!(engine.abort_transaction(ghost), not_live());
    assert_eq!(engine.log_bytes().len(), 0);
}

#[test]
fn transaction_reads_fall_through() {
    let mut engine = fresh();
    engine.set(&key("a"), &key("1"), None).unwrap();
    let t = engine.start_transaction().unwrap();
    assert_eq!(engine.get(&key("a"), Some(t)), Ok(Some(key("1"))));
    engine.set(&key("a"), &key("2"), None).unwrap();
    assert_eq!(engine.get(&key("a"), Some(t)), Ok(Some(key("2"))));
    engine.remove_one(&key("a"), Some(t)).unwrap();
    assert_eq!(engine.get(&key("a"), Some(t)), Ok(None));
    assert_eq!(engine.get(&key("a"), None), Ok(Some(key("2"))));
    engine.commit_transaction(t).unwrap();
    assert_eq!(engine.get(&key("a"), None), Ok(None));
}

#[test]
fn two_transactions_do_not_see_each_other() {
    let mut engine = fresh();
    let first = engine.start_transaction().unwrap();
    let second = engine.start_transaction().unwrap();
    assert_eq!(first, TransactionId::new(1));
    assert_eq!(second, TransactionId::new(2));
    engine.set(&key("k"), &key("one"), Some(first)).unwrap();
    engine.set(&key("k"), &key("two"), Some(second)).unwrap();
    assert_eq!(engine.get(&key("k"), Some(first)), Ok(Some(key("one"))));
    assert_eq!(engine.get(&key("k"), Some(second)), Ok(Some(key("two"))));
    assert_eq!(engine.get(&key("k"), None), Ok(None));
    engine.commit_transaction(second).unwrap();
    assert_eq!(engine.get(&key("k"), None), Ok(Some(key("two"))));
    assert_eq!(engine.get(&key("k"), Some(first)), Ok(Some(key("one"))));
    engine.commit_transaction(first).unwrap();
    assert_eq!(engine.get(&key("k"), None), Ok(Some(key("one"))));
}

#[test]
fn commit_takes_the_last_write_of_each_key() {
    let mut engine = fresh();
    let t = engine.start_transaction().unwrap();
    engine.set(&key("a"), &key("1"), Some(t)).unwrap();
    engine.set(&key("b"), &key("2"), Some(t)).unwrap();
    engine.set(&key("a"), &key("3"), Some(t)).unwrap();
    engine.commit_transaction(t).unwrap();
    assert_eq!(engine.get(&key("a"), None), Ok(Some(key("3"))));
    assert_eq!(engine.get(&key("b"), None), Ok(Some(key("2"))));
}

#[test]
fn remove_all_leaves_transactions_alone() {
    let mut engine = fresh();
    engine.set(&key("a"), &key("1"), None).unwrap();
    engine.set(&key("b"), &key("2"), None).unwrap();
    let t = engine.start_transaction().unwrap();
    engine.set(&key("a"), &key("9"), Some(t)).unwrap();
    assert_eq!(engine.remove_all(), Ok(()));
    assert_eq!(engine.get(&key("a"), None), Ok(None));
    assert_eq!(engine.get(&key("b"), None), Ok(None));
    assert_eq!(engine.get(&key("a"), Some(t)), Ok(Some(key("9"))));
    assert_eq!(engine.get(&key("b"), Some(t)), Ok(None));
    engine.commit_transaction(t).unwrap();
    assert_eq!(engine.get(&key("a"), None), Ok(Some(key("9"))));
}

#[test]
fn revert_all_twice_is_revert_all_once() {
    let mut once = fresh();
    let mut twice = fresh();
    for engine in [&mut once, &mut twice] {
        engine.set(&key("a"), &key("1"), None).unwrap();
        engine.set(&key("b"), &key("2"), None).unwrap();
        engine.set(&key("a"), &key("3"), None).unwrap();
        engine.remove_one(&key("b"), None).unwrap();
    }
    once.revert_all(&ChainHeight::new(1)).unwrap();
    twice.revert_all(&ChainHeight::new(1)).unwrap();
    twice.revert_all(&ChainHeight::new(1)).unwrap();
    for name in ["a", "b", "c"] {
        assert_eq!(once.get(&key(name), None), twice.get(&key(name), None));
    }
    assert_eq!(twice.get(&key("a"), None), Ok(Some(key("1"))));
    assert_eq!(twice.get(&key("b"), None), Ok(Some(key("2"))));
}

#[test]
fn revert_all_brings_back_earlier_transactions() {
    let mut engine = fresh();
    let t = engine.start_transaction().unwrap();
    engine.set(&key("a"), &key("1"), Some(t)).unwrap();
    engine.set(&key("a"), &key("2"), Some(t)).unwrap();
    engine.commit_transaction(t).unwrap();
    assert_eq!(engine.get(&key("a"), None), Ok(Some(key("2"))));
    engine.revert_all(&ChainHeight::new(1)).unwrap();
    assert_eq!(engine.get(&key("a"), None), Ok(None));
    assert_eq!(engine.get(&key("a"), Some(t)), Ok(Some(key("1"))));
    let next = engine.start_transaction().unwrap();
    assert_eq!(next, TransactionId::new(2));
}

#[test]
fn revert_one_resolves_through_reverts() {
    let mut engine = fresh();
    engine.set(&key("a"), &key("1"), None).unwrap();
    engine.set(&key("a"), &key("2"), None).unwrap();
    engine.revert_one(&key("a"), &ChainHeight::new(0), None).unwrap();
    engine.set(&key("a"), &key("4"), None).unwrap();
    engine.revert_one(&key("a"), &ChainHeight::new(2), None).unwrap();
    assert_eq!(engine.get(&key("a"), None), Ok(Some(key("1"))));
    engine.revert_one(&key("a"), &ChainHeight::new(3), None).unwrap();
    assert_eq!(engine.get(&key("a"), None), Ok(Some(key("4"))));
    engine.revert_one(&key("b"), &ChainHeight::new(3), None).unwrap();
    assert_eq!(engine.get(&key("b"), None), Ok(None));
}

#[test]
fn resolver_matches_reads_at_every_height() {
    let mut engine = fresh();
    let mut seen = Vec::new();
    engine.set(&key("a"), &key("1"), None).unwrap();
    seen.push(engine.get(&key("a"), None).unwrap());
    engine.set(&key("b"), &key("x"), None).unwrap();
    seen.push(engine.get(&key("a"), None).unwrap());
    engine.remove_one(&key("a"), None).unwrap();
    seen.push(engine.get(&key("a"), None).unwrap());
    engine.set(&key("a"), &key("2"), None).unwrap();
    seen.push(engine.get(&key("a"), None).unwrap());
    engine.revert_one(&key("a"), &ChainHeight::new(0), None).unwrap();
    seen.push(engine.get(&key("a"), None).unwrap());
    engine.remove_all().unwrap();
    seen.push(engine.get(&key("a"), None).unwrap());
    engine.revert_all(&ChainHeight::new(3)).unwrap();
    seen.push(engine.get(&key("a"), None).unwrap());
    let instructions: Vec<Instruction> =
        engine.inspect_all().unwrap().into_iter().map(|(instruction, _)| instruction).collect();
    for height in 0..seen.len() {
        let found = recursive_find(&key("a"), &instructions, &ChainHeight::new(height as u64));
        assert_eq!(found, Ok(seen[height].clone()));
    }
    assert_eq!(
        seen,
        vec![Some(key("1")), Some(key("1")), None, Some(key("2")), Some(key("1")), None, Some(key("2"))]
    );
}

#[test]
fn recursive_find_edges() {
    let instructions = vec![
        Instruction::SetOne { key: key("a"), value: key("1") },
        Instruction::TransactionalSet {
            key: key("a"),
            value: key("9"),
            transaction_id: TransactionId::new(1),
        },
        Instruction::RevertOne { key: key("a"), height: ChainHeight::new(2) },
        Instruction::RevertAll { height: ChainHeight::new(7) },
    ];
    assert_eq!(recursive_find(&key("a"), &instructions, &ChainHeight::new(1)), Ok(Some(key("1"))));
    assert_eq!(recursive_find(&key("a"), &instructions, &ChainHeight::new(2)), Ok(Some(key("1"))));
    assert_eq!(recursive_find(&key("a"), &instructions, &ChainHeight::new(3)), Ok(Some(key("1"))));
    assert_eq!(recursive_find(&key("a"), &instructions, &ChainHeight::new(4)), Ok(None));
    assert_eq!(recursive_find(&key("b"), &instructions, &ChainHeight::new(3)), Ok(None));
    assert_eq!(recursive_find(&key("a"), &Vec::new(), &ChainHeight::new(0)), Ok(None));
}

#[test]
fn inspect_all_lists_the_log() {
    let mut engine = fresh();
    engine.set(&key("a"), &key("1"), None).unwrap();
    engine.remove_all().unwrap();
    engine.revert_all(&ChainHeight::new(0)).unwrap();
    assert_eq!(
        engine.inspect_all(),
        Ok(vec![
            (Instruction::SetOne { key: key("a"), value: key("1") }, ChainHeight::new(0)),
            (Instruction::RemoveAll, ChainHeight::new(1)),
            (Instruction::RevertAll { height: ChainHeight::new(0) }, ChainHeight::new(2)),
        ])
    );
}

#[test]
fn inspect_one_follows_a_key() {
    let mut engine = fresh();
    engine.remove_all().unwrap();
    engine.set(&key("b"), &key("0"), None).unwrap();
    engine.set(&key("a"), &key("1"), None).unwrap();
    engine.remove_all().unwrap();
    let t = engine.start_transaction().unwrap();
    engine.set(&key("a"), &key("5"), Some(t)).unwrap();
    engine.commit_transaction(t).unwrap();
    engine.revert_one(&key("a"), &ChainHeight::new(2), None).unwrap();
    engine.revert_all(&ChainHeight::new(1)).unwrap();
    engine.remove_one(&key("a"), None).unwrap();
    assert_eq!(
        engine.inspect_one(&key("a")),
        Ok(vec![
            (Instruction::SetOne { key: key("a"), value: key("1") }, ChainHeight::new(2)),
            (Instruction::RemoveAll, ChainHeight::new(3)),
            (Instruction::RevertOne { key: key("a"), height: ChainHeight::new(2) }, ChainHeight::new(7)),
            (Instruction::RevertAll { height: ChainHeight::new(1) }, ChainHeight::new(8)),
            (Instruction::RemoveOne { key: key("a") }, ChainHeight::new(9)),
        ])
    );
    assert_eq!(engine.inspect_one(&key("never")), Ok(vec![]));
}

#[test]
fn recovery_agrees_with_the_live_engine() {
    let mut engine = fresh();
    engine.set(&key("a"), &key("1"), None).unwrap();
    engine.set(&key("b"), &key("2"), None).unwrap();
    let t = engine.start_transaction().unwrap();
    engine.set(&key("a"), &key("3"), Some(t)).unwrap();
    engine.remove_one(&key("b"), Some(t)).unwrap();
    let u = engine.start_transaction().unwrap();
    engine.set(&key("c"), &key("4"), Some(u)).unwrap();
    engine.commit_transaction(t).unwrap();
    engine.revert_one(&key("b"), &ChainHeight::new(1), None).unwrap();
    engine.revert_all(&ChainHeight::new(5)).unwrap();
    engine.set(&key("d"), &key("5"), Some(u)).unwrap();
    engine.remove_all().unwrap();
    engine.set(&key("e"), &key("6"), None).unwrap();
    let reopened = LogKeyValueStore::open(engine.log_bytes().to_vec()).unwrap();
    assert_eq!(reopened.current_height(), engine.current_height());
    for name in ["a", "b", "c", "d", "e", "f"] {
        for id in [None, Some(t), Some(u)] {
            assert_eq!(reopened.get(&key(name), id), engine.get(&key(name), id));
        }
    }
    assert_eq!(engine.get(&key("e"), None), Ok(Some(key("6"))));
    assert_eq!(engine.get(&key("d"), Some(u)), Ok(Some(key("5"))));
    assert_eq!(engine.get(&key("a"), Some(t)), Ok(Some(key("3"))));
}

#[test]
fn open_drops_a_torn_tail() {
    let mut engine = fresh();
    engine.set(&key("a"), &key("1"), None).unwrap();
    engine.set(&key("a"), &key("2"), None).unwrap();
    let whole = engine.log_bytes().to_vec();
    let mut torn = whole.clone();
    let next = Instruction::SetOne { key: key("a"), value: key("3") }.serialize();
    torn.extend_from_slice(&next[..next.len() - 1]);
    let mut reopened = LogKeyValueStore::open(torn).unwrap();
    assert_eq!(reopened.log_bytes(), whole.as_slice());
    assert_eq!(reopened.current_height().as_u64(), 2);
    assert_eq!(reopened.get(&key("a"), None), Ok(Some(key("2"))));
    reopened.set(&key("a"), &key("4"), None).unwrap();
    let again = LogKeyValueStore::open(reopened.log_bytes().to_vec()).unwrap();
    assert_eq!(again.get(&key("a"), None), Ok(Some(key("4"))));
    assert_eq!(again.current_height().as_u64(), 3);
}

#[test]
fn open_refuses_a_corrupt_log() {
    let mut bytes = Instruction::SetOne { key: key("a"), value: key("1") }.serialize();
    bytes.extend_from_slice(&[0xff, 0x00, 0xfa]);
    assert!(matches!(LogKeyValueStore::open(bytes), Err(KVError::CorruptLog)));
    let revert_ahead = Instruction::RevertAll { height: ChainHeight::new(1) }.serialize();
    assert!(matches!(LogKeyValueStore::open(revert_ahead), Err(KVError::CorruptLog)));
    let stray = Instruction::TransactionCommit { transaction_id: TransactionId::new(1) }.serialize();
    assert!(matches!(LogKeyValueStore::open(stray), Err(KVError::CorruptLog)));
    let mut twice = Instruction::TransactionStart { transaction_id: TransactionId::new(1) }.serialize();
    twice.extend_from_slice(&twice.clone());
    assert!(matches!(LogKeyValueStore::open(twice), Err(KVError::CorruptLog)));
}

#[test]
fn load_up_to_a_height() {
    let mut engine = fresh();
    engine.set(&key("a"), &key("1"), None).unwrap();
    engine.set(&key("b"), &key("2"), None).unwrap();
    engine.set(&key("a"), &key("3"), None).unwrap();
    let log = engine.log_bytes().to_vec();
    let (index, height, _) = load_key_pointer_map(&log, Some(&ChainHeight::new(1))).unwrap();
    assert_eq!(height, ChainHeight::new(2));
    assert_eq!(index.get(&key("a"), None), Some(LogPointer::new(0, 5)));
    assert_eq!(index.get(&key("b"), None), Some(LogPointer::new(5, 5)));
    let (index, height, manager) = load_key_pointer_map(&log, None).unwrap();
    assert_eq!(height, ChainHeight::new(3));
    assert_eq!(index.get(&key("a"), None), Some(LogPointer::new(10, 5)));
    assert_eq!(manager.current_transaction_id(), TransactionId::new(0));
}

#[test]
fn all_current_values() {
    let mut engine = fresh();
    assert_eq!(engine.get_all_current(), Ok(vec![]));
    engine.set(&key("a"), &key("1"), None).unwrap();
    engine.set(&key("b"), &key("2"), None).unwrap();
    engine.set(&key("a"), &key("3"), None).unwrap();
    engine.remove_one(&key("b"), None).unwrap();
    engine.set(&key("c"), &key("4"), None).unwrap();
    engine.revert_one(&key("c"), &ChainHeight::new(1), None).unwrap();
    let t = engine.start_transaction().unwrap();
    engine.set(&key("d"), &key("5"), Some(t)).unwrap();
    let mut all = engine.get_all_current().unwrap();
    all.sort();
    assert_eq!(all, vec![(key("a"), key("3"))]);
    engine.commit_transaction(t).unwrap();
    let mut all = engine.get_all_current().unwrap();
    all.sort();
    assert_eq!(all, vec![(key("a"), key("3")), (key("d"), key("5"))]);
    engine.remove_all().unwrap();
    assert_eq!(engine.get_all_current(), Ok(vec![]));
}

#[test]
fn load_refuses_what_the_engine_does_not_write() {
    let orphan = Instruction::TransactionalSet {
        key: key("a"),
        value: key("1"),
        transaction_id: TransactionId::new(1),
    }
    .serialize();
    assert!(matches!(load_key_pointer_map(&orphan, None), Err(KVError::CorruptLog)));
    let mut skipped = Instruction::SetOne { key: key("a"), value: key("1") }.serialize();
    skipped.extend_from_slice(
        &Instruction::TransactionStart { transaction_id: TransactionId::new(2) }.serialize(),
    );
    assert!(matches!(load_key_pointer_map(&skipped, None), Err(KVError::CorruptLog)));
    assert!(load_key_pointer_map(&skipped, Some(&ChainHeight::new(0))).is_ok());
    let far = Instruction::RevertOne { key: key("a"), height: ChainHeight::new(1) }.serialize();
    assert!(matches!(load_key_pointer_map(&far, None), Err(KVError::CorruptLog)));
    let too_high =
        Instruction::TransactionStart { transaction_id: TransactionId::new(1 << 63) }.serialize();
    assert!(matches!(load_key_pointer_map(&too_high, None), Err(KVError::CorruptLog)));
}

#[test]
fn load_follows_reverts_in_the_log() {
    let mut engine = fresh();
    engine.set(&key("a"), &key("1"), None).unwrap();
    engine.set(&key("a"), &key("2"), None).unwrap();
    engine.set(&key("b"), &key("3"), None).unwrap();
    engine.revert_all(&ChainHeight::new(0)).unwrap();
    engine.set(&key("c"), &key("4"), None).unwrap();
    engine.revert_all(&ChainHeight::new(3)).unwrap();
    let log = engine.log_bytes().to_vec();
    let (index, height, _) = load_key_pointer_map(&log, None).unwrap();
    assert_eq!(height, ChainHeight::new(6));
    assert_eq!(index.get(&key("a"), None), Some(LogPointer::new(0, 5)));
    assert_eq!(index.get(&key("b"), None), None);
    assert_eq!(index.get(&key("c"), None), None);
    assert_eq!(engine.get(&key("a"), None), Ok(Some(key("1"))));
    assert_eq!(engine.get(&key("c"), None), Ok(None));
}

#[test]
fn reading_at_pointers() {
    let first = Instruction::SetOne { key: key("a"), value: key("1") };
    let second = Instruction::RemoveAll;
    let mut log = first.serialize();
    log.extend_from_slice(&second.serialize());
    assert_eq!(read_at(&log, LogPointer::new(0, 5)), Ok(first.clone()));
    assert_eq!(read_at(&log, LogPointer::new(5, 1)), Ok(second.clone()));
    assert_eq!(read_at(&log, LogPointer::new(0, 4)), Err(InstructionError::Truncated));
    assert_eq!(read_at(&log, LogPointer::new(3, 4)), Err(InstructionError::Truncated));
    assert_eq!(read_at(&log, LogPointer::new(7, 0)), Err(InstructionError::Truncated));
    assert_eq!(read_at(&log, LogPointer::new(2, 1)), Err(InstructionError::UnknownTag));
    assert_eq!(read_instructions(&log), vec![first, second]);
    assert_eq!(get_revert_value(&log, &key("a"), &ChainHeight::new(0)), Ok(Some(key("1"))));
    assert_eq!(get_revert_value(&log, &key("a"), &ChainHeight::new(1)), Ok(None));
    assert_eq!(get_revert_value(&log, &key("a"), &ChainHeight::new(2)), Ok(None));
}

#[test]
fn identifiers_never_go_back() {
    let mut engine = fresh();
    let first = engine.start_transaction().unwrap();
    engine.abort_transaction(first).unwrap();
    let second = engine.start_transaction().unwrap();
    engine.revert_all(&ChainHeight::new(0)).unwrap();
    let third = engine.start_transaction().unwrap();
    assert_eq!(
        vec![first, second, third],
        vec![TransactionId::new(1), TransactionId::new(2), TransactionId::new(3)]
    );
    assert_eq!(engine.commit_transaction(second), not_live());
    assert_eq!(engine.commit_transaction(first), Ok(()));
    let reopened = LogKeyValueStore::open(engine.log_bytes().to_vec()).unwrap();
    assert_eq!(reopened.current_height().as_u64(), 6);
}
