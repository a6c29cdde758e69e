use immuxsys::storage::key_pointer_map::KeyPointerMap;
use immuxsys::storage::kv::{
    update_aborted_log_pointers, update_committed_log_pointers, update_key_pointer_map,
};
use immuxsys::storage::log_pointer::LogPointer;
use immuxsys::storage::log_writer::LogWriter;
use immuxsys::storage::instruction::Instruction;
use immuxsys::storage::transaction_manager::{
    TransactionId, TransactionManager, TransactionManagerError, TransactionMetaData,
};

fn key(text: &str) -> Vec<u8> {
    text.as_bytes().to_vec()
}

#[test]
fn manager_hands_out_identifiers_in_order() {
    let mut manager = TransactionManager::new();
    assert_eq!(manager.current_transaction_id(), TransactionId::new(0));
    assert_eq!(manager.generate_new_transaction_id(), Ok(TransactionId::new(1)));
    assert_eq!(manager.generate_new_transaction_id(), Ok(TransactionId::new(2)));
    assert_eq!(manager.current_transaction_id(), TransactionId::new(2));
    assert!(!manager.is_live(&TransactionId::new(1)));
}

#[test]
fn manager_stops_at_the_largest_identifier() {
    let mut manager = TransactionManager::new();
    manager.update_transaction_id(&TransactionId::new((1 << 63) - 1));
    assert_eq!(
        manager.generate_new_transaction_id(),
        Err(TransactionManagerError::TransactionIdOutOfRange)
    );
    assert_eq!(manager.current_transaction_id(), TransactionId::new((1 << 63) - 1));
}

#[test]
fn manager_raises_but_never_lowers() {
    let mut manager = TransactionManager::new();
    manager.update_transaction_id(&TransactionId::new(9));
    manager.update_transaction_id(&TransactionId::new(4));
    assert_eq!(manager.current_transaction_id(), TransactionId::new(9));
}

#[test]
fn manager_keeps_affected_keys_in_write_order() {
    let mut manager = TransactionManager::new();
    let id = TransactionId::new(1);
    assert_eq!(manager.validate_transaction_id(&id), Err(TransactionManagerError::TransactionNotAlive));
    assert_eq!(
        manager.add_affected_keys(&id, &key("a")),
        Err(TransactionManagerError::TransactionNotAlive)
    );
    assert_eq!(manager.get_affected_keys(&id), Vec::<Vec<u8>>::new());
    assert!(manager.get_transaction_meta_data(&id).is_err());
    manager.initialize_transaction(&id);
    assert_eq!(manager.validate_transaction_id(&id), Ok(()));
    assert_eq!(manager.add_affected_keys(&id, &key("b")), Ok(()));
    assert_eq!(manager.add_affected_keys(&id, &key("a")), Ok(()));
    assert_eq!(manager.add_affected_keys(&id, &key("b")), Ok(()));
    assert_eq!(manager.get_affected_keys(&id), vec![key("b"), key("a"), key("b")]);
    let meta = manager.get_transaction_meta_data(&id).unwrap();
    assert_eq!(meta.affected_keys, vec![key("b"), key("a"), key("b")]);
    manager.remove_transaction(&id);
    assert_eq!(manager.validate_transaction_id(&id), Err(TransactionManagerError::TransactionNotAlive));
    assert_eq!(manager.get_affected_keys(&id), Vec::<Vec<u8>>::new());
}

#[test]
fn meta_data_holds_what_it_is_given() {
    let meta = TransactionMetaData::new(vec![key("x")]);
    assert_eq!(meta.affected_keys, vec![key("x")]);
}

#[test]
fn index_keeps_one_pointer_per_slot() {
    let mut index = KeyPointerMap::new();
    let t = TransactionId::new(3);
    assert_eq!(index.get(&key("a"), None), None);
    index.insert(&key("a"), None, LogPointer::new(0, 5));
    index.insert(&key("a"), Some(t), LogPointer::new(5, 6));
    index.insert(&key("a"), None, LogPointer::new(11, 5));
    assert_eq!(index.get(&key("a"), None), Some(LogPointer::new(11, 5)));
    assert_eq!(index.get(&key("a"), Some(t)), Some(LogPointer::new(5, 6)));
    assert_eq!(index.get(&key("a"), Some(TransactionId::new(4))), None);
    index.remove(&key("a"), None);
    assert_eq!(index.get(&key("a"), None), None);
    assert_eq!(index.get(&key("a"), Some(t)), Some(LogPointer::new(5, 6)));
    index.insert(&key("b"), None, LogPointer::new(16, 5));
    index.remove_committed();
    assert_eq!(index.get(&key("b"), None), None);
    assert_eq!(index.get(&key("a"), Some(t)), Some(LogPointer::new(5, 6)));
}

#[test]
fn commit_moves_pointers_and_abort_drops_them() {
    let mut index = KeyPointerMap::new();
    let mut manager = TransactionManager::new();
    let t = TransactionId::new(1);
    let u = TransactionId::new(2);
    manager.initialize_transaction(&t);
    manager.initialize_transaction(&u);
    update_key_pointer_map(&key("a"), &LogPointer::new(0, 1), &mut index, None);
    update_key_pointer_map(&key("a"), &LogPointer::new(1, 1), &mut index, Some(t));
    update_key_pointer_map(&key("b"), &LogPointer::new(2, 1), &mut index, Some(t));
    update_key_pointer_map(&key("c"), &LogPointer::new(3, 1), &mut index, Some(t));
    update_key_pointer_map(&key("a"), &LogPointer::new(4, 1), &mut index, Some(u));
    manager.add_affected_keys(&t, &key("a")).unwrap();
    manager.add_affected_keys(&t, &key("b")).unwrap();
    manager.add_affected_keys(&t, &key("a")).unwrap();
    manager.add_affected_keys(&u, &key("a")).unwrap();
    update_committed_log_pointers(&mut manager, &mut index, t);
    assert_eq!(index.get(&key("a"), None), Some(LogPointer::new(1, 1)));
    assert_eq!(index.get(&key("b"), None), Some(LogPointer::new(2, 1)));
    assert_eq!(index.get(&key("a"), Some(t)), None);
    assert_eq!(index.get(&key("b"), Some(t)), None);
    assert_eq!(index.get(&key("c"), Some(t)), Some(LogPointer::new(3, 1)));
    assert_eq!(index.get(&key("c"), None), None);
    assert!(!manager.is_live(&t));
    update_aborted_log_pointers(&mut manager, &mut index, u);
    assert_eq!(index.get(&key("a"), Some(u)), None);
    assert_eq!(index.get(&key("a"), None), Some(LogPointer::new(1, 1)));
    assert!(!manager.is_live(&u));
}

#[test]
fn writer_returns_where_it_wrote() {
    let mut writer = LogWriter::new(vec![0x04]);
    assert_eq!(writer.get_current_pos(), 1);
    let instruction = Instruction::RemoveOne { key: key("a") };
    assert_eq!(writer.append_instruction(&instruction), LogPointer::new(1, 3));
    assert_eq!(writer.append_instruction(&Instruction::RemoveAll), LogPointer::new(4, 1));
    assert_eq!(writer.get_current_pos(), 5);
    assert_eq!(writer.as_slice(), &[0x04, 0x03, 0x01, 0x61, 0x04]);
}
