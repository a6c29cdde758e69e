use immuxsys::storage::chain_height::ChainHeight;
use immuxsys::storage::errors::KVError;
use immuxsys::storage::executor::errors::ExecutorError;
use immuxsys::storage::executor::executor::Executor;
use immuxsys::storage::executor::grouping_label::GroupingLabel;
use immuxsys::storage::executor::instruction::Instruction;
use immuxsys::storage::executor::unit_content::{UnitContent, UnitContentError};
use immuxsys::storage::executor::unit_key::UnitKey;
use immuxsys::storage::instruction::InstructionError;
use immuxsys::storage::kv::LogKeyValueStore;
use immuxsys::storage::transaction_manager::{TransactionId, TransactionManagerError};

fn plain() -> GroupingLabel {
    GroupingLabel::new(&[])
}

fn text(value: &str) -> UnitContent {
    UnitContent::Text(String::from(value))
}

fn sample_contents() -> Vec<UnitContent> {
    vec![
        UnitContent::Nil,
        UnitContent::Bool(true),
        UnitContent::Bool(false),
        UnitContent::Float64(12.0f64.to_bits()),
        UnitContent::Float64(f64::NAN.to_bits()),
        text(""),
        text("this is a string"),
        text("héllo wörld"),
        UnitContent::Array(vec![]),
        UnitContent::Array(vec![
            text("string in an array"),
            UnitContent::Nil,
            UnitContent::Bool(true),
            UnitContent::Float64(12.0f64.to_bits()),
            UnitContent::Array(vec![UnitContent::Array(vec![UnitContent::Nil])]),
        ]),
        UnitContent::Fields(vec![]),
        UnitContent::Fields(vec![
            (String::from("key1"), text("string in map")),
            (String::from("key2"), UnitContent::Nil),
            (String::from("key3"), UnitContent::Bool(false)),
            (
                String::from("nested"),
                UnitContent::Fields(vec![(String::from(""), UnitContent::Array(vec![text("x")]))]),
            ),
        ]),
    ]
}

#[test]
fn content_exact_bytes() {
    assert_eq!(UnitContent::Nil.marshal(), vec![0x00]);
    assert_eq!(UnitContent::Bool(true).marshal(), vec![0x01, 0x01]);
    assert_eq!(UnitContent::Bool(false).marshal(), vec![0x01, 0x00]);
    assert_eq!(
        UnitContent::Float64(12.0f64.to_bits()).marshal(),
        vec![0x02, 0x00, 0x00, 0x00, 0x00, 0x00, 0x00, 0x28, 0x40]
    );
    assert_eq!(text("hi").marshal(), vec![0x03, 0x02, 0x68, 0x69]);
    assert_eq!(
        UnitContent::Array(vec![UnitContent::Nil, UnitContent::Bool(false)]).marshal(),
        vec![0x04, 0x02, 0x00, 0x01, 0x00]
    );
    assert_eq!(
        UnitContent::Fields(vec![(String::from("k"), UnitContent::Nil)]).marshal(),
        vec![0x05, 0x01, 0x01, 0x6b, 0x00]
    );
}

#[test]
fn content_round_trip() {
    for content in sample_contents() {
        let mut bytes = content.marshal();
        let length = bytes.len();
        bytes.extend_from_slice(&[0xaa, 0xbb]);
        assert_eq!(UnitContent::parse(&bytes[..length]), Ok((content, length)));
    }
    for content in sample_contents() {
        let mut bytes = content.marshal();
        let length = bytes.len();
        bytes.extend_from_slice(&[0xaa, 0xbb]);
        assert_eq!(UnitContent::parse(&bytes), Ok((content, length)));
    }
}

#[test]
fn content_parse_failures() {
    let malformed = Err(UnitContentError::MalformedPayload);
    assert_eq!(UnitContent::parse(&[]), malformed);
    assert_eq!(UnitContent::parse(&[0x06]), Err(UnitContentError::UnexpectedTypeTag));
    assert_eq!(UnitContent::parse(&[0xff, 0x00]), Err(UnitContentError::UnexpectedTypeTag));
    assert_eq!(UnitContent::parse(&[0x01]), malformed);
    assert_eq!(UnitContent::parse(&[0x01, 0x02]), malformed);
    assert_eq!(UnitContent::parse(&[0x02, 0, 0, 0, 0, 0, 0, 0]), malformed);
    assert_eq!(UnitContent::parse(&[0x03, 0x02, 0x68]), malformed);
    assert_eq!(UnitContent::parse(&[0x03, 0x01, 0xff]), malformed);
    assert_eq!(UnitContent::parse(&[0x04, 0x02, 0x00]), malformed);
    assert_eq!(UnitContent::parse(&[0x04, 0x01, 0x09]), Err(UnitContentError::UnexpectedTypeTag));
    assert_eq!(UnitContent::parse(&[0x04, 0x80]), malformed);
    assert_eq!(UnitContent::parse(&[0x05, 0x01, 0x01, 0x6b]), malformed);
    assert_eq!(UnitContent::parse(&[0x05, 0x01]), malformed);
    assert_eq!(
        UnitContentError::UnexpectedTypeTag.to_string(),
        "UnitContentError::UnexpectedTypeTag"
    );
    assert_eq!(
        UnitContentError::MalformedPayload.to_string(),
        "UnitContentError::MalformedPayload"
    );
}

#[test]
fn unit_key_is_its_bytes() {
    let key = UnitKey::from_text("key1");
    assert_eq!(key.as_bytes(), b"key1");
    assert_eq!(key.to_kv_key(), b"key1".to_vec());
    assert_eq!(UnitKey::new(vec![0x6b]), UnitKey::from_text("k"));
}

#[test]
fn executor_set_get() {
    let mut executor = Executor::open(Vec::new()).unwrap();
    let mut index = 0;
    for content in sample_contents() {
        let key = UnitKey::from_text(&format!("key{}", index));
        assert_eq!(executor.set(&plain(), &key, &content, None), Ok(()));
        index += 1;
    }
    let mut index = 0;
    for content in sample_contents() {
        let key = UnitKey::from_text(&format!("key{}", index));
        assert_eq!(executor.get(&plain(), &key, None), Ok(Some(content)));
        index += 1;
    }
    assert_eq!(executor.get(&plain(), &UnitKey::from_text("none"), None), Ok(None));
}

#[test]
fn executor_writes_what_the_engine_reads() {
    let mut executor = Executor::open(Vec::new()).unwrap();
    executor.set(&plain(), &UnitKey::from_text("a"), &text("1"), None).unwrap();
    assert_eq!(executor.log_bytes(), &[0x00, 0x01, 0x61, 0x03, 0x03, 0x01, 0x31]);
    let engine = LogKeyValueStore::open(executor.log_bytes().to_vec()).unwrap();
    assert_eq!(engine.get(&b"a".to_vec(), None), Ok(Some(vec![0x03, 0x01, 0x31])));
}

#[test]
fn executor_passes_refusals_on() {
    let mut executor = Executor::open(Vec::new()).unwrap();
    let key = UnitKey::from_text("a");
    let long = UnitKey::new(vec![0u8; 4097]);
    let stranger = TransactionId::new(8);
    let not_live = Err(ExecutorError::KVError(KVError::TransactionManagerError(
        TransactionManagerError::TransactionNotAlive,
    )));
    assert_eq!(
        executor.set(&plain(), &long, &UnitContent::Nil, None),
        Err(ExecutorError::KVError(KVError::InstructionError(InstructionError::KeyTooLong)))
    );
    assert_eq!(executor.set(&plain(), &key, &UnitContent::Nil, Some(stranger)), not_live);
    assert_eq!(executor.remove_one(&plain(), &key, Some(stranger)), not_live);
    assert_eq!(executor.commit_transaction(stranger), not_live);
    assert_eq!(executor.abort_transaction(stranger), not_live);
    assert_eq!(
        executor.revert_one(&plain(), &key, &ChainHeight::new(1), None),
        Err(ExecutorError::KVError(KVError::RevertOutOfRange))
    );
    assert_eq!(
        executor.revert_all(&ChainHeight::new(1)),
        Err(ExecutorError::KVError(KVError::RevertOutOfRange))
    );
    assert_eq!(executor.log_bytes().len(), 0);
    assert!(matches!(
        Executor::open(vec![0xff]),
        Err(ExecutorError::KVError(KVError::CorruptLog))
    ));
}

#[test]
fn executor_transactions_and_reverts() {
    let mut executor = Executor::open(Vec::new()).unwrap();
    let key = UnitKey::from_text("a");
    executor.set(&plain(), &key, &text("1"), None).unwrap();
    let t = executor.start_transaction().unwrap();
    executor.set(&plain(), &key, &text("2"), Some(t)).unwrap();
    assert_eq!(executor.get(&plain(), &key, None), Ok(Some(text("1"))));
    assert_eq!(executor.get(&plain(), &key, Some(t)), Ok(Some(text("2"))));
    executor.commit_transaction(t).unwrap();
    assert_eq!(executor.get(&plain(), &key, None), Ok(Some(text("2"))));
    executor.revert_one(&plain(), &key, &ChainHeight::new(0), None).unwrap();
    assert_eq!(executor.get(&plain(), &key, None), Ok(Some(text("1"))));
    executor.remove_one(&plain(), &key, None).unwrap();
    assert_eq!(executor.get(&plain(), &key, None), Ok(None));
    executor.revert_all(&ChainHeight::new(0)).unwrap();
    assert_eq!(executor.get(&plain(), &key, None), Ok(Some(text("1"))));
    executor.remove_all().unwrap();
    assert_eq!(executor.get(&plain(), &key, None), Ok(None));
    let u = executor.start_transaction().unwrap();
    assert_eq!(u, TransactionId::new(2));
    executor.abort_transaction(u).unwrap();
}

#[test]
fn executor_inspects_with_contents() {
    let mut executor = Executor::open(Vec::new()).unwrap();
    let a = UnitKey::from_text("a");
    let b = UnitKey::from_text("b");
    executor.set(&plain(), &a, &text("1"), None).unwrap();
    executor.set(&plain(), &b, &UnitContent::Bool(true), None).unwrap();
    executor.remove_all().unwrap();
    let t = executor.start_transaction().unwrap();
    executor.set(&plain(), &a, &UnitContent::Nil, Some(t)).unwrap();
    assert_eq!(
        executor.inspect_all(),
        Ok(vec![
            (Instruction::SetOne { key: UnitKey::from_text("a"), value: text("1") }, ChainHeight::new(0)),
            (
                Instruction::SetOne { key: UnitKey::from_text("b"), value: UnitContent::Bool(true) },
                ChainHeight::new(1)
            ),
            (Instruction::RemoveAll, ChainHeight::new(2)),
            (Instruction::TransactionStart { transaction_id: t }, ChainHeight::new(3)),
            (
                Instruction::TransactionalSet {
                    key: UnitKey::from_text("a"),
                    value: UnitContent::Nil,
                    transaction_id: t
                },
                ChainHeight::new(4)
            ),
        ])
    );
    assert_eq!(
        executor.inspect_one(&plain(), &b),
        Ok(vec![
            (
                Instruction::SetOne { key: UnitKey::from_text("b"), value: UnitContent::Bool(true) },
                ChainHeight::new(1)
            ),
            (Instruction::RemoveAll, ChainHeight::new(2)),
        ])
    );
}

#[test]
fn executor_reports_values_that_are_no_content() {
    let mut engine = LogKeyValueStore::open(Vec::new()).unwrap();
    engine.set(&b"a".to_vec(), &vec![0x09], None).unwrap();
    engine.set(&b"b".to_vec(), &vec![0x03, 0x05], None).unwrap();
    let executor = Executor::open(engine.log_bytes().to_vec()).unwrap();
    assert_eq!(
        executor.get(&plain(), &UnitKey::from_text("a"), None),
        Err(ExecutorError::UnitContentError(String::from("UnitContentError::UnexpectedTypeTag")))
    );
    assert_eq!(
        executor.get(&plain(), &UnitKey::from_text("b"), None),
        Err(ExecutorError::UnitContentError(String::from("UnitContentError::MalformedPayload")))
    );
    assert_eq!(
        executor.inspect_all(),
        Err(ExecutorError::UnitContentError(String::from("UnitContentError::UnexpectedTypeTag")))
    );
}

#[test]
fn groupings_stand_in_front_of_keys() {
    let mut executor = Executor::open(Vec::new()).unwrap();
    let fruit = GroupingLabel::from_text("fruit/");
    let tools = GroupingLabel::new(b"tools/");
    let key = UnitKey::from_text("a");
    assert_eq!(fruit.as_bytes(), b"fruit/");
    assert_eq!(fruit.kv_key(&key), b"fruit/a".to_vec());
    executor.set(&fruit, &key, &text("apple"), None).unwrap();
    executor.set(&tools, &key, &text("axe"), None).unwrap();
    assert_eq!(executor.get(&fruit, &key, None), Ok(Some(text("apple"))));
    assert_eq!(executor.get(&tools, &key, None), Ok(Some(text("axe"))));
    assert_eq!(executor.get(&plain(), &key, None), Ok(None));
    assert_eq!(executor.get(&plain(), &UnitKey::from_text("fruit/a"), None), Ok(Some(text("apple"))));
    executor.remove_one(&fruit, &key, None).unwrap();
    assert_eq!(executor.get(&fruit, &key, None), Ok(None));
    assert_eq!(executor.get(&tools, &key, None), Ok(Some(text("axe"))));
    executor.revert_one(&fruit, &key, &ChainHeight::new(0), None).unwrap();
    assert_eq!(executor.get(&fruit, &key, None), Ok(Some(text("apple"))));
    assert_eq!(
        executor.inspect_one(&tools, &key),
        Ok(vec![(
            Instruction::SetOne { key: UnitKey::from_text("tools/a"), value: text("axe") },
            ChainHeight::new(1)
        )])
    );
    let engine = LogKeyValueStore::open(executor.log_bytes().to_vec()).unwrap();
    assert_eq!(engine.get(&b"tools/a".to_vec(), None), Ok(Some(text("axe").marshal())));
}

#[test]
fn executor_lists_a_grouping() {
    let mut executor = Executor::open(Vec::new()).unwrap();
    let fruit = GroupingLabel::from_text("fruit/");
    let tools = GroupingLabel::from_text("tools/");
    executor.set(&fruit, &UnitKey::from_text("a"), &text("apple"), None).unwrap();
    executor.set(&tools, &UnitKey::from_text("a"), &text("axe"), None).unwrap();
    executor.set(&fruit, &UnitKey::from_text("b"), &text("banana"), None).unwrap();
    executor.set(&fruit, &UnitKey::from_text("a"), &text("apricot"), None).unwrap();
    executor.set(&fruit, &UnitKey::from_text("c"), &text("cherry"), None).unwrap();
    executor.remove_one(&fruit, &UnitKey::from_text("c"), None).unwrap();
    let t = executor.start_transaction().unwrap();
    executor.set(&fruit, &UnitKey::from_text("d"), &text("date"), Some(t)).unwrap();
    let mut listed = executor.get_all_current(&fruit).unwrap();
    listed.sort_by(|x, y| x.0.as_bytes().cmp(y.0.as_bytes()));
    assert_eq!(
        listed,
        vec![(UnitKey::from_text("a"), text("apricot")), (UnitKey::from_text("b"), text("banana"))]
    );
    assert_eq!(executor.get_all_current(&plain()).unwrap().len(), 3);
    assert_eq!(executor.get_all_current(&GroupingLabel::from_text("none")).unwrap(), vec![]);
}
