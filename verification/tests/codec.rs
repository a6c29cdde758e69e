use immuxsys::storage::chain_height::{ChainHeight, ChainHeightError};
use immuxsys::storage::instruction::{Instruction, InstructionError};
use immuxsys::storage::transaction_manager::{TransactionId, TransactionManagerError};
use immuxsys::utils::varint::{varint_decode, varint_encode, VarIntError};

#[test]
fn varint_encode_small_numbers() {
    assert_eq!(varint_encode(0), vec![0x00]);
    assert_eq!(varint_encode(1), vec![0x01]);
    assert_eq!(varint_encode(127), vec![0x7f]);
}

#[test]
fn varint_encode_exact_bytes() {
    assert_eq!(varint_encode(128), vec![0x80, 0x01]);
    assert_eq!(varint_encode(300), vec![0xac, 0x02]);
    assert_eq!(varint_encode(16384), vec![0x80, 0x80, 0x01]);
    assert_eq!(
        varint_encode(u64::MAX),
        vec![0xff, 0xff, 0xff, 0xff, 0xff, 0xff, 0xff, 0xff, 0xff, 0x01]
    );
}

#[test]
fn varint_round_trip_on_values() {
    let values = [
        0u64,
        1,
        127,
        128,
        255,
        256,
        300,
        16383,
        16384,
        1 << 32,
        (1 << 63) - 1,
        1 << 63,
        u64::MAX - 1,
        u64::MAX,
    ];
    for value in values.iter() {
        let encoded = varint_encode(*value);
        assert!(encoded.len() >= 1 && encoded.len() <= 10);
        assert_eq!(varint_decode(&encoded), Ok((*value, encoded.len())));
    }
}

#[test]
fn varint_decode_stops_behind_the_number() {
    assert_eq!(varint_decode(&[0xac, 0x02, 0xff, 0xff]), Ok((300, 2)));
    assert_eq!(varint_decode(&[0x05, 0x80]), Ok((5, 1)));
}

#[test]
fn varint_decode_accepts_padding_digits() {
    assert_eq!(varint_decode(&[0x80, 0x00]), Ok((0, 2)));
    assert_eq!(varint_decode(&[0x81, 0x80, 0x00]), Ok((1, 3)));
}

#[test]
fn varint_decode_malformed() {
    assert_eq!(varint_decode(&[]), Err(VarIntError::Malformed));
    assert_eq!(varint_decode(&[0x80]), Err(VarIntError::Malformed));
    assert_eq!(varint_decode(&[0xff, 0xff]), Err(VarIntError::Malformed));
}

#[test]
fn varint_decode_overflow() {
    let too_large = [0xff, 0xff, 0xff, 0xff, 0xff, 0xff, 0xff, 0xff, 0xff, 0x02];
    assert_eq!(varint_decode(&too_large), Err(VarIntError::Overflow));
    let eleven = [0x80, 0x80, 0x80, 0x80, 0x80, 0x80, 0x80, 0x80, 0x80, 0x80, 0x01];
    assert_eq!(varint_decode(&eleven), Err(VarIntError::Overflow));
    let overflow_before_end = [0xff, 0xff, 0xff, 0xff, 0xff, 0xff, 0xff, 0xff, 0xff, 0xff];
    assert_eq!(varint_decode(&overflow_before_end), Err(VarIntError::Overflow));
}

fn all_kinds() -> Vec<Instruction> {
    let id = TransactionId::new(7);
    vec![
        Instruction::SetOne { key: vec![1, 2], value: vec![3, 4, 5] },
        Instruction::RevertOne { key: vec![1, 2], height: ChainHeight::new(300) },
        Instruction::RevertAll { height: ChainHeight::new(0) },
        Instruction::RemoveOne { key: vec![] },
        Instruction::RemoveAll,
        Instruction::TransactionStart { transaction_id: id },
        Instruction::TransactionalSet { key: vec![9], value: vec![], transaction_id: id },
        Instruction::TransactionalRevertOne {
            key: vec![9],
            height: ChainHeight::new(u64::MAX),
            transaction_id: id,
        },
        Instruction::TransactionalRemoveOne { key: vec![9, 9], transaction_id: id },
        Instruction::TransactionCommit { transaction_id: id },
        Instruction::TransactionAbort { transaction_id: TransactionId::new(u64::MAX) },
    ]
}

#[test]
fn instruction_round_trip_every_kind() {
    for instruction in all_kinds() {
        let bytes = instruction.serialize();
        assert_eq!(Instruction::parse(&bytes), Ok((instruction.clone(), bytes.len())));
        let mut longer = bytes.clone();
        longer.extend_from_slice(&[0xff, 0x00]);
        assert_eq!(Instruction::parse(&longer), Ok((instruction, bytes.len())));
    }
}

#[test]
fn instruction_exact_bytes() {
    let set = Instruction::SetOne { key: vec![0x61], value: vec![0x31, 0x32] };
    assert_eq!(set.serialize(), vec![0x00, 0x01, 0x61, 0x02, 0x31, 0x32]);
    let revert = Instruction::RevertOne { key: vec![0x61], height: ChainHeight::new(300) };
    assert_eq!(revert.serialize(), vec![0x01, 0x01, 0x61, 0xac, 0x02]);
    let revert_all = Instruction::RevertAll { height: ChainHeight::new(6) };
    assert_eq!(revert_all.serialize(), vec![0x02, 0x06]);
    let remove = Instruction::RemoveOne { key: vec![0x88] };
    assert_eq!(remove.serialize(), vec![0x03, 0x01, 0x88]);
    assert_eq!(Instruction::RemoveAll.serialize(), vec![0x04]);
    let id = TransactionId::new(5);
    assert_eq!(Instruction::TransactionStart { transaction_id: id }.serialize(), vec![0x10, 0x05]);
    let transactional_set =
        Instruction::TransactionalSet { key: vec![0x61], value: vec![0x32], transaction_id: id };
    assert_eq!(transactional_set.serialize(), vec![0x11, 0x01, 0x61, 0x01, 0x32, 0x05]);
    let transactional_revert = Instruction::TransactionalRevertOne {
        key: vec![0x61],
        height: ChainHeight::new(2),
        transaction_id: id,
    };
    assert_eq!(transactional_revert.serialize(), vec![0x12, 0x01, 0x61, 0x02, 0x05]);
    let transactional_remove =
        Instruction::TransactionalRemoveOne { key: vec![0x61], transaction_id: id };
    assert_eq!(transactional_remove.serialize(), vec![0x13, 0x01, 0x61, 0x05]);
    assert_eq!(Instruction::TransactionCommit { transaction_id: id }.serialize(), vec![0x14, 0x05]);
    assert_eq!(Instruction::TransactionAbort { transaction_id: id }.serialize(), vec![0x15, 0x05]);
}

#[test]
fn instruction_parse_unknown_tag() {
    assert_eq!(Instruction::parse(&[0xff, 0x00, 0xfa]), Err(InstructionError::UnknownTag));
    assert_eq!(Instruction::parse(&[0x05]), Err(InstructionError::UnknownTag));
    assert_eq!(Instruction::parse(&[0x0f]), Err(InstructionError::UnknownTag));
    assert_eq!(Instruction::parse(&[0x16, 0x01]), Err(InstructionError::UnknownTag));
}

#[test]
fn instruction_parse_truncated() {
    assert_eq!(Instruction::parse(&[]), Err(InstructionError::Truncated));
    assert_eq!(Instruction::parse(&[0x00]), Err(InstructionError::Truncated));
    assert_eq!(Instruction::parse(&[0x00, 0x02, 0x61]), Err(InstructionError::Truncated));
    assert_eq!(Instruction::parse(&[0x00, 0x01, 0x61]), Err(InstructionError::Truncated));
    assert_eq!(Instruction::parse(&[0x00, 0x01, 0x61, 0x80]), Err(InstructionError::Truncated));
    assert_eq!(Instruction::parse(&[0x02]), Err(InstructionError::Truncated));
    assert_eq!(Instruction::parse(&[0x11, 0x01, 0x61, 0x00]), Err(InstructionError::Truncated));
}

#[test]
fn instruction_parse_every_cut_is_truncated() {
    for instruction in all_kinds() {
        let bytes = instruction.serialize();
        for cut in 0..bytes.len() {
            assert_eq!(Instruction::parse(&bytes[..cut]), Err(InstructionError::Truncated));
        }
    }
}

#[test]
fn instruction_parse_key_too_long() {
    let length = varint_encode(4097);
    let mut bytes = vec![0x00];
    bytes.extend_from_slice(&length);
    assert_eq!(Instruction::parse(&bytes), Err(InstructionError::KeyTooLong));
    bytes.extend_from_slice(&vec![0u8; 5000]);
    assert_eq!(Instruction::parse(&bytes), Err(InstructionError::KeyTooLong));
}

#[test]
fn instruction_parse_longest_key() {
    let instruction = Instruction::RemoveOne { key: vec![7u8; 4096] };
    let bytes = instruction.serialize();
    assert_eq!(bytes.len(), 1 + 2 + 4096);
    assert_eq!(Instruction::parse(&bytes), Ok((instruction, bytes.len())));
}

#[test]
fn instruction_parse_number_overflow() {
    let bytes = [0x02, 0xff, 0xff, 0xff, 0xff, 0xff, 0xff, 0xff, 0xff, 0xff, 0x02];
    assert_eq!(Instruction::parse(&bytes), Err(InstructionError::VarintOverflow));
}

#[test]
fn instruction_tags() {
    let tags: Vec<u8> = all_kinds().iter().map(|instruction| instruction.tag()).collect();
    assert_eq!(tags, vec![0x00, 0x01, 0x02, 0x03, 0x04, 0x10, 0x11, 0x12, 0x13, 0x14, 0x15]);
}

#[test]
fn chain_height_steps() {
    let mut height = ChainHeight::new(0);
    assert_eq!(height.decrement(), Err(ChainHeightError::NegativeChainHeight));
    assert_eq!(height.as_u64(), 0);
    assert_eq!(height.increment(), Ok(ChainHeight::new(1)));
    assert_eq!(height.as_u64(), 1);
    assert_eq!(height.decrement(), Ok(ChainHeight::new(0)));
    let mut top = ChainHeight::new(u64::MAX);
    assert_eq!(top.increment(), Err(ChainHeightError::ChainHeightOutOfRange));
    assert_eq!(top.as_u64(), u64::MAX);
    assert_eq!(ChainHeight::new(300).serialize(), vec![0xac, 0x02]);
    assert_eq!(
        ChainHeightError::NegativeChainHeight.to_string(),
        "ChainHeightError::NegativeChainHeight"
    );
}

#[test]
fn transaction_id_steps() {
    let mut id = TransactionId::new(0);
    assert_eq!(id.increment(), Ok(TransactionId::new(1)));
    assert_eq!(id.as_u64(), 1);
    let mut last = TransactionId::new((1 << 63) - 1);
    assert_eq!(last.increment(), Err(TransactionManagerError::TransactionIdOutOfRange));
    assert_eq!(last.as_u64(), (1 << 63) - 1);
    let mut before_last = TransactionId::new((1 << 63) - 2);
    assert_eq!(before_last.increment(), Ok(TransactionId::new((1 << 63) - 1)));
    assert_eq!(TransactionId::new(128).serialize(), vec![0x80, 0x01]);
}
