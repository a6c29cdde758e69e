//! The instructions that make up the log, and their binary form.
//!
//! An instruction is written as one tag byte followed by its fields in the
//! order key, value, height, transaction identifier, each field only where the
//! instruction has it. A key or a value is written as its length and then its
//! bytes; a length, a height or an identifier is written as a variable-length
//! number.
use crate::constants::MAX_KEY_LENGTH;
use crate::storage::chain_height::ChainHeight;
use crate::storage::kvkey::{append_bytes, copy_bytes, KVKey};
use crate::storage::kvvalue::KVValue;
use crate::storage::transaction_manager::TransactionId;
use crate::utils::varint::{
    lemma_decode_cut, lemma_decode_extend, lemma_decode_torn, lemma_varint_round_trip,
    spec_varint_decode, spec_varint_encode, varint_decode, varint_encode, VarIntError,
};
use vstd::prelude::*;
use vstd::slice::slice_subrange;

verus! {

pub const TAG_SET: u8 = 0x00;

pub const TAG_REVERT_ONE: u8 = 0x01;

pub const TAG_REVERT_ALL: u8 = 0x02;

pub const TAG_REMOVE_ONE: u8 = 0x03;

pub const TAG_REMOVE_ALL: u8 = 0x04;

pub const TAG_TRANSACTION_START: u8 = 0x10;

pub const TAG_TRANSACTIONAL_SET: u8 = 0x11;

pub const TAG_TRANSACTIONAL_REVERT_ONE: u8 = 0x12;

pub const TAG_TRANSACTIONAL_REMOVE_ONE: u8 = 0x13;

pub const TAG_TRANSACTION_COMMIT: u8 = 0x14;

pub const TAG_TRANSACTION_ABORT: u8 = 0x15;

/// One record of the log.
#[derive(Debug, Clone, PartialEq, Eq)]
pub enum Instruction {
    SetOne { key: KVKey, value: KVValue },
    RevertOne { key: KVKey, height: ChainHeight },
    RevertAll { height: ChainHeight },
    RemoveOne { key: KVKey },
    RemoveAll,
    TransactionStart { transaction_id: TransactionId },
    TransactionalSet { key: KVKey, value: KVValue, transaction_id: TransactionId },
    TransactionalRevertOne { key: KVKey, height: ChainHeight, transaction_id: TransactionId },
    TransactionalRemoveOne { key: KVKey, transaction_id: TransactionId },
    TransactionCommit { transaction_id: TransactionId },
    TransactionAbort { transaction_id: TransactionId },
}

/// An instruction as a mathematical value.
pub enum InstructionView {
    SetOne { key: Seq<u8>, value: Seq<u8> },
    RevertOne { key: Seq<u8>, height: u64 },
    RevertAll { height: u64 },
    RemoveOne { key: Seq<u8> },
    RemoveAll,
    TransactionStart { transaction_id: u64 },
    TransactionalSet { key: Seq<u8>, value: Seq<u8>, transaction_id: u64 },
    TransactionalRevertOne { key: Seq<u8>, height: u64, transaction_id: u64 },
    TransactionalRemoveOne { key: Seq<u8>, transaction_id: u64 },
    TransactionCommit { transaction_id: u64 },
    TransactionAbort { transaction_id: u64 },
}

/// Why a buffer does not start with an instruction.
#[derive(Debug, Clone, Copy, PartialEq, Eq, Structural)]
pub enum InstructionError {
    /// The first byte is the tag of no instruction.
    UnknownTag,
    /// The buffer ends before the instruction does.
    Truncated,
    /// The instruction carries a key longer than `MAX_KEY_LENGTH`.
    KeyTooLong,
    /// A number in the instruction does not fit in 64 bits.
    VarintOverflow,
}

impl InstructionError {
    /// The name of the error.
    pub fn to_string(&self) -> (text: String)
        ensures
            text@ == match *self {
                InstructionError::UnknownTag => "InstructionError::UnknownTag"@,
                InstructionError::Truncated => "InstructionError::Truncated"@,
                InstructionError::KeyTooLong => "InstructionError::KeyTooLong"@,
                InstructionError::VarintOverflow => "InstructionError::VarintOverflow"@,
            },
    {
        match self {
            InstructionError::UnknownTag => String::from_str("InstructionError::UnknownTag"),
            InstructionError::Truncated => String::from_str("InstructionError::Truncated"),
            InstructionError::KeyTooLong => String::from_str("InstructionError::KeyTooLong"),
            InstructionError::VarintOverflow => String::from_str(
                "InstructionError::VarintOverflow",
            ),
        }
    }
}

impl View for Instruction {
    type V = InstructionView;

    open spec fn view(&self) -> InstructionView {
        match *self {
            Instruction::SetOne { key, value } => InstructionView::SetOne { key: key@, value: value@ },
            Instruction::RevertOne { key, height } => InstructionView::RevertOne {
                key: key@,
                height: height@,
            },
            Instruction::RevertAll { height } => InstructionView::RevertAll { height: height@ },
            Instruction::RemoveOne { key } => InstructionView::RemoveOne { key: key@ },
            Instruction::RemoveAll => InstructionView::RemoveAll,
            Instruction::TransactionStart { transaction_id } => InstructionView::TransactionStart {
                transaction_id: transaction_id@,
            },
            Instruction::TransactionalSet {
                key,
                value,
                transaction_id,
            } => InstructionView::TransactionalSet {
                key: key@,
                value: value@,
                transaction_id: transaction_id@,
            },
            Instruction::TransactionalRevertOne {
                key,
                height,
                transaction_id,
            } => InstructionView::TransactionalRevertOne {
                key: key@,
                height: height@,
                transaction_id: transaction_id@,
            },
            Instruction::TransactionalRemoveOne {
                key,
                transaction_id,
            } => InstructionView::TransactionalRemoveOne {
                key: key@,
                transaction_id: transaction_id@,
            },
            Instruction::TransactionCommit {
                transaction_id,
            } => InstructionView::TransactionCommit { transaction_id: transaction_id@ },
            Instruction::TransactionAbort { transaction_id } => InstructionView::TransactionAbort {
                transaction_id: transaction_id@,
            },
        }
    }
}

impl InstructionView {
    /// The byte that marks the kind of the instruction.
    pub open spec fn tag(self) -> u8 {
        match self {
            InstructionView::SetOne { .. } => TAG_SET,
            InstructionView::RevertOne { .. } => TAG_REVERT_ONE,
            InstructionView::RevertAll { .. } => TAG_REVERT_ALL,
            InstructionView::RemoveOne { .. } => TAG_REMOVE_ONE,
            InstructionView::RemoveAll => TAG_REMOVE_ALL,
            InstructionView::TransactionStart { .. } => TAG_TRANSACTION_START,
            InstructionView::TransactionalSet { .. } => TAG_TRANSACTIONAL_SET,
            InstructionView::TransactionalRevertOne { .. } => TAG_TRANSACTIONAL_REVERT_ONE,
            InstructionView::TransactionalRemoveOne { .. } => TAG_TRANSACTIONAL_REMOVE_ONE,
            InstructionView::TransactionCommit { .. } => TAG_TRANSACTION_COMMIT,
            InstructionView::TransactionAbort { .. } => TAG_TRANSACTION_ABORT,
        }
    }

    /// The key the instruction names, if it names one.
    pub open spec fn key(self) -> Option<Seq<u8>> {
        match self {
            InstructionView::SetOne { key, .. } => Some(key),
            InstructionView::RevertOne { key, .. } => Some(key),
            InstructionView::RemoveOne { key } => Some(key),
            InstructionView::TransactionalSet { key, .. } => Some(key),
            InstructionView::TransactionalRevertOne { key, .. } => Some(key),
            InstructionView::TransactionalRemoveOne { key, .. } => Some(key),
            _ => None,
        }
    }

    /// The value the instruction carries, if it carries one.
    pub open spec fn value(self) -> Option<Seq<u8>> {
        match self {
            InstructionView::SetOne { value, .. } => Some(value),
            InstructionView::TransactionalSet { value, .. } => Some(value),
            _ => None,
        }
    }

    /// The height the instruction goes back to, if it goes back.
    pub open spec fn height(self) -> Option<u64> {
        match self {
            InstructionView::RevertOne { height, .. } => Some(height),
            InstructionView::RevertAll { height } => Some(height),
            InstructionView::TransactionalRevertOne { height, .. } => Some(height),
            _ => None,
        }
    }

    /// The transaction the instruction belongs to, if it belongs to one.
    pub open spec fn transaction_id(self) -> Option<u64> {
        match self {
            InstructionView::TransactionStart { transaction_id } => Some(transaction_id),
            InstructionView::TransactionalSet { transaction_id, .. } => Some(transaction_id),
            InstructionView::TransactionalRevertOne { transaction_id, .. } => Some(transaction_id),
            InstructionView::TransactionalRemoveOne { transaction_id, .. } => Some(transaction_id),
            InstructionView::TransactionCommit { transaction_id } => Some(transaction_id),
            InstructionView::TransactionAbort { transaction_id } => Some(transaction_id),
            _ => None,
        }
    }

    /// Whether the fields have sizes that the binary form can hold: a key of
    /// at most `MAX_KEY_LENGTH` bytes, and a value whose length fits in 64 bits.
    pub open spec fn legal(self) -> bool {
        &&& self.key() matches Some(key) ==> key.len() <= MAX_KEY_LENGTH
        &&& self.value() matches Some(value) ==> value.len() <= u64::MAX
    }
}

/// Whether `tag` marks an instruction.
pub open spec fn tag_known(tag: u8) -> bool {
    tag <= TAG_REMOVE_ALL || TAG_TRANSACTION_START <= tag <= TAG_TRANSACTION_ABORT
}

/// Whether the instructions marked by `tag` name a key.
pub open spec fn tag_has_key(tag: u8) -> bool {
    tag == TAG_SET || tag == TAG_REVERT_ONE || tag == TAG_REMOVE_ONE || tag == TAG_TRANSACTIONAL_SET
        || tag == TAG_TRANSACTIONAL_REVERT_ONE || tag == TAG_TRANSACTIONAL_REMOVE_ONE
}

/// Whether the instructions marked by `tag` carry a value.
pub open spec fn tag_has_value(tag: u8) -> bool {
    tag == TAG_SET || tag == TAG_TRANSACTIONAL_SET
}

/// Whether the instructions marked by `tag` go back to a height.
pub open spec fn tag_has_height(tag: u8) -> bool {
    tag == TAG_REVERT_ONE || tag == TAG_REVERT_ALL || tag == TAG_TRANSACTIONAL_REVERT_ONE
}

/// Whether the instructions marked by `tag` belong to a transaction.
pub open spec fn tag_has_transaction_id(tag: u8) -> bool {
    TAG_TRANSACTION_START <= tag <= TAG_TRANSACTION_ABORT
}

/// The instruction with the given tag and fields. A field that instructions of
/// that tag do not have is ignored.
pub open spec fn assemble(
    tag: u8,
    key: Seq<u8>,
    value: Seq<u8>,
    height: u64,
    transaction_id: u64,
) -> InstructionView {
    if tag == TAG_SET {
        InstructionView::SetOne { key, value }
    } else if tag == TAG_REVERT_ONE {
        InstructionView::RevertOne { key, height }
    } else if tag == TAG_REVERT_ALL {
        InstructionView::RevertAll { height }
    } else if tag == TAG_REMOVE_ONE {
        InstructionView::RemoveOne { key }
    } else if tag == TAG_REMOVE_ALL {
        InstructionView::RemoveAll
    } else if tag == TAG_TRANSACTION_START {
        InstructionView::TransactionStart { transaction_id }
    } else if tag == TAG_TRANSACTIONAL_SET {
        InstructionView::TransactionalSet { key, value, transaction_id }
    } else if tag == TAG_TRANSACTIONAL_REVERT_ONE {
        InstructionView::TransactionalRevertOne { key, height, transaction_id }
    } else if tag == TAG_TRANSACTIONAL_REMOVE_ONE {
        InstructionView::TransactionalRemoveOne { key, transaction_id }
    } else if tag == TAG_TRANSACTION_COMMIT {
        InstructionView::TransactionCommit { transaction_id }
    } else {
        InstructionView::TransactionAbort { transaction_id }
    }
}

/// A run of bytes as it is written: its length, then the bytes.
pub open spec fn spec_bytes_field(bytes: Seq<u8>) -> Seq<u8> {
    spec_varint_encode(bytes.len()) + bytes
}

/// The written form of a key or a value, or nothing for a field that is not
/// there.
pub open spec fn spec_optional_bytes(field: Option<Seq<u8>>) -> Seq<u8> {
    match field {
        Some(bytes) => spec_bytes_field(bytes),
        None => Seq::empty(),
    }
}

/// The written form of a height or an identifier, or nothing for a field that
/// is not there.
pub open spec fn spec_optional_number(field: Option<u64>) -> Seq<u8> {
    match field {
        Some(number) => spec_varint_encode(number as nat),
        None => Seq::empty(),
    }
}

/// The binary form of an instruction.
pub open spec fn spec_serialize(instruction: InstructionView) -> Seq<u8> {
    seq![instruction.tag()] + spec_optional_bytes(instruction.key()) + spec_optional_bytes(
        instruction.value(),
    ) + spec_optional_number(instruction.height()) + spec_optional_number(
        instruction.transaction_id(),
    )
}

/// Reads a number from the front of `buf`: the number and the count of bytes
/// it takes.
#[verifier::opaque]
pub open spec fn spec_take_number(buf: Seq<u8>) -> Result<(u64, nat), InstructionError> {
    match spec_varint_decode(buf) {
        Ok(found) => Ok(found),
        Err(VarIntError::Malformed) => Err(InstructionError::Truncated),
        Err(VarIntError::Overflow) => Err(InstructionError::VarintOverflow),
    }
}

/// Reads a run of bytes from the front of `buf`: the bytes, and the count of
/// bytes that the run takes together with its length. A run longer than
/// `limit` is refused before its bytes are looked for.
#[verifier::opaque]
pub open spec fn spec_take_bytes(buf: Seq<u8>, limit: Option<nat>) -> Result<
    (Seq<u8>, nat),
    InstructionError,
> {
    match spec_take_number(buf) {
        Err(e) => Err(e),
        Ok((len, used)) => {
            if limit is Some && len > limit->0 {
                Err(InstructionError::KeyTooLong)
            } else if used + len > buf.len() {
                Err(InstructionError::Truncated)
            } else {
                Ok((buf.subrange(used as int, used + len), (used + len) as nat))
            }
        },
    }
}

/// Reads the key of an instruction marked by `tag` from the front of `buf`,
/// or nothing where such instructions name no key.
pub open spec fn spec_take_key(tag: u8, buf: Seq<u8>) -> Result<(Seq<u8>, nat), InstructionError> {
    if tag_has_key(tag) {
        spec_take_bytes(buf, Some(MAX_KEY_LENGTH as nat))
    } else {
        Ok((Seq::empty(), 0))
    }
}

/// Reads the value of an instruction marked by `tag` from the front of `buf`,
/// or nothing where such instructions carry no value.
pub open spec fn spec_take_value(tag: u8, buf: Seq<u8>) -> Result<(Seq<u8>, nat), InstructionError> {
    if tag_has_value(tag) {
        spec_take_bytes(buf, None)
    } else {
        Ok((Seq::empty(), 0))
    }
}

/// Reads a number from the front of `buf` if `present`, or nothing.
pub open spec fn spec_take_optional_number(present: bool, buf: Seq<u8>) -> Result<
    (u64, nat),
    InstructionError,
> {
    if present {
        spec_take_number(buf)
    } else {
        Ok((0, 0))
    }
}

/// Reads the fields of an instruction marked by `tag` from `body`, the bytes
/// after the tag. The count is that of the bytes of `body` that were read.
pub open spec fn spec_parse_body(tag: u8, body: Seq<u8>) -> Result<
    (InstructionView, nat),
    InstructionError,
> {
    match spec_take_key(tag, body) {
        Err(e) => Err(e),
        Ok((key, n1)) => match spec_take_value(tag, body.skip(n1 as int)) {
            Err(e) => Err(e),
            Ok((value, n2)) => match spec_take_optional_number(
                tag_has_height(tag),
                body.skip((n1 + n2) as int),
            ) {
                Err(e) => Err(e),
                Ok((height, n3)) => match spec_take_optional_number(
                    tag_has_transaction_id(tag),
                    body.skip((n1 + n2 + n3) as int),
                ) {
                    Err(e) => Err(e),
                    Ok((transaction_id, n4)) => Ok(
                        (assemble(tag, key, value, height, transaction_id), (n1 + n2 + n3 + n4) as nat),
                    ),
                },
            },
        },
    }
}

/// What parsing makes of `buf`: the instruction at its front and the count of
/// bytes the instruction takes, or the reason there is none.
pub open spec fn spec_parse(buf: Seq<u8>) -> Result<(InstructionView, nat), InstructionError> {
    if buf.len() == 0 {
        Err(InstructionError::Truncated)
    } else if !tag_known(buf[0]) {
        Err(InstructionError::UnknownTag)
    } else {
        match spec_parse_body(buf[0], buf.skip(1)) {
            Err(e) => Err(e),
            Ok((instruction, used)) => Ok((instruction, (1 + used) as nat)),
        }
    }
}

pub proof fn lemma_take_number_extend(buf: Seq<u8>, more: Seq<u8>)
    requires
        spec_take_number(buf) is Ok,
    ensures
        spec_take_number(buf + more) == spec_take_number(buf),
        1 <= spec_take_number(buf).unwrap().1 <= buf.len(),
{
    reveal(spec_take_number);
    lemma_decode_extend(buf, more);
}

pub proof fn lemma_take_bytes_extend(buf: Seq<u8>, limit: Option<nat>, more: Seq<u8>)
    requires
        spec_take_bytes(buf, limit) is Ok,
    ensures
        spec_take_bytes(buf + more, limit) == spec_take_bytes(buf, limit),
        1 <= spec_take_bytes(buf, limit).unwrap().1 <= buf.len(),
{
    reveal(spec_take_bytes);
    lemma_take_number_extend(buf, more);
    let (len, used) = spec_take_number(buf).unwrap();
    assert((buf + more).subrange(used as int, used + len) =~= buf.subrange(
        used as int,
        used + len,
    ));
}

/// Parsing the fields reads no further than the fields it returns.
pub proof fn lemma_parse_body_extend(tag: u8, body: Seq<u8>, more: Seq<u8>)
    requires
        spec_parse_body(tag, body) is Ok,
    ensures
        spec_parse_body(tag, body + more) == spec_parse_body(tag, body),
        spec_parse_body(tag, body).unwrap().1 <= body.len(),
{
    let whole = body + more;
    let n1 = spec_take_key(tag, body).unwrap().1;
    if tag_has_key(tag) {
        lemma_take_bytes_extend(body, Some(MAX_KEY_LENGTH as nat), more);
    }
    let rest1 = body.skip(n1 as int);
    assert(whole.skip(n1 as int) =~= rest1 + more);
    let n2 = spec_take_value(tag, rest1).unwrap().1;
    if tag_has_value(tag) {
        lemma_take_bytes_extend(rest1, None, more);
    }
    let rest2 = body.skip((n1 + n2) as int);
    assert(rest2 =~= rest1.skip(n2 as int));
    assert(whole.skip((n1 + n2) as int) =~= rest2 + more);
    let n3 = spec_take_optional_number(tag_has_height(tag), rest2).unwrap().1;
    if tag_has_height(tag) {
        lemma_take_number_extend(rest2, more);
    }
    let rest3 = body.skip((n1 + n2 + n3) as int);
    assert(rest3 =~= rest2.skip(n3 as int));
    assert(whole.skip((n1 + n2 + n3) as int) =~= rest3 + more);
    if tag_has_transaction_id(tag) {
        lemma_take_number_extend(rest3, more);
    }
}

/// Parsing reads no further than the instruction it returns: a successful
/// parse stays the same when bytes are appended to the buffer.
pub proof fn lemma_parse_extend(buf: Seq<u8>, more: Seq<u8>)
    requires
        spec_parse(buf) is Ok,
    ensures
        spec_parse(buf + more) == spec_parse(buf),
        1 <= spec_parse(buf).unwrap().1 <= buf.len(),
{
    assert((buf + more).skip(1) =~= buf.skip(1) + more);
    lemma_parse_body_extend(buf[0], buf.skip(1), more);
}

pub proof fn lemma_take_number_cut(buf: Seq<u8>, keep: int)
    requires
        spec_take_number(buf) is Ok,
        spec_take_number(buf).unwrap().1 <= keep <= buf.len(),
    ensures
        spec_take_number(buf.take(keep)) == spec_take_number(buf),
{
    reveal(spec_take_number);
    lemma_decode_cut(buf, keep);
}

pub proof fn lemma_take_bytes_cut(buf: Seq<u8>, limit: Option<nat>, keep: int)
    requires
        spec_take_bytes(buf, limit) is Ok,
        spec_take_bytes(buf, limit).unwrap().1 <= keep <= buf.len(),
    ensures
        spec_take_bytes(buf.take(keep), limit) == spec_take_bytes(buf, limit),
{
    reveal(spec_take_bytes);
    reveal(spec_take_number);
    let (len, used) = spec_take_number(buf).unwrap();
    lemma_decode_cut(buf, keep);
    assert(buf.take(keep).subrange(used as int, used + len) =~= buf.subrange(
        used as int,
        used + len,
    ));
}

/// Parsing the fields looks at no byte behind the fields it returns.
pub proof fn lemma_parse_body_cut(tag: u8, body: Seq<u8>, keep: int)
    requires
        spec_parse_body(tag, body) is Ok,
        spec_parse_body(tag, body).unwrap().1 <= keep <= body.len(),
    ensures
        spec_parse_body(tag, body.take(keep)) == spec_parse_body(tag, body),
{
    lemma_parse_body_extend(tag, body, Seq::empty());
    let short = body.take(keep);
    let n1 = spec_take_key(tag, body).unwrap().1;
    let rest1 = body.skip(n1 as int);
    let n2 = spec_take_value(tag, rest1).unwrap().1;
    let rest2 = body.skip((n1 + n2) as int);
    let n3 = spec_take_optional_number(tag_has_height(tag), rest2).unwrap().1;
    let rest3 = body.skip((n1 + n2 + n3) as int);
    let n4 = spec_take_optional_number(tag_has_transaction_id(tag), rest3).unwrap().1;
    if tag_has_key(tag) {
        lemma_take_bytes_extend(body, Some(MAX_KEY_LENGTH as nat), Seq::empty());
    }
    if tag_has_value(tag) {
        lemma_take_bytes_extend(rest1, None, Seq::empty());
    }
    if tag_has_height(tag) {
        lemma_take_number_extend(rest2, Seq::empty());
    }
    if tag_has_transaction_id(tag) {
        lemma_take_number_extend(rest3, Seq::empty());
    }
    assert(n1 + n2 + n3 + n4 <= keep);
    if tag_has_key(tag) {
        lemma_take_bytes_cut(body, Some(MAX_KEY_LENGTH as nat), keep);
    }
    assert(short.skip(n1 as int) =~= rest1.take(keep - n1));
    if tag_has_value(tag) {
        lemma_take_bytes_cut(rest1, None, keep - n1);
    }
    assert(short.skip((n1 + n2) as int) =~= rest2.take(keep - n1 - n2));
    if tag_has_height(tag) {
        lemma_take_number_cut(rest2, keep - n1 - n2);
    }
    assert(short.skip((n1 + n2 + n3) as int) =~= rest3.take(keep - n1 - n2 - n3));
    if tag_has_transaction_id(tag) {
        lemma_take_number_cut(rest3, keep - n1 - n2 - n3);
    }
}

/// Parsing looks at no byte behind the instruction it returns: a successful
/// parse stays the same when the buffer is cut right behind the instruction,
/// or anywhere after that.
pub proof fn lemma_parse_cut(buf: Seq<u8>, keep: int)
    requires
        spec_parse(buf) is Ok,
        spec_parse(buf).unwrap().1 <= keep <= buf.len(),
    ensures
        spec_parse(buf.take(keep)) == spec_parse(buf),
{
    assert(buf.take(keep).skip(1) =~= buf.skip(1).take(keep - 1));
    lemma_parse_body_cut(buf[0], buf.skip(1), keep - 1);
}

/// A number that was written is read back whole, whatever follows it.
pub proof fn lemma_take_number_written(number: u64, more: Seq<u8>)
    ensures
        spec_take_number(spec_varint_encode(number as nat) + more) == Ok::<
            (u64, nat),
            InstructionError,
        >((number, spec_varint_encode(number as nat).len())),
{
    reveal(spec_take_number);
    lemma_varint_round_trip(number);
    lemma_decode_extend(spec_varint_encode(number as nat), more);
}

/// A run of bytes that was written is read back whole, whatever follows it.
pub proof fn lemma_take_bytes_written(bytes: Seq<u8>, limit: Option<nat>, more: Seq<u8>)
    requires
        bytes.len() <= u64::MAX,
        limit matches Some(most) ==> bytes.len() <= most,
    ensures
        spec_take_bytes(spec_bytes_field(bytes) + more, limit) == Ok::<
            (Seq<u8>, nat),
            InstructionError,
        >((bytes, spec_bytes_field(bytes).len())),
{
    reveal(spec_take_bytes);
    let prefix = spec_varint_encode(bytes.len());
    let buf = spec_bytes_field(bytes) + more;
    assert(buf =~= prefix + (bytes + more));
    lemma_take_number_written(bytes.len() as u64, bytes + more);
    assert(buf.subrange(prefix.len() as int, (prefix.len() + bytes.len()) as int) =~= bytes);
}

/// The key that was written for an instruction marked by `tag` is read back.
proof fn lemma_take_key_written(tag: u8, key: Option<Seq<u8>>, more: Seq<u8>)
    requires
        tag_has_key(tag) == key is Some,
        key matches Some(k) ==> k.len() <= MAX_KEY_LENGTH,
    ensures
        spec_take_key(tag, spec_optional_bytes(key) + more) == Ok::<
            (Seq<u8>, nat),
            InstructionError,
        >(
            (
                match key {
                    Some(k) => k,
                    None => Seq::empty(),
                },
                spec_optional_bytes(key).len(),
            ),
        ),
{
    if key is Some {
        lemma_take_bytes_written(key.unwrap(), Some(MAX_KEY_LENGTH as nat), more);
    }
}

/// The value that was written for an instruction marked by `tag` is read back.
proof fn lemma_take_value_written(tag: u8, value: Option<Seq<u8>>, more: Seq<u8>)
    requires
        tag_has_value(tag) == value is Some,
        value matches Some(v) ==> v.len() <= u64::MAX,
    ensures
        spec_take_value(tag, spec_optional_bytes(value) + more) == Ok::<
            (Seq<u8>, nat),
            InstructionError,
        >(
            (
                match value {
                    Some(v) => v,
                    None => Seq::empty(),
                },
                spec_optional_bytes(value).len(),
            ),
        ),
{
    if value is Some {
        lemma_take_bytes_written(value.unwrap(), None, more);
    }
}

/// The number that was written for an optional field is read back.
proof fn lemma_take_optional_number_written(number: Option<u64>, more: Seq<u8>)
    ensures
        spec_take_optional_number(number is Some, spec_optional_number(number) + more) == Ok::<
            (u64, nat),
            InstructionError,
        >(
            (
                match number {
                    Some(n) => n,
                    None => 0,
                },
                spec_optional_number(number).len(),
            ),
        ),
{
    if number is Some {
        lemma_take_number_written(number.unwrap(), more);
    }
}

/// Reading four fields one after the other from their written forms.
proof fn lemma_parse_body_chain(
    tag: u8,
    key: Option<Seq<u8>>,
    value: Option<Seq<u8>>,
    height: Option<u64>,
    transaction_id: Option<u64>,
    more: Seq<u8>,
)
    requires
        tag_has_key(tag) == key is Some,
        tag_has_value(tag) == value is Some,
        tag_has_height(tag) == height is Some,
        tag_has_transaction_id(tag) == transaction_id is Some,
        key matches Some(k) ==> k.len() <= MAX_KEY_LENGTH,
        value matches Some(v) ==> v.len() <= u64::MAX,
    ensures
        spec_parse_body(
            tag,
            spec_optional_bytes(key) + spec_optional_bytes(value) + spec_optional_number(height)
                + spec_optional_number(transaction_id) + more,
        ) == Ok::<(InstructionView, nat), InstructionError>(
            (
                assemble(
                    tag,
                    match key {
                        Some(k) => k,
                        None => Seq::empty(),
                    },
                    match value {
                        Some(v) => v,
                        None => Seq::empty(),
                    },
                    match height {
                        Some(n) => n,
                        None => 0,
                    },
                    match transaction_id {
                        Some(n) => n,
                        None => 0,
                    },
                ),
                (spec_optional_bytes(key).len() + spec_optional_bytes(value).len()
                    + spec_optional_number(height).len() + spec_optional_number(
                    transaction_id,
                ).len()) as nat,
            ),
        ),
{
    let k = spec_optional_bytes(key);
    let v = spec_optional_bytes(value);
    let h = spec_optional_number(height);
    let t = spec_optional_number(transaction_id);
    let body = k + v + h + t + more;
    assert(body =~= k + (v + h + t + more));
    lemma_take_key_written(tag, key, v + h + t + more);
    assert(body.skip(k.len() as int) =~= v + (h + t + more));
    lemma_take_value_written(tag, value, h + t + more);
    assert(body.skip((k.len() + v.len()) as int) =~= h + (t + more));
    lemma_take_optional_number_written(height, t + more);
    assert(body.skip((k.len() + v.len() + h.len()) as int) =~= t + more);
    lemma_take_optional_number_written(transaction_id, more);
}

/// An instruction is put together from its own tag and fields.
proof fn lemma_assemble_own_fields(instruction: InstructionView)
    ensures
        tag_known(instruction.tag()),
        tag_has_key(instruction.tag()) == instruction.key() is Some,
        tag_has_value(instruction.tag()) == instruction.value() is Some,
        tag_has_height(instruction.tag()) == instruction.height() is Some,
        tag_has_transaction_id(instruction.tag()) == instruction.transaction_id() is Some,
        assemble(
            instruction.tag(),
            match instruction.key() {
                Some(k) => k,
                None => Seq::empty(),
            },
            match instruction.value() {
                Some(v) => v,
                None => Seq::empty(),
            },
            match instruction.height() {
                Some(n) => n,
                None => 0,
            },
            match instruction.transaction_id() {
                Some(n) => n,
                None => 0,
            },
        ) == instruction,
{
}

/// Parsing the binary form of an instruction gives the instruction back and
/// consumes exactly that form, whatever follows it in the buffer.
pub proof fn lemma_parse_serialized(instruction: InstructionView, more: Seq<u8>)
    requires
        instruction.legal(),
    ensures
        spec_parse(spec_serialize(instruction) + more) == Ok::<
            (InstructionView, nat),
            InstructionError,
        >((instruction, spec_serialize(instruction).len())),
{
    let buf = spec_serialize(instruction) + more;
    let fields = spec_optional_bytes(instruction.key()) + spec_optional_bytes(instruction.value())
        + spec_optional_number(instruction.height()) + spec_optional_number(
        instruction.transaction_id(),
    );
    assert(buf[0] == instruction.tag());
    assert(buf.skip(1) =~= fields + more);
    assert(spec_serialize(instruction).len() == 1 + fields.len());
    lemma_assemble_own_fields(instruction);
    lemma_parse_body_chain(
        instruction.tag(),
        instruction.key(),
        instruction.value(),
        instruction.height(),
        instruction.transaction_id(),
        more,
    );
}

/// Parsing after serializing is the identity: for every instruction with legal
/// field sizes, the parse of its binary form is the instruction itself, and
/// takes the whole form.
pub proof fn lemma_codec_round_trip(instruction: InstructionView)
    requires
        instruction.legal(),
    ensures
        spec_parse(spec_serialize(instruction)) == Ok::<(InstructionView, nat), InstructionError>(
            (instruction, spec_serialize(instruction).len()),
        ),
{
    lemma_parse_serialized(instruction, Seq::empty());
    assert(spec_serialize(instruction) + Seq::<u8>::empty() =~= spec_serialize(instruction));
}

/// A number that was written and cut before its last byte cannot be read:
/// the buffer ends too early.
proof fn lemma_take_number_torn(number: u64, keep: int)
    requires
        0 <= keep < spec_varint_encode(number as nat).len(),
    ensures
        spec_take_number(spec_varint_encode(number as nat).take(keep)) == Err::<
            (u64, nat),
            InstructionError,
        >(InstructionError::Truncated),
{
    reveal(spec_take_number);
    lemma_decode_torn(number, keep);
}

/// A run of bytes that was written and cut before its last byte cannot be
/// read: the buffer ends too early.
proof fn lemma_take_bytes_torn(bytes: Seq<u8>, limit: Option<nat>, keep: int)
    requires
        bytes.len() <= u64::MAX,
        limit matches Some(most) ==> bytes.len() <= most,
        0 <= keep < spec_bytes_field(bytes).len(),
    ensures
        spec_take_bytes(spec_bytes_field(bytes).take(keep), limit) == Err::<
            (Seq<u8>, nat),
            InstructionError,
        >(InstructionError::Truncated),
{
    reveal(spec_take_bytes);
    let prefix = spec_varint_encode(bytes.len());
    let torn = spec_bytes_field(bytes).take(keep);
    if keep < prefix.len() {
        assert(torn =~= prefix.take(keep));
        lemma_take_number_torn(bytes.len() as u64, keep);
    } else {
        assert(torn =~= prefix + bytes.take(keep - prefix.len()));
        lemma_take_number_written(bytes.len() as u64, bytes.take(keep - prefix.len()));
    }
}

/// The written form of the fields of an instruction, cut before its last
/// byte, cannot be read: the buffer ends too early.
proof fn lemma_parse_body_torn(
    tag: u8,
    key: Option<Seq<u8>>,
    value: Option<Seq<u8>>,
    height: Option<u64>,
    transaction_id: Option<u64>,
    keep: int,
)
    requires
        tag_has_key(tag) == key is Some,
        tag_has_value(tag) == value is Some,
        tag_has_height(tag) == height is Some,
        tag_has_transaction_id(tag) == transaction_id is Some,
        key matches Some(k) ==> k.len() <= MAX_KEY_LENGTH,
        value matches Some(v) ==> v.len() <= u64::MAX,
        0 <= keep < (spec_optional_bytes(key) + spec_optional_bytes(value) + spec_optional_number(
            height,
        ) + spec_optional_number(transaction_id)).len(),
    ensures
        spec_parse_body(
            tag,
            (spec_optional_bytes(key) + spec_optional_bytes(value) + spec_optional_number(height)
                + spec_optional_number(transaction_id)).take(keep),
        ) == Err::<(InstructionView, nat), InstructionError>(InstructionError::Truncated),
{
    let k = spec_optional_bytes(key);
    let v = spec_optional_bytes(value);
    let h = spec_optional_number(height);
    let t = spec_optional_number(transaction_id);
    let torn = (k + v + h + t).take(keep);
    if keep < k.len() {
        assert(torn =~= k.take(keep));
        lemma_take_bytes_torn(key.unwrap(), Some(MAX_KEY_LENGTH as nat), keep);
    } else {
        let rest1 = (v + h + t).take(keep - k.len());
        assert(torn =~= k + rest1);
        lemma_take_key_written(tag, key, rest1);
        assert(torn.skip(k.len() as int) =~= rest1);
        if keep - k.len() < v.len() {
            assert(rest1 =~= v.take(keep - k.len()));
            lemma_take_bytes_torn(value.unwrap(), None, keep - k.len());
        } else {
            let rest2 = (h + t).take(keep - k.len() - v.len());
            assert(rest1 =~= v + rest2);
            lemma_take_value_written(tag, value, rest2);
            assert(torn.skip((k.len() + v.len()) as int) =~= rest2);
            if keep - k.len() - v.len() < h.len() {
                assert(rest2 =~= h.take(keep - k.len() - v.len()));
                lemma_take_number_torn(height.unwrap(), keep - k.len() - v.len());
            } else {
                let rest3 = t.take(keep - k.len() - v.len() - h.len());
                assert(rest2 =~= h + rest3);
                lemma_take_optional_number_written(height, rest3);
                assert(torn.skip((k.len() + v.len() + h.len()) as int) =~= rest3);
                lemma_take_number_torn(
                    transaction_id.unwrap(),
                    keep - k.len() - v.len() - h.len(),
                );
            }
        }
    }
}

/// The binary form of an instruction, cut before its last byte, is no
/// instruction: parsing finds that the buffer ends too early.
pub proof fn lemma_parse_torn(instruction: InstructionView, keep: int)
    requires
        instruction.legal(),
        0 <= keep < spec_serialize(instruction).len(),
    ensures
        spec_parse(spec_serialize(instruction).take(keep)) == Err::<
            (InstructionView, nat),
            InstructionError,
        >(InstructionError::Truncated),
{
    let torn = spec_serialize(instruction).take(keep);
    let fields = spec_optional_bytes(instruction.key()) + spec_optional_bytes(instruction.value())
        + spec_optional_number(instruction.height()) + spec_optional_number(
        instruction.transaction_id(),
    );
    if keep > 0 {
        assert(torn[0] == instruction.tag());
        assert(torn.skip(1) =~= fields.take(keep - 1));
        assert(spec_serialize(instruction).len() == 1 + fields.len());
        lemma_assemble_own_fields(instruction);
        lemma_parse_body_torn(
            instruction.tag(),
            instruction.key(),
            instruction.value(),
            instruction.height(),
            instruction.transaction_id(),
            keep - 1,
        );
    }
}

/// Reads a number at offset `start` of `data`.
fn take_number(data: &[u8], start: usize) -> (result: Result<(u64, usize), InstructionError>)
    requires
        start <= data@.len(),
    ensures
        match result {
            Ok((number, used)) => spec_take_number(data@.skip(start as int)) == Ok::<
                (u64, nat),
                InstructionError,
            >((number, used as nat)) && start + used <= data@.len(),
            Err(e) => spec_take_number(data@.skip(start as int)) == Err::<
                (u64, nat),
                InstructionError,
            >(e),
        },
{
    reveal(spec_take_number);
    let rest = slice_subrange(data, start, data.len());
    assert(rest@ =~= data@.skip(start as int));
    match varint_decode(rest) {
        Ok((number, used)) => {
            proof {
                lemma_decode_extend(rest@, Seq::empty());
            }
            Ok((number, used))
        },
        Err(VarIntError::Malformed) => Err(InstructionError::Truncated),
        Err(VarIntError::Overflow) => Err(InstructionError::VarintOverflow),
    }
}

/// Reads a run of bytes at offset `start` of `data`. With `bounded`, a run
/// longer than `MAX_KEY_LENGTH` is refused.
fn take_bytes(data: &[u8], start: usize, bounded: bool) -> (result: Result<
    (Vec<u8>, usize),
    InstructionError,
>)
    requires
        start <= data@.len(),
    ensures
        match result {
            Ok((bytes, used)) => spec_take_bytes(
                data@.skip(start as int),
                if bounded {
                    Some(MAX_KEY_LENGTH as nat)
                } else {
                    None
                },
            ) == Ok::<(Seq<u8>, nat), InstructionError>((bytes@, used as nat)) && start + used
                <= data@.len(),
            Err(e) => spec_take_bytes(
                data@.skip(start as int),
                if bounded {
                    Some(MAX_KEY_LENGTH as nat)
                } else {
                    None
                },
            ) == Err::<(Seq<u8>, nat), InstructionError>(e),
        },
{
    reveal(spec_take_bytes);
    let (len, used) = match take_number(data, start) {
        Ok(found) => found,
        Err(e) => {
            return Err(e);
        },
    };
    if bounded && len > MAX_KEY_LENGTH as u64 {
        return Err(InstructionError::KeyTooLong);
    }
    let left: usize = data.len() - start - used;
    if len > left as u64 {
        return Err(InstructionError::Truncated);
    }
    let from: usize = start + used;
    let to: usize = from + len as usize;
    let run = slice_subrange(data, from, to);
    assert(run@ =~= data@.skip(start as int).subrange(used as int, used + len));
    Ok((copy_bytes(run), used + len as usize))
}

impl Instruction {
    /// The byte that marks the kind of the instruction.
    pub fn tag(&self) -> (tag: u8)
        ensures
            tag == self@.tag(),
    {
        match self {
            Instruction::SetOne { .. } => TAG_SET,
            Instruction::RevertOne { .. } => TAG_REVERT_ONE,
            Instruction::RevertAll { .. } => TAG_REVERT_ALL,
            Instruction::RemoveOne { .. } => TAG_REMOVE_ONE,
            Instruction::RemoveAll => TAG_REMOVE_ALL,
            Instruction::TransactionStart { .. } => TAG_TRANSACTION_START,
            Instruction::TransactionalSet { .. } => TAG_TRANSACTIONAL_SET,
            Instruction::TransactionalRevertOne { .. } => TAG_TRANSACTIONAL_REVERT_ONE,
            Instruction::TransactionalRemoveOne { .. } => TAG_TRANSACTIONAL_REMOVE_ONE,
            Instruction::TransactionCommit { .. } => TAG_TRANSACTION_COMMIT,
            Instruction::TransactionAbort { .. } => TAG_TRANSACTION_ABORT,
        }
    }

    /// The instruction with the given tag and fields. A field that
    /// instructions of that tag do not have is dropped.
    fn assemble(
        tag: u8,
        key: Vec<u8>,
        value: Vec<u8>,
        height: u64,
        transaction_id: u64,
    ) -> (instruction: Instruction)
        requires
            tag_known(tag),
        ensures
            instruction@ == assemble(tag, key@, value@, height, transaction_id),
    {
        let height = ChainHeight::new(height);
        let transaction_id = TransactionId::new(transaction_id);
        if tag == TAG_SET {
            Instruction::SetOne { key, value }
        } else if tag == TAG_REVERT_ONE {
            Instruction::RevertOne { key, height }
        } else if tag == TAG_REVERT_ALL {
            Instruction::RevertAll { height }
        } else if tag == TAG_REMOVE_ONE {
            Instruction::RemoveOne { key }
        } else if tag == TAG_REMOVE_ALL {
            Instruction::RemoveAll
        } else if tag == TAG_TRANSACTION_START {
            Instruction::TransactionStart { transaction_id }
        } else if tag == TAG_TRANSACTIONAL_SET {
            Instruction::TransactionalSet { key, value, transaction_id }
        } else if tag == TAG_TRANSACTIONAL_REVERT_ONE {
            Instruction::TransactionalRevertOne { key, height, transaction_id }
        } else if tag == TAG_TRANSACTIONAL_REMOVE_ONE {
            Instruction::TransactionalRemoveOne { key, transaction_id }
        } else if tag == TAG_TRANSACTION_COMMIT {
            Instruction::TransactionCommit { transaction_id }
        } else {
            Instruction::TransactionAbort { transaction_id }
        }
    }

    /// Writes the instruction in its binary form.
    pub fn serialize(&self) -> (out: Vec<u8>)
        ensures
            out@ == spec_serialize(self@),
            out@.len() >= 1,
            self@.legal() ==> spec_parse(out@) == Ok::<(InstructionView, nat), InstructionError>(
                (self@, out@.len()),
            ),
    {
        let mut out: Vec<u8> = Vec::new();
        out.push(self.tag());
        match self {
            Instruction::SetOne { key, value } => {
                put_bytes(&mut out, key);
                put_bytes(&mut out, value);
            },
            Instruction::RevertOne { key, height } => {
                put_bytes(&mut out, key);
                put_number(&mut out, height.as_u64());
            },
            Instruction::RevertAll { height } => {
                put_number(&mut out, height.as_u64());
            },
            Instruction::RemoveOne { key } => {
                put_bytes(&mut out, key);
            },
            Instruction::RemoveAll => {},
            Instruction::TransactionStart { transaction_id } => {
                put_number(&mut out, transaction_id.as_u64());
            },
            Instruction::TransactionalSet { key, value, transaction_id } => {
                put_bytes(&mut out, key);
                put_bytes(&mut out, value);
                put_number(&mut out, transaction_id.as_u64());
            },
            Instruction::TransactionalRevertOne { key, height, transaction_id } => {
                put_bytes(&mut out, key);
                put_number(&mut out, height.as_u64());
                put_number(&mut out, transaction_id.as_u64());
            },
            Instruction::TransactionalRemoveOne { key, transaction_id } => {
                put_bytes(&mut out, key);
                put_number(&mut out, transaction_id.as_u64());
            },
            Instruction::TransactionCommit { transaction_id } => {
                put_number(&mut out, transaction_id.as_u64());
            },
            Instruction::TransactionAbort { transaction_id } => {
                put_number(&mut out, transaction_id.as_u64());
            },
        }
        assert(out@ =~= spec_serialize(self@));
        proof {
            if self@.legal() {
                lemma_codec_round_trip(self@);
            }
        }
        out
    }

    /// Reads the instruction at the front of `data`, and says how many bytes
    /// it takes.
    pub fn parse(data: &[u8]) -> (result: Result<(Instruction, usize), InstructionError>)
        ensures
            match result {
                Ok((instruction, used)) => spec_parse(data@) == Ok::<
                    (InstructionView, nat),
                    InstructionError,
                >((instruction@, used as nat)) && 1 <= used <= data@.len(),
                Err(e) => spec_parse(data@) == Err::<(InstructionView, nat), InstructionError>(e),
            },
    {
        if data.len() == 0 {
            return Err(InstructionError::Truncated);
        }
        let tag: u8 = data[0];
        if !known_tag(tag) {
            return Err(InstructionError::UnknownTag);
        }
        let ghost body = data@.skip(1);
        let (key, n1) = match take_key(tag, data, 1) {
            Ok(found) => found,
            Err(e) => {
                return Err(e);
            },
        };
        assert(data@.skip(1 + n1) =~= body.skip(n1 as int));
        let (value, n2) = match take_value(tag, data, 1 + n1) {
            Ok(found) => found,
            Err(e) => {
                return Err(e);
            },
        };
        assert(data@.skip(1 + n1 + n2) =~= body.skip((n1 + n2) as int));
        let (height, n3) = match take_optional_number(has_height(tag), data, 1 + n1 + n2) {
            Ok(found) => found,
            Err(e) => {
                return Err(e);
            },
        };
        assert(data@.skip(1 + n1 + n2 + n3) =~= body.skip((n1 + n2 + n3) as int));
        let (transaction_id, n4) = match take_optional_number(
            has_transaction_id(tag),
            data,
            1 + n1 + n2 + n3,
        ) {
            Ok(found) => found,
            Err(e) => {
                return Err(e);
            },
        };
        Ok(
            (
                Instruction::assemble(tag, key, value, height, transaction_id),
                1 + n1 + n2 + n3 + n4,
            ),
        )
    }
}

fn known_tag(tag: u8) -> (known: bool)
    ensures
        known == tag_known(tag),
{
    tag <= TAG_REMOVE_ALL || (TAG_TRANSACTION_START <= tag && tag <= TAG_TRANSACTION_ABORT)
}

fn has_height(tag: u8) -> (has: bool)
    ensures
        has == tag_has_height(tag),
{
    tag == TAG_REVERT_ONE || tag == TAG_REVERT_ALL || tag == TAG_TRANSACTIONAL_REVERT_ONE
}

fn has_transaction_id(tag: u8) -> (has: bool)
    ensures
        has == tag_has_transaction_id(tag),
{
    TAG_TRANSACTION_START <= tag && tag <= TAG_TRANSACTION_ABORT
}

/// Reads the key of an instruction marked by `tag` at offset `start` of `data`.
fn take_key(tag: u8, data: &[u8], start: usize) -> (result: Result<
    (Vec<u8>, usize),
    InstructionError,
>)
    requires
        start <= data@.len(),
    ensures
        match result {
            Ok((bytes, used)) => spec_take_key(tag, data@.skip(start as int)) == Ok::<
                (Seq<u8>, nat),
                InstructionError,
            >((bytes@, used as nat)) && start + used <= data@.len(),
            Err(e) => spec_take_key(tag, data@.skip(start as int)) == Err::<
                (Seq<u8>, nat),
                InstructionError,
            >(e),
        },
{
    if tag == TAG_SET || tag == TAG_REVERT_ONE || tag == TAG_REMOVE_ONE || tag
        == TAG_TRANSACTIONAL_SET || tag == TAG_TRANSACTIONAL_REVERT_ONE || tag
        == TAG_TRANSACTIONAL_REMOVE_ONE {
        take_bytes(data, start, true)
    } else {
        Ok((Vec::new(), 0))
    }
}

/// Reads the value of an instruction marked by `tag` at offset `start` of
/// `data`.
fn take_value(tag: u8, data: &[u8], start: usize) -> (result: Result<
    (Vec<u8>, usize),
    InstructionError,
>)
    requires
        start <= data@.len(),
    ensures
        match result {
            Ok((bytes, used)) => spec_take_value(tag, data@.skip(start as int)) == Ok::<
                (Seq<u8>, nat),
                InstructionError,
            >((bytes@, used as nat)) && start + used <= data@.len(),
            Err(e) => spec_take_value(tag, data@.skip(start as int)) == Err::<
                (Seq<u8>, nat),
                InstructionError,
            >(e),
        },
{
    if tag == TAG_SET || tag == TAG_TRANSACTIONAL_SET {
        take_bytes(data, start, false)
    } else {
        Ok((Vec::new(), 0))
    }
}

/// Reads a number at offset `start` of `data` if `present`.
fn take_optional_number(present: bool, data: &[u8], start: usize) -> (result: Result<
    (u64, usize),
    InstructionError,
>)
    requires
        start <= data@.len(),
    ensures
        match result {
            Ok((number, used)) => spec_take_optional_number(present, data@.skip(start as int))
                == Ok::<(u64, nat), InstructionError>((number, used as nat)) && start + used
                <= data@.len(),
            Err(e) => spec_take_optional_number(present, data@.skip(start as int)) == Err::<
                (u64, nat),
                InstructionError,
            >(e),
        },
{
    if present {
        take_number(data, start)
    } else {
        Ok((0, 0))
    }
}

/// Appends a number in its written form.
fn put_number(out: &mut Vec<u8>, number: u64)
    ensures
        final(out)@ == old(out)@ + spec_varint_encode(number as nat),
{
    let encoded = varint_encode(number);
    append_bytes(out, encoded.as_slice());
}

/// Appends a run of bytes in its written form.
fn put_bytes(out: &mut Vec<u8>, bytes: &Vec<u8>)
    ensures
        final(out)@ == old(out)@ + spec_bytes_field(bytes@),
{
    put_number(out, bytes.len() as u64);
    append_bytes(out, bytes.as_slice());
    assert(out@ =~= old(out)@ + spec_bytes_field(bytes@));
}

} // verus!
