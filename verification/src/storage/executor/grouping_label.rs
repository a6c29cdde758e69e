//! The groupings that callers put their keys in.
use crate::storage::executor::unit_key::UnitKey;
use crate::storage::kvkey::{append_bytes, copy_bytes, KVKey};
use vstd::prelude::*;
use vstd::string::*;

verus! {

/// A grouping: a run of bytes that stands in front of every key of the
/// grouping when the key is handed to the engine.
#[derive(Debug, Clone, PartialEq, Eq, Hash)]
pub struct GroupingLabel {
    bytes: Vec<u8>,
}

impl View for GroupingLabel {
    type V = Seq<u8>;

    closed spec fn view(&self) -> Seq<u8> {
        self.bytes@
    }
}

/// The key of the engine that stands for `key` in `grouping`: the bytes of
/// the grouping, followed by the bytes of the key.
pub open spec fn spec_kv_key(grouping: Seq<u8>, key: Seq<u8>) -> Seq<u8> {
    grouping + key
}

impl GroupingLabel {
    /// The grouping with the given bytes.
    pub fn new(bytes: &[u8]) -> (grouping: GroupingLabel)
        ensures
            grouping@ == bytes@,
    {
        GroupingLabel { bytes: copy_bytes(bytes) }
    }

    /// The grouping whose bytes are the UTF-8 form of `text`.
    pub fn from_text(text: &str) -> (grouping: GroupingLabel)
        ensures
            grouping@ == text.spec_bytes(),
    {
        GroupingLabel { bytes: copy_bytes(text.as_bytes()) }
    }

    /// The bytes of the grouping.
    pub fn as_bytes(&self) -> (bytes: &[u8])
        ensures
            bytes@ == self@,
    {
        self.bytes.as_slice()
    }

    /// The key of the engine that stands for `key` in this grouping.
    pub fn kv_key(&self, key: &UnitKey) -> (kv_key: KVKey)
        ensures
            kv_key@ == spec_kv_key(self@, key@),
    {
        let mut kv_key = copy_bytes(self.bytes.as_slice());
        append_bytes(&mut kv_key, key.as_bytes());
        kv_key
    }
}

} // verus!
