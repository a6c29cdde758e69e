//! The keys that callers use.
use crate::storage::kvkey::{copy_bytes, KVKey};
use vstd::prelude::*;
use vstd::string::*;

verus! {

/// A key as callers give it. The engine sees its bytes.
#[derive(Debug, Clone, PartialEq, Eq, Hash)]
pub struct UnitKey {
    bytes: Vec<u8>,
}

impl View for UnitKey {
    type V = Seq<u8>;

    closed spec fn view(&self) -> Seq<u8> {
        self.bytes@
    }
}

impl UnitKey {
    /// The key with the given bytes.
    pub fn new(bytes: Vec<u8>) -> (key: UnitKey)
        ensures
            key@ == bytes@,
    {
        UnitKey { bytes }
    }

    /// The key whose bytes are the UTF-8 form of `text`.
    pub fn from_text(text: &str) -> (key: UnitKey)
        ensures
            key@ == text.spec_bytes(),
    {
        UnitKey { bytes: copy_bytes(text.as_bytes()) }
    }

    /// The bytes of the key.
    pub fn as_bytes(&self) -> (bytes: &[u8])
        ensures
            bytes@ == self@,
    {
        self.bytes.as_slice()
    }

    /// The key of the engine that stands for this key.
    pub fn to_kv_key(&self) -> (key: KVKey)
        ensures
            key@ == self@,
    {
        copy_bytes(self.bytes.as_slice())
    }
}

} // verus!
