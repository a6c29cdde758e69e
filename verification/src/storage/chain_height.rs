//! The height of the chain of instructions.
use crate::utils::varint::{spec_varint_encode, varint_encode};
use vstd::prelude::*;

verus! {

/// A count of instructions, or the zero-based place of one instruction in the
/// log.
#[derive(Debug, Clone, Copy, PartialEq, Eq, PartialOrd, Ord, Hash, Structural)]
pub struct ChainHeight(pub u64);

/// Why a height cannot be stepped.
#[derive(Debug, Clone, Copy, PartialEq, Eq, Structural)]
pub enum ChainHeightError {
    /// There is no height below zero.
    NegativeChainHeight,
    /// There is no height above the largest 64-bit number.
    ChainHeightOutOfRange,
}

impl ChainHeightError {
    /// The name of the error.
    pub fn to_string(&self) -> (text: String)
        ensures
            text@ == match *self {
                ChainHeightError::NegativeChainHeight => "ChainHeightError::NegativeChainHeight"@,
                ChainHeightError::ChainHeightOutOfRange => "ChainHeightError::ChainHeightOutOfRange"@,
            },
    {
        match self {
            ChainHeightError::NegativeChainHeight => String::from_str(
                "ChainHeightError::NegativeChainHeight",
            ),
            ChainHeightError::ChainHeightOutOfRange => String::from_str(
                "ChainHeightError::ChainHeightOutOfRange",
            ),
        }
    }
}

impl View for ChainHeight {
    type V = u64;

    open spec fn view(&self) -> u64 {
        self.0
    }
}

impl ChainHeight {
    pub fn new(data: u64) -> (height: ChainHeight)
        ensures
            height@ == data,
    {
        ChainHeight(data)
    }

    /// Steps one down, and returns the new height. At zero nothing changes.
    pub fn decrement(&mut self) -> (result: Result<ChainHeight, ChainHeightError>)
        ensures
            old(self)@ == 0 ==> result == Err::<ChainHeight, ChainHeightError>(
                ChainHeightError::NegativeChainHeight,
            ) && *final(self) == *old(self),
            old(self)@ > 0 ==> final(self)@ == old(self)@ - 1 && result == Ok::<
                ChainHeight,
                ChainHeightError,
            >(*final(self)),
    {
        if self.0 == 0 {
            return Err(ChainHeightError::NegativeChainHeight);
        }
        self.0 = self.0 - 1;
        Ok(ChainHeight(self.0))
    }

    /// Steps one up, and returns the new height. At the largest height nothing
    /// changes.
    pub fn increment(&mut self) -> (result: Result<ChainHeight, ChainHeightError>)
        ensures
            old(self)@ == u64::MAX ==> result == Err::<ChainHeight, ChainHeightError>(
                ChainHeightError::ChainHeightOutOfRange,
            ) && *final(self) == *old(self),
            old(self)@ < u64::MAX ==> final(self)@ == old(self)@ + 1 && result == Ok::<
                ChainHeight,
                ChainHeightError,
            >(*final(self)),
    {
        if self.0 == u64::MAX {
            return Err(ChainHeightError::ChainHeightOutOfRange);
        }
        self.0 = self.0 + 1;
        Ok(ChainHeight(self.0))
    }

    pub fn as_u64(&self) -> (data: u64)
        ensures
            data == self@,
    {
        self.0
    }

    /// The height as it is written in the log.
    pub fn serialize(&self) -> (out: Vec<u8>)
        ensures
            out@ == spec_varint_encode(self@ as nat),
    {
        varint_encode(self.as_u64())
    }
}

} // verus!
