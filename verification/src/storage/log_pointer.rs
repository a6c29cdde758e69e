//! Where an instruction lies in the log.
use vstd::prelude::*;

verus! {

/// The place of one instruction in the log: the offset of its first byte and
/// the number of bytes it takes.
#[derive(Debug, Clone, Copy, PartialEq, Eq, Structural)]
pub struct LogPointer {
    pub pos: u64,
    pub len: usize,
}

impl LogPointer {
    pub fn new(pos: u64, len: usize) -> (pointer: LogPointer)
        ensures
            pointer == (LogPointer { pos, len }),
    {
        LogPointer { pos, len }
    }
}

} // verus!
