//! The writer of the log.
//!
//! The log only grows. The writer holds its bytes and appends instructions
//! behind them, so that a pointer to an instruction stays good for as long as
//! the log lives.
use crate::storage::instruction::{spec_serialize, Instruction};
use crate::storage::kvkey::append_bytes;
use crate::storage::log_pointer::LogPointer;
use vstd::prelude::*;

verus! {

/// The writer of a log.
#[derive(Debug, Clone)]
pub struct LogWriter {
    log: Vec<u8>,
}

impl LogWriter {
    /// The bytes of the log.
    pub closed spec fn bytes(&self) -> Seq<u8> {
        self.log@
    }

    /// The log fits into memory.
    pub proof fn lemma_bytes_fit(&self)
        ensures
            self.bytes().len() <= usize::MAX,
    {
        assert(self.log@.len() == self.log.len());
    }

    /// A writer that appends behind the bytes of `log`.
    pub fn new(log: Vec<u8>) -> (writer: LogWriter)
        ensures
            writer.bytes() == log@,
    {
        LogWriter { log }
    }

    /// Appends `instruction` in its binary form, and returns the pointer to
    /// it: the offset at which the log ended before, and the length of the
    /// binary form.
    pub fn append_instruction(&mut self, instruction: &Instruction) -> (pointer: LogPointer)
        ensures
            final(self).bytes() == old(self).bytes() + spec_serialize(instruction@),
            pointer.pos == old(self).bytes().len(),
            pointer.len == spec_serialize(instruction@).len(),
            final(self).bytes().len() <= usize::MAX,
    {
        let bytes = instruction.serialize();
        let pos = self.get_current_pos();
        append_bytes(&mut self.log, bytes.as_slice());
        assert(self.log@.len() == self.log.len());
        LogPointer::new(pos, bytes.len())
    }

    /// The offset at which the next instruction will lie.
    pub fn get_current_pos(&self) -> (pos: u64)
        ensures
            pos == self.bytes().len(),
    {
        self.log.len() as u64
    }

    /// The bytes of the log.
    pub fn as_slice(&self) -> (bytes: &[u8])
        ensures
            bytes@ == self.bytes(),
    {
        self.log.as_slice()
    }
}

} // verus!
