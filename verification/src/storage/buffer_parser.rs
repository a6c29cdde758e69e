//! Reading a buffer as a stream of instructions.
//!
//! The instructions of a log lie one behind the other, with nothing between
//! them. The stream ends where the buffer ends, or at the first byte from
//! which no instruction can be read.
use crate::storage::instruction::{
    lemma_parse_cut, lemma_parse_extend, spec_parse, Instruction, InstructionError,
    InstructionView,
};
use vstd::prelude::*;
use vstd::slice::slice_subrange;

verus! {

/// One instruction of a log, with the place where it lies.
pub struct LogRecord {
    pub instruction: InstructionView,
    /// The offset of the first byte of the instruction.
    pub pos: nat,
    /// The number of bytes the instruction takes.
    pub len: nat,
}

/// The instructions that can be read from `buf` one after the other, starting
/// at offset `start`.
pub open spec fn spec_records(buf: Seq<u8>, start: nat) -> Seq<LogRecord>
    decreases buf.len() - start,
{
    if start >= buf.len() {
        Seq::empty()
    } else {
        match spec_parse(buf.skip(start as int)) {
            Ok((instruction, len)) => {
                proof {
                    lemma_parse_extend(buf.skip(start as int), Seq::empty());
                }
                seq![LogRecord { instruction, pos: start, len }] + spec_records(buf, start + len)
            },
            Err(_) => Seq::empty(),
        }
    }
}

/// The offset at which reading `buf` from offset `start` comes to a halt.
pub open spec fn spec_records_end(buf: Seq<u8>, start: nat) -> nat
    decreases buf.len() - start,
{
    if start >= buf.len() {
        start
    } else {
        match spec_parse(buf.skip(start as int)) {
            Ok((instruction, len)) => {
                proof {
                    lemma_parse_extend(buf.skip(start as int), Seq::empty());
                }
                spec_records_end(buf, start + len)
            },
            Err(_) => start,
        }
    }
}

/// Whether `buf` is instructions from its first byte to its last.
pub open spec fn spec_log_whole(buf: Seq<u8>) -> bool {
    spec_records_end(buf, 0) == buf.len()
}

/// Whether `records` lie one behind the other, starting at offset `start`.
pub open spec fn records_contiguous(records: Seq<LogRecord>, start: nat) -> bool {
    forall|i: int|
        0 <= i < records.len() ==> (#[trigger] records[i]).pos == (if i == 0 {
            start
        } else {
            records[i - 1].pos + records[i - 1].len
        })
}

/// The records read from a buffer lie one behind the other inside it, each is
/// what parsing finds at its offset, and reading halts behind the last.
pub proof fn lemma_records_shape(buf: Seq<u8>, start: nat)
    requires
        start <= buf.len(),
    ensures
        records_contiguous(spec_records(buf, start), start),
        forall|i: int|
            0 <= i < spec_records(buf, start).len() ==> {
                let r = #[trigger] spec_records(buf, start)[i];
                &&& start <= r.pos
                &&& r.len >= 1
                &&& r.pos + r.len <= buf.len()
                &&& spec_parse(buf.skip(r.pos as int)) == Ok::<
                    (InstructionView, nat),
                    InstructionError,
                >((r.instruction, r.len))
            },
        start <= spec_records_end(buf, start) <= buf.len(),
        spec_records(buf, start).len() == 0 ==> spec_records_end(buf, start) == start,
        spec_records(buf, start).len() > 0 ==> spec_records_end(buf, start) == spec_records(
            buf,
            start,
        ).last().pos + spec_records(buf, start).last().len,
        spec_records(buf, start).len() <= buf.len() - start,
    decreases buf.len() - start,
{
    if start < buf.len() {
        let here = buf.skip(start as int);
        if let Ok((instruction, len)) = spec_parse(here) {
            lemma_parse_extend(here, Seq::empty());
            lemma_records_shape(buf, start + len);
            let first = LogRecord { instruction, pos: start, len };
            let rest = spec_records(buf, start + len);
            let all = spec_records(buf, start);
            assert(all =~= seq![first] + rest);
            assert forall|i: int| 0 <= i < all.len() implies (#[trigger] all[i]).pos == (if i
                == 0 {
                start
            } else {
                all[i - 1].pos + all[i - 1].len
            }) by {
                if i >= 1 {
                    assert(all[i] == rest[i - 1]);
                    if i >= 2 {
                        assert(all[i - 1] == rest[i - 2]);
                    }
                }
            }
            assert forall|i: int| 0 <= i < all.len() implies {
                let r = #[trigger] all[i];
                &&& start <= r.pos
                &&& r.len >= 1
                &&& r.pos + r.len <= buf.len()
                &&& spec_parse(buf.skip(r.pos as int)) == Ok::<
                    (InstructionView, nat),
                    InstructionError,
                >((r.instruction, r.len))
            } by {
                if i >= 1 {
                    assert(all[i] == rest[i - 1]);
                }
            }
            if rest.len() > 0 {
                assert(all.last() == rest.last());
            }
        }
    }
}

/// Reading the same buffer from the offset behind a record continues with the
/// records that follow it.
pub proof fn lemma_records_split(buf: Seq<u8>, start: nat, count: nat)
    requires
        start <= buf.len(),
        count <= spec_records(buf, start).len(),
    ensures
        spec_records(buf, start) == spec_records(buf, start).take(count as int) + spec_records(
            buf,
            if count == 0 {
                start
            } else {
                spec_records(buf, start)[count - 1].pos + spec_records(buf, start)[count - 1].len
            },
        ),
        spec_records_end(buf, start) == spec_records_end(
            buf,
            if count == 0 {
                start
            } else {
                spec_records(buf, start)[count - 1].pos + spec_records(buf, start)[count - 1].len
            },
        ),
    decreases count,
{
    let all = spec_records(buf, start);
    if count == 0 {
        assert(all =~= all.take(0) + all);
    } else {
        let here = buf.skip(start as int);
        let (instruction, len) = spec_parse(here).unwrap();
        lemma_parse_extend(here, Seq::empty());
        let rest = spec_records(buf, start + len);
        assert(all =~= seq![LogRecord { instruction, pos: start, len }] + rest);
        lemma_records_split(buf, start + len, (count - 1) as nat);
        if count >= 2 {
            assert(all[count - 1] == rest[count - 2]);
        }
        let next = all[count - 1].pos + all[count - 1].len;
        assert(all.take(count as int) =~= seq![LogRecord { instruction, pos: start, len }]
            + rest.take(count - 1));
        assert(all =~= all.take(count as int) + spec_records(buf, next as nat));
    }
}

/// Appending one instruction to a buffer that is instructions from its first
/// byte to its last appends one record to those that are read from it.
pub proof fn lemma_records_append(buf: Seq<u8>, start: nat, more: Seq<u8>)
    requires
        start <= buf.len(),
        spec_records_end(buf, start) == buf.len(),
        spec_parse(more) is Ok,
        spec_parse(more).unwrap().1 == more.len(),
    ensures
        spec_records(buf + more, start) == spec_records(buf, start).push(
            LogRecord {
                instruction: spec_parse(more).unwrap().0,
                pos: buf.len(),
                len: more.len(),
            },
        ),
        spec_records_end(buf + more, start) == buf.len() + more.len(),
    decreases buf.len() - start,
{
    let whole = buf + more;
    let added = LogRecord {
        instruction: spec_parse(more).unwrap().0,
        pos: buf.len(),
        len: more.len(),
    };
    lemma_parse_extend(more, Seq::empty());
    if start == buf.len() {
        assert(whole.skip(start as int) =~= more);
        assert(spec_records(whole, start + more.len()) =~= Seq::<LogRecord>::empty());
        assert(spec_records(buf, start) =~= Seq::<LogRecord>::empty());
        assert(spec_records(whole, start) =~= seq![added]);
        assert(spec_records_end(whole, start + more.len()) == start + more.len());
        assert(spec_records_end(whole, start) == start + more.len());
    } else {
        let here = buf.skip(start as int);
        assert(spec_parse(here) is Ok);
        let (instruction, len) = spec_parse(here).unwrap();
        lemma_parse_extend(here, more);
        assert(whole.skip(start as int) =~= here + more);
        lemma_records_append(buf, start + len, more);
        let first = seq![LogRecord { instruction, pos: start, len }];
        assert(spec_records(whole, start) =~= first + spec_records(whole, start + len));
        assert(spec_records(buf, start) =~= first + spec_records(buf, start + len));
        assert(spec_records(whole, start) =~= spec_records(buf, start).push(added));
        assert(spec_records_end(whole, start) == spec_records_end(whole, start + len));
        assert(spec_records_end(buf, start) == spec_records_end(buf, start + len));
    }
}

/// Bytes that are no instruction, appended to a buffer that is instructions
/// from its first byte to its last, add no record: reading halts in front of
/// them.
pub proof fn lemma_records_torn(buf: Seq<u8>, start: nat, tail: Seq<u8>)
    requires
        start <= buf.len(),
        spec_records_end(buf, start) == buf.len(),
        spec_parse(tail) is Err,
    ensures
        spec_records(buf + tail, start) == spec_records(buf, start),
        spec_records_end(buf + tail, start) == buf.len(),
    decreases buf.len() - start,
{
    let whole = buf + tail;
    if start == buf.len() {
        assert(whole.skip(start as int) =~= tail);
    } else {
        let here = buf.skip(start as int);
        assert(spec_parse(here) is Ok);
        let (instruction, len) = spec_parse(here).unwrap();
        lemma_parse_extend(here, tail);
        assert(whole.skip(start as int) =~= here + tail);
        lemma_records_torn(buf, start + len, tail);
    }
}

/// Cutting a buffer where reading it halts, or anywhere behind that place,
/// leaves the records that are read from it unchanged. Cut at that place, the
/// buffer is instructions from its first byte to its last.
pub proof fn lemma_records_cut(buf: Seq<u8>, start: nat, keep: int)
    requires
        start <= buf.len(),
        spec_records_end(buf, start) <= keep <= buf.len(),
    ensures
        spec_records(buf.take(keep), start) == spec_records(buf, start),
        keep == spec_records_end(buf, start) ==> spec_records_end(buf.take(keep), start) == keep,
    decreases buf.len() - start,
{
    let short = buf.take(keep);
    lemma_records_shape(buf, start);
    if start < buf.len() {
        let here = buf.skip(start as int);
        match spec_parse(here) {
            Ok((instruction, len)) => {
                lemma_parse_extend(here, Seq::empty());
                lemma_records_shape(buf, start + len);
                lemma_parse_cut(here, keep - start);
                assert(short.skip(start as int) =~= here.take(keep - start));
                lemma_records_cut(buf, start + len, keep);
            },
            Err(_) => {
                if start < keep {
                    // Reading halts at `start`, so nothing is cut that a
                    // record could have held.
                    assert(spec_records_end(buf, start) == start);
                    if keep == spec_records_end(buf, start) {
                    } else {
                        let cut = short.skip(start as int);
                        assert(cut =~= here.take(keep - start));
                        if spec_parse(cut) is Ok {
                            lemma_parse_extend(cut, here.skip(keep - start));
                            assert(cut + here.skip(keep - start) =~= here);
                        }
                    }
                }
            },
        }
    }
}

/// A reader of the instructions in a buffer.
pub struct CommandBufferParser {
    buffer: Vec<u8>,
    index: usize,
}

impl CommandBufferParser {
    /// The bytes that are read.
    pub closed spec fn bytes(&self) -> Seq<u8> {
        self.buffer@
    }

    /// The offset of the next byte to read.
    pub closed spec fn position(&self) -> nat {
        self.index as nat
    }

    /// A reader of `buffer` that starts at offset `index`.
    pub fn new(buffer: Vec<u8>, index: usize) -> (parser: CommandBufferParser)
        ensures
            parser.bytes() == buffer@,
            parser.position() == index,
    {
        CommandBufferParser { buffer, index }
    }

    /// Reads the next instruction and steps behind it. Where the buffer ends or
    /// no instruction can be read, the reader stays where it is and returns
    /// nothing, now and whenever it is asked again.
    pub fn next(&mut self) -> (item: Option<(Instruction, usize)>)
        ensures
            final(self).bytes() == old(self).bytes(),
            match item {
                Some((instruction, len)) => {
                    &&& old(self).position() < old(self).bytes().len()
                    &&& spec_parse(old(self).bytes().skip(old(self).position() as int)) == Ok::<
                        (InstructionView, nat),
                        InstructionError,
                    >((instruction@, len as nat))
                    &&& final(self).position() == old(self).position() + len
                    &&& final(self).position() <= old(self).bytes().len()
                    &&& len >= 1
                },
                None => {
                    &&& final(self).position() == old(self).position()
                    &&& old(self).position() >= old(self).bytes().len() || spec_parse(
                        old(self).bytes().skip(old(self).position() as int),
                    ) is Err
                },
            },
    {
        if self.index >= self.buffer.len() {
            return None;
        }
        let rest = slice_subrange(self.buffer.as_slice(), self.index, self.buffer.len());
        assert(rest@ =~= self.buffer@.skip(self.index as int));
        match Instruction::parse(rest) {
            Ok((instruction, len)) => {
                self.index = self.index + len;
                Some((instruction, len))
            },
            Err(_) => None,
        }
    }

    /// The offset of the next byte to read.
    pub fn offset(&self) -> (index: usize)
        ensures
            index == self.position(),
    {
        self.index
    }
}

} // verus!
