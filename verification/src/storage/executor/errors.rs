//! The errors of the executor, and their form on the wire.
//!
//! An error travels as one byte that tells its kind, followed by a text for
//! the kinds that carry one.
use crate::storage::errors::{spec_kv_error_text, KVError};
use crate::utils::text::{
    lemma_text_round_trip, put_text, spec_take_text, spec_text_field, take_text,
};
use vstd::prelude::*;
use vstd::string::*;
use vstd::utf8::encode_utf8;

verus! {

/// Why the executor refuses a request.
#[derive(Debug, Clone, PartialEq, Eq)]
pub enum ExecutorError {
    /// The engine refused.
    KVError(KVError),
    /// A content could not be read or written; the text says why.
    UnitContentError(String),
    /// A number could not be read; the text says why.
    ParseIntError(String),
    /// A command could not be read; the text says why.
    CommandError(String),
    /// A predicate could not be read; the text says why.
    PredicateError(String),
    /// A key is not acceptable; the text says why.
    KVKeyError(String),
    /// The engine answered what the request cannot be answered with.
    UnexpectedOutcome,
    /// The bytes of an error could not be read.
    ParseExecutorErrorToStringError,
}

/// The first byte of an error on the wire.
#[derive(Debug, Clone, Copy, PartialEq, Eq, Structural)]
pub enum ExecutorErrorPrefix {
    KVError,
    UnitContentError,
    ParseIntError,
    CommandError,
    PredicateError,
    KVKeyError,
    UnexpectedOutcome,
    ParseExecutorErrorToStringError,
}

impl ExecutorErrorPrefix {
    /// The byte that stands for the kind.
    pub open spec fn spec_byte(self) -> u8 {
        match self {
            ExecutorErrorPrefix::KVError => 0x01,
            ExecutorErrorPrefix::UnitContentError => 0x02,
            ExecutorErrorPrefix::ParseIntError => 0x03,
            ExecutorErrorPrefix::CommandError => 0x04,
            ExecutorErrorPrefix::PredicateError => 0x05,
            ExecutorErrorPrefix::KVKeyError => 0x06,
            ExecutorErrorPrefix::UnexpectedOutcome => 0x07,
            ExecutorErrorPrefix::ParseExecutorErrorToStringError => 0x08,
        }
    }

    /// The byte that stands for the kind.
    pub fn byte(&self) -> (byte: u8)
        ensures
            byte == self.spec_byte(),
    {
        match self {
            ExecutorErrorPrefix::KVError => 0x01,
            ExecutorErrorPrefix::UnitContentError => 0x02,
            ExecutorErrorPrefix::ParseIntError => 0x03,
            ExecutorErrorPrefix::CommandError => 0x04,
            ExecutorErrorPrefix::PredicateError => 0x05,
            ExecutorErrorPrefix::KVKeyError => 0x06,
            ExecutorErrorPrefix::UnexpectedOutcome => 0x07,
            ExecutorErrorPrefix::ParseExecutorErrorToStringError => 0x08,
        }
    }
}

pub type ExecutorResult<T> = Result<T, ExecutorError>;

impl ExecutorError {
    /// The kind of the error.
    pub open spec fn spec_prefix(self) -> ExecutorErrorPrefix {
        match self {
            ExecutorError::KVError(_) => ExecutorErrorPrefix::KVError,
            ExecutorError::UnitContentError(_) => ExecutorErrorPrefix::UnitContentError,
            ExecutorError::ParseIntError(_) => ExecutorErrorPrefix::ParseIntError,
            ExecutorError::CommandError(_) => ExecutorErrorPrefix::CommandError,
            ExecutorError::PredicateError(_) => ExecutorErrorPrefix::PredicateError,
            ExecutorError::KVKeyError(_) => ExecutorErrorPrefix::KVKeyError,
            ExecutorError::UnexpectedOutcome => ExecutorErrorPrefix::UnexpectedOutcome,
            ExecutorError::ParseExecutorErrorToStringError => ExecutorErrorPrefix::ParseExecutorErrorToStringError,
        }
    }

    /// The text that the error carries on the wire, for the kinds that carry
    /// one.
    pub open spec fn spec_payload(self) -> Option<Seq<char>> {
        match self {
            ExecutorError::KVError(e) => Some(spec_kv_error_text(e)),
            ExecutorError::UnitContentError(text) => Some(text@),
            ExecutorError::ParseIntError(text) => Some(text@),
            ExecutorError::CommandError(text) => Some(text@),
            ExecutorError::PredicateError(text) => Some(text@),
            ExecutorError::KVKeyError(text) => Some(text@),
            ExecutorError::UnexpectedOutcome => None,
            ExecutorError::ParseExecutorErrorToStringError => None,
        }
    }

    /// The text that reading the error from the wire gives: the text it
    /// carries, or its name.
    pub open spec fn spec_wire_text(self) -> Seq<char> {
        match self {
            ExecutorError::UnexpectedOutcome => "ExecutorError::UnexpectedOutcome"@,
            ExecutorError::ParseExecutorErrorToStringError => "ExecutorError::ParseExecutorErrorToStringError"@,
            other => other.spec_payload().unwrap(),
        }
    }

    /// The text that stands for the error.
    pub open spec fn spec_text(self) -> Seq<char> {
        match self {
            ExecutorError::KVError(e) => "ExecutorError::KVError::"@ + spec_kv_error_text(e),
            ExecutorError::UnitContentError(text) => "ExecutorError::UnitContentError::"@ + text@,
            ExecutorError::ParseIntError(text) => "ExecutorError::ParseIntError::"@ + text@,
            ExecutorError::CommandError(text) => "ExecutorError::CommandError::"@ + text@,
            ExecutorError::PredicateError(text) => "ExecutorError::PredicateError::"@ + text@,
            ExecutorError::KVKeyError(text) => "ExecutorError::KVKeyError::"@ + text@,
            ExecutorError::UnexpectedOutcome => "ExecutorError::UnexpectedOutcome"@,
            ExecutorError::ParseExecutorErrorToStringError => "ExecutorError::ParseExecutorErrorToStringError"@,
        }
    }

    /// The error as it travels.
    pub open spec fn spec_marshal(self) -> Seq<u8> {
        match self.spec_payload() {
            Some(text) => seq![self.spec_prefix().spec_byte()] + spec_text_field(text),
            None => seq![self.spec_prefix().spec_byte()],
        }
    }

    /// What reading an error from the front of `data` gives: a text and the
    /// count of bytes that were read, or the reason there is none.
    pub open spec fn spec_parse_to_string(data: Seq<u8>) -> Result<(Seq<char>, nat), ExecutorError> {
        if data.len() == 0 {
            Err(ExecutorError::ParseExecutorErrorToStringError)
        } else if data[0] == ExecutorErrorPrefix::UnexpectedOutcome.spec_byte() {
            Ok(("ExecutorError::UnexpectedOutcome"@, 1))
        } else if data[0] == ExecutorErrorPrefix::ParseExecutorErrorToStringError.spec_byte() {
            Ok(("ExecutorError::ParseExecutorErrorToStringError"@, 1))
        } else {
            match spec_take_text(data.skip(1)) {
                Some((text, used)) => Ok((text, (1 + used) as nat)),
                None => Err(ExecutorError::ParseExecutorErrorToStringError),
            }
        }
    }

    /// The text that stands for the error.
    pub fn to_string(&self) -> (text: String)
        ensures
            text@ == self.spec_text(),
    {
        match self {
            ExecutorError::KVError(e) => String::from_str("ExecutorError::KVError::").concat(
                e.to_string().as_str(),
            ),
            ExecutorError::UnitContentError(text) => String::from_str(
                "ExecutorError::UnitContentError::",
            ).concat(text.as_str()),
            ExecutorError::ParseIntError(text) => String::from_str(
                "ExecutorError::ParseIntError::",
            ).concat(text.as_str()),
            ExecutorError::CommandError(text) => String::from_str(
                "ExecutorError::CommandError::",
            ).concat(text.as_str()),
            ExecutorError::PredicateError(text) => String::from_str(
                "ExecutorError::PredicateError::",
            ).concat(text.as_str()),
            ExecutorError::KVKeyError(text) => String::from_str(
                "ExecutorError::KVKeyError::",
            ).concat(text.as_str()),
            ExecutorError::UnexpectedOutcome => String::from_str(
                "ExecutorError::UnexpectedOutcome",
            ),
            ExecutorError::ParseExecutorErrorToStringError => String::from_str(
                "ExecutorError::ParseExecutorErrorToStringError",
            ),
        }
    }

    /// Writes the error as it travels: the byte of its kind, then the text it
    /// carries, if it carries one.
    pub fn marshal(&self) -> (out: Vec<u8>)
        ensures
            out@ == self.spec_marshal(),
            self.spec_payload() matches Some(text) ==> encode_utf8(text).len() <= usize::MAX,
            ExecutorError::spec_parse_to_string(out@) == Ok::<(Seq<char>, nat), ExecutorError>(
                (self.spec_wire_text(), out@.len()),
            ),
    {
        let mut out: Vec<u8> = Vec::new();
        match self {
            ExecutorError::KVError(e) => {
                out.push(ExecutorErrorPrefix::KVError.byte());
                put_text(&mut out, e.to_string().as_str());
            },
            ExecutorError::UnitContentError(text) => {
                out.push(ExecutorErrorPrefix::UnitContentError.byte());
                put_text(&mut out, text.as_str());
            },
            ExecutorError::ParseIntError(text) => {
                out.push(ExecutorErrorPrefix::ParseIntError.byte());
                put_text(&mut out, text.as_str());
            },
            ExecutorError::CommandError(text) => {
                out.push(ExecutorErrorPrefix::CommandError.byte());
                put_text(&mut out, text.as_str());
            },
            ExecutorError::PredicateError(text) => {
                out.push(ExecutorErrorPrefix::PredicateError.byte());
                put_text(&mut out, text.as_str());
            },
            ExecutorError::KVKeyError(text) => {
                out.push(ExecutorErrorPrefix::KVKeyError.byte());
                put_text(&mut out, text.as_str());
            },
            ExecutorError::UnexpectedOutcome => {
                out.push(ExecutorErrorPrefix::UnexpectedOutcome.byte());
            },
            ExecutorError::ParseExecutorErrorToStringError => {
                out.push(ExecutorErrorPrefix::ParseExecutorErrorToStringError.byte());
            },
        }
        assert(out@ =~= self.spec_marshal());
        proof {
            lemma_executor_error_round_trip(*self, Seq::empty());
            assert(out@ + Seq::<u8>::empty() =~= out@);
        }
        out
    }

    /// Reads an error from the front of `data`: the text it carries, or its
    /// name if it carries none, and the count of bytes that were read.
    pub fn parse_to_string(data: &[u8]) -> (result: Result<(String, usize), ExecutorError>)
        ensures
            match result {
                Ok((text, used)) => ExecutorError::spec_parse_to_string(data@) == Ok::<
                    (Seq<char>, nat),
                    ExecutorError,
                >((text@, used as nat)) && used <= data@.len(),
                Err(e) => ExecutorError::spec_parse_to_string(data@) == Err::<
                    (Seq<char>, nat),
                    ExecutorError,
                >(e),
            },
    {
        if data.len() == 0 {
            return Err(ExecutorError::ParseExecutorErrorToStringError);
        }
        let prefix: u8 = data[0];
        if prefix == ExecutorErrorPrefix::UnexpectedOutcome.byte() {
            Ok((String::from_str("ExecutorError::UnexpectedOutcome"), 1))
        } else if prefix == ExecutorErrorPrefix::ParseExecutorErrorToStringError.byte() {
            Ok((String::from_str("ExecutorError::ParseExecutorErrorToStringError"), 1))
        } else {
            match take_text(data, 1) {
                Some((text, used)) => Ok((text, 1 + used)),
                None => Err(ExecutorError::ParseExecutorErrorToStringError),
            }
        }
    }
}

/// Reading an error that was written gives the text it carries, or its name
/// if it carries none, and takes in all that was written, whatever follows.
pub proof fn lemma_executor_error_round_trip(error: ExecutorError, more: Seq<u8>)
    requires
        error.spec_payload() matches Some(text) ==> encode_utf8(text).len() <= u64::MAX,
    ensures
        ExecutorError::spec_parse_to_string(error.spec_marshal() + more) == Ok::<
            (Seq<char>, nat),
            ExecutorError,
        >((error.spec_wire_text(), error.spec_marshal().len())),
{
    let data = error.spec_marshal() + more;
    assert(data[0] == error.spec_prefix().spec_byte());
    match error.spec_payload() {
        Some(text) => {
            assert(data.skip(1) =~= spec_text_field(text) + more);
            lemma_text_round_trip(text, more);
        },
        None => {},
    }
}

} // verus!
