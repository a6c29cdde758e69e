//! The errors of the server, and their form on the wire.
//!
//! An error travels as one byte that tells its kind, followed by what the
//! kind carries: an error of the executor in its own form, a text, or
//! nothing.
use crate::storage::executor::errors::{lemma_executor_error_round_trip, ExecutorError};
use crate::utils::text::{
    lemma_text_round_trip, put_text, spec_take_text, spec_text_field, take_text,
};
use crate::storage::kvkey::append_bytes;
use vstd::prelude::*;
use vstd::slice::slice_subrange;
use vstd::string::*;
use vstd::utf8::encode_utf8;

verus! {

/// Why the server fails.
#[derive(Debug, Clone, PartialEq, Eq)]
pub enum ServerError {
    /// The HTTP server could not be started.
    TinyHTTPError,
    /// The executor refused.
    ExecutorError(ExecutorError),
    /// The body of a request could not be read; the text says why.
    BodyExtractionError(String),
    /// The URL of a request is not one the server knows.
    UrlParsingError,
    /// The request uses a method the server does not know.
    BodyParsingError,
    /// A number could not be read; the text says why.
    ParseIntError(String),
    /// A response could not be sent; the text says why.
    HttpResponseError(String),
    /// A predicate could not be read; the text says why.
    PredicateError(String),
    /// A message could not be handed to the engine.
    SenderError,
    /// No answer came from the engine; the text says why.
    ReceiverError(String),
    /// The TCP connection failed; the text says why.
    TCPServerError(String),
    /// A command could not be read; the text says why.
    CommandError(String),
    /// A thread of the server ended badly.
    ThreadError,
    /// The bytes of an error could not be read.
    ParseServerErrorToStringError,
}

/// The first byte of an error on the wire.
#[derive(Debug, Clone, Copy, PartialEq, Eq, Structural)]
pub enum ServerErrorPrefix {
    TinyHTTPError,
    ExecutorError,
    BodyExtractionError,
    UrlParsingError,
    BodyParsingError,
    ParseIntError,
    HttpResponseError,
    PredicateError,
    SenderError,
    ReceiverError,
    TCPServerError,
    CommandError,
    ThreadError,
    ParseServerErrorToStringError,
}

impl ServerErrorPrefix {
    /// The byte that stands for the kind.
    pub open spec fn spec_byte(self) -> u8 {
        match self {
            ServerErrorPrefix::TinyHTTPError => 0x01,
            ServerErrorPrefix::ExecutorError => 0x02,
            ServerErrorPrefix::BodyExtractionError => 0x03,
            ServerErrorPrefix::UrlParsingError => 0x04,
            ServerErrorPrefix::BodyParsingError => 0x05,
            ServerErrorPrefix::ParseIntError => 0x06,
            ServerErrorPrefix::HttpResponseError => 0x07,
            ServerErrorPrefix::PredicateError => 0x08,
            ServerErrorPrefix::SenderError => 0x09,
            ServerErrorPrefix::ReceiverError => 0x0A,
            ServerErrorPrefix::TCPServerError => 0x0B,
            ServerErrorPrefix::CommandError => 0x0C,
            ServerErrorPrefix::ThreadError => 0x0D,
            ServerErrorPrefix::ParseServerErrorToStringError => 0x0E,
        }
    }

    /// The byte that stands for the kind.
    pub fn byte(&self) -> (byte: u8)
        ensures
            byte == self.spec_byte(),
    {
        match self {
            ServerErrorPrefix::TinyHTTPError => 0x01,
            ServerErrorPrefix::ExecutorError => 0x02,
            ServerErrorPrefix::BodyExtractionError => 0x03,
            ServerErrorPrefix::UrlParsingError => 0x04,
            ServerErrorPrefix::BodyParsingError => 0x05,
            ServerErrorPrefix::ParseIntError => 0x06,
            ServerErrorPrefix::HttpResponseError => 0x07,
            ServerErrorPrefix::PredicateError => 0x08,
            ServerErrorPrefix::SenderError => 0x09,
            ServerErrorPrefix::ReceiverError => 0x0A,
            ServerErrorPrefix::TCPServerError => 0x0B,
            ServerErrorPrefix::CommandError => 0x0C,
            ServerErrorPrefix::ThreadError => 0x0D,
            ServerErrorPrefix::ParseServerErrorToStringError => 0x0E,
        }
    }
}

pub type ServerResult<S> = Result<S, ServerError>;

/// Whether an error whose first byte is `byte` carries a text.
pub open spec fn carries_text(byte: u8) -> bool {
    byte == 0x03 || byte == 0x06 || byte == 0x07 || byte == 0x08 || byte == 0x0A || byte == 0x0B
        || byte == 0x0C
}

/// The name that is read for an error whose first byte is `byte`, where such
/// an error carries nothing. A byte that stands for no kind reads as the
/// error that bytes could not be read.
pub open spec fn spec_name_of(byte: u8) -> Seq<char> {
    if byte == 0x01 {
        "ServerError::TinyHTTPError"@
    } else if byte == 0x04 {
        "ServerError::UrlParsingError"@
    } else if byte == 0x05 {
        "ServerError::BodyParsingError"@
    } else if byte == 0x09 {
        "ServerError::SenderError"@
    } else if byte == 0x0D {
        "ServerError::ThreadError"@
    } else {
        "ServerError::ParseServerErrorToStringError"@
    }
}

impl ServerError {
    /// The kind of the error.
    pub open spec fn spec_prefix(self) -> ServerErrorPrefix {
        match self {
            ServerError::TinyHTTPError => ServerErrorPrefix::TinyHTTPError,
            ServerError::ExecutorError(_) => ServerErrorPrefix::ExecutorError,
            ServerError::BodyExtractionError(_) => ServerErrorPrefix::BodyExtractionError,
            ServerError::UrlParsingError => ServerErrorPrefix::UrlParsingError,
            ServerError::BodyParsingError => ServerErrorPrefix::BodyParsingError,
            ServerError::ParseIntError(_) => ServerErrorPrefix::ParseIntError,
            ServerError::HttpResponseError(_) => ServerErrorPrefix::HttpResponseError,
            ServerError::PredicateError(_) => ServerErrorPrefix::PredicateError,
            ServerError::SenderError => ServerErrorPrefix::SenderError,
            ServerError::ReceiverError(_) => ServerErrorPrefix::ReceiverError,
            ServerError::TCPServerError(_) => ServerErrorPrefix::TCPServerError,
            ServerError::CommandError(_) => ServerErrorPrefix::CommandError,
            ServerError::ThreadError => ServerErrorPrefix::ThreadError,
            ServerError::ParseServerErrorToStringError => ServerErrorPrefix::ParseServerErrorToStringError,
        }
    }

    /// The text that the error carries on the wire, for the kinds that carry
    /// one.
    pub open spec fn spec_payload(self) -> Option<Seq<char>> {
        match self {
            ServerError::BodyExtractionError(text) => Some(text@),
            ServerError::ParseIntError(text) => Some(text@),
            ServerError::HttpResponseError(text) => Some(text@),
            ServerError::PredicateError(text) => Some(text@),
            ServerError::ReceiverError(text) => Some(text@),
            ServerError::TCPServerError(text) => Some(text@),
            ServerError::CommandError(text) => Some(text@),
            _ => None,
        }
    }

    /// The error as it travels.
    pub open spec fn spec_marshal(self) -> Seq<u8> {
        match self {
            ServerError::ExecutorError(e) => seq![self.spec_prefix().spec_byte()]
                + e.spec_marshal(),
            other => match other.spec_payload() {
                Some(text) => seq![self.spec_prefix().spec_byte()] + spec_text_field(text),
                None => seq![self.spec_prefix().spec_byte()],
            },
        }
    }

    /// The text that reading the error from the wire gives: the text it
    /// carries, or its name.
    pub open spec fn spec_wire_text(self) -> Seq<char> {
        match self {
            ServerError::ExecutorError(e) => e.spec_wire_text(),
            other => match other.spec_payload() {
                Some(text) => text,
                None => spec_name_of(self.spec_prefix().spec_byte()),
            },
        }
    }

    /// The text that stands for the error.
    pub open spec fn spec_text(self) -> Seq<char> {
        match self {
            ServerError::ExecutorError(e) => "ServerError::ExecutorError::"@ + e.spec_text(),
            ServerError::BodyExtractionError(text) => "ServerError::BodyExtractionError::"@
                + text@,
            ServerError::ParseIntError(text) => "ServerError::ParseIntError::"@ + text@,
            ServerError::HttpResponseError(text) => "ServerError::HttpResponseError::"@ + text@,
            ServerError::PredicateError(text) => "ServerError::PredicateError::"@ + text@,
            ServerError::ReceiverError(text) => "ServerError::ReceiverError::"@ + text@,
            ServerError::TCPServerError(text) => "ServerError::TCPServerError::"@ + text@,
            ServerError::CommandError(text) => "ServerError::CommandError::"@ + text@,
            other => spec_name_of(other.spec_prefix().spec_byte()),
        }
    }

    /// What reading an error from the front of `data` gives: a text and the
    /// count of bytes that were read, or the reason there is none.
    pub open spec fn spec_parse_to_string(data: Seq<u8>) -> Result<(Seq<char>, nat), ServerError> {
        if data.len() == 0 {
            Err(ServerError::ParseServerErrorToStringError)
        } else if data[0] == ServerErrorPrefix::ExecutorError.spec_byte() {
            match ExecutorError::spec_parse_to_string(data.skip(1)) {
                Ok((text, used)) => Ok((text, (1 + used) as nat)),
                Err(e) => Err(ServerError::ExecutorError(e)),
            }
        } else if carries_text(data[0]) {
            match spec_take_text(data.skip(1)) {
                Some((text, used)) => Ok((text, (1 + used) as nat)),
                None => Err(ServerError::ParseServerErrorToStringError),
            }
        } else {
            Ok((spec_name_of(data[0]), 1))
        }
    }

    /// The text that stands for the error.
    pub fn to_string(&self) -> (text: String)
        ensures
            text@ == self.spec_text(),
    {
        match self {
            ServerError::TinyHTTPError => String::from_str("ServerError::TinyHTTPError"),
            ServerError::ExecutorError(e) => String::from_str(
                "ServerError::ExecutorError::",
            ).concat(e.to_string().as_str()),
            ServerError::BodyExtractionError(text) => String::from_str(
                "ServerError::BodyExtractionError::",
            ).concat(text.as_str()),
            ServerError::UrlParsingError => String::from_str("ServerError::UrlParsingError"),
            ServerError::BodyParsingError => String::from_str("ServerError::BodyParsingError"),
            ServerError::ParseIntError(text) => String::from_str(
                "ServerError::ParseIntError::",
            ).concat(text.as_str()),
            ServerError::HttpResponseError(text) => String::from_str(
                "ServerError::HttpResponseError::",
            ).concat(text.as_str()),
            ServerError::PredicateError(text) => String::from_str(
                "ServerError::PredicateError::",
            ).concat(text.as_str()),
            ServerError::SenderError => String::from_str("ServerError::SenderError"),
            ServerError::ReceiverError(text) => String::from_str(
                "ServerError::ReceiverError::",
            ).concat(text.as_str()),
            ServerError::TCPServerError(text) => String::from_str(
                "ServerError::TCPServerError::",
            ).concat(text.as_str()),
            ServerError::CommandError(text) => String::from_str(
                "ServerError::CommandError::",
            ).concat(text.as_str()),
            ServerError::ThreadError => String::from_str("ServerError::ThreadError"),
            ServerError::ParseServerErrorToStringError => String::from_str(
                "ServerError::ParseServerErrorToStringError",
            ),
        }
    }

    /// Writes the error as it travels: the byte of its kind, then what it
    /// carries.
    pub fn marshal(&self) -> (out: Vec<u8>)
        ensures
            out@ == self.spec_marshal(),
            ServerError::spec_parse_to_string(out@) == Ok::<(Seq<char>, nat), ServerError>(
                (self.spec_wire_text(), out@.len()),
            ),
    {
        let mut out: Vec<u8> = Vec::new();
        match self {
            ServerError::TinyHTTPError => {
                out.push(ServerErrorPrefix::TinyHTTPError.byte());
            },
            ServerError::ExecutorError(e) => {
                out.push(ServerErrorPrefix::ExecutorError.byte());
                let inner = e.marshal();
                append_bytes(&mut out, inner.as_slice());
            },
            ServerError::BodyExtractionError(text) => {
                out.push(ServerErrorPrefix::BodyExtractionError.byte());
                put_text(&mut out, text.as_str());
            },
            ServerError::UrlParsingError => {
                out.push(ServerErrorPrefix::UrlParsingError.byte());
            },
            ServerError::BodyParsingError => {
                out.push(ServerErrorPrefix::BodyParsingError.byte());
            },
            ServerError::ParseIntError(text) => {
                out.push(ServerErrorPrefix::ParseIntError.byte());
                put_text(&mut out, text.as_str());
            },
            ServerError::HttpResponseError(text) => {
                out.push(ServerErrorPrefix::HttpResponseError.byte());
                put_text(&mut out, text.as_str());
            },
            ServerError::PredicateError(text) => {
                out.push(ServerErrorPrefix::PredicateError.byte());
                put_text(&mut out, text.as_str());
            },
            ServerError::SenderError => {
                out.push(ServerErrorPrefix::SenderError.byte());
            },
            ServerError::ReceiverError(text) => {
                out.push(ServerErrorPrefix::ReceiverError.byte());
                put_text(&mut out, text.as_str());
            },
            ServerError::TCPServerError(text) => {
                out.push(ServerErrorPrefix::TCPServerError.byte());
                put_text(&mut out, text.as_str());
            },
            ServerError::CommandError(text) => {
                out.push(ServerErrorPrefix::CommandError.byte());
                put_text(&mut out, text.as_str());
            },
            ServerError::ThreadError => {
                out.push(ServerErrorPrefix::ThreadError.byte());
            },
            ServerError::ParseServerErrorToStringError => {
                out.push(ServerErrorPrefix::ParseServerErrorToStringError.byte());
            },
        }
        assert(out@ =~= self.spec_marshal());
        proof {
            lemma_server_error_round_trip(*self, Seq::empty());
            assert(out@ + Seq::<u8>::empty() =~= out@);
        }
        out
    }

    /// Reads an error from the front of `data`: the text it carries, or its
    /// name if it carries none, and the count of bytes that were read.
    pub fn parse_to_string(data: &[u8]) -> (result: Result<(String, usize), ServerError>)
        ensures
            match result {
                Ok((text, used)) => ServerError::spec_parse_to_string(data@) == Ok::<
                    (Seq<char>, nat),
                    ServerError,
                >((text@, used as nat)) && used <= data@.len(),
                Err(e) => ServerError::spec_parse_to_string(data@) == Err::<
                    (Seq<char>, nat),
                    ServerError,
                >(e),
            },
    {
        if data.len() == 0 {
            return Err(ServerError::ParseServerErrorToStringError);
        }
        let prefix: u8 = data[0];
        if prefix == ServerErrorPrefix::ExecutorError.byte() {
            let rest = slice_subrange(data, 1, data.len());
            assert(rest@ =~= data@.skip(1));
            match ExecutorError::parse_to_string(rest) {
                Ok((text, used)) => Ok((text, 1 + used)),
                Err(e) => Err(ServerError::ExecutorError(e)),
            }
        } else if prefix == 0x03 || prefix == 0x06 || prefix == 0x07 || prefix == 0x08 || prefix
            == 0x0A || prefix == 0x0B || prefix == 0x0C {
            match take_text(data, 1) {
                Some((text, used)) => Ok((text, 1 + used)),
                None => Err(ServerError::ParseServerErrorToStringError),
            }
        } else if prefix == 0x01 {
            Ok((String::from_str("ServerError::TinyHTTPError"), 1))
        } else if prefix == 0x04 {
            Ok((String::from_str("ServerError::UrlParsingError"), 1))
        } else if prefix == 0x05 {
            Ok((String::from_str("ServerError::BodyParsingError"), 1))
        } else if prefix == 0x09 {
            Ok((String::from_str("ServerError::SenderError"), 1))
        } else if prefix == 0x0D {
            Ok((String::from_str("ServerError::ThreadError"), 1))
        } else {
            Ok((String::from_str("ServerError::ParseServerErrorToStringError"), 1))
        }
    }
}

/// Reading an error that was written gives the text it carries, or its name
/// if it carries none, and takes in all that was written, whatever follows.
pub proof fn lemma_server_error_round_trip(error: ServerError, more: Seq<u8>)
    requires
        error.spec_payload() matches Some(text) ==> encode_utf8(text).len() <= u64::MAX,
        error matches ServerError::ExecutorError(e) ==> (e.spec_payload() matches Some(text)
            ==> encode_utf8(text).len() <= u64::MAX),
    ensures
        ServerError::spec_parse_to_string(error.spec_marshal() + more) == Ok::<
            (Seq<char>, nat),
            ServerError,
        >((error.spec_wire_text(), error.spec_marshal().len())),
{
    let data = error.spec_marshal() + more;
    assert(data[0] == error.spec_prefix().spec_byte());
    match error {
        ServerError::ExecutorError(e) => {
            assert(data.skip(1) =~= e.spec_marshal() + more);
            lemma_executor_error_round_trip(e, more);
        },
        _ => {
            match error.spec_payload() {
                Some(text) => {
                    assert(data.skip(1) =~= spec_text_field(text) + more);
                    lemma_text_round_trip(text, more);
                },
                None => {},
            }
        },
    }
}

} // verus!
