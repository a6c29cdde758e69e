use immuxsys::server::errors::{ServerError, ServerErrorPrefix};
use immuxsys::storage::chain_height::ChainHeightError;
use immuxsys::storage::errors::KVError;
use immuxsys::storage::executor::errors::{ExecutorError, ExecutorErrorPrefix};
use immuxsys::storage::instruction::InstructionError;
use immuxsys::storage::transaction_manager::TransactionManagerError;
use immuxsys::utils::text::{put_text, take_text};

#[test]
fn kv_error_texts() {
    assert_eq!(KVError::RevertOutOfRange.to_string(), "KVError::RevertOutOfRange");
    assert_eq!(KVError::CorruptLog.to_string(), "KVError::CorruptLog");
    assert_eq!(
        KVError::PointToUnexpectedInstruction.to_string(),
        "KVError::PointToUnexpectedInstruction"
    );
    assert_eq!(
        KVError::IOError(String::from("disk full")).to_string(),
        "KVError::IOError::disk full"
    );
    assert_eq!(
        KVError::ParseIntError(String::from("bad digit")).to_string(),
        "KVError::ParseIntError::bad digit"
    );
    assert_eq!(
        KVError::InstructionError(InstructionError::KeyTooLong).to_string(),
        "KVError::InstructionError::InstructionError::KeyTooLong"
    );
    assert_eq!(
        KVError::ChainHeightError(ChainHeightError::ChainHeightOutOfRange).to_string(),
        "KVError::ChainHeightError::ChainHeightError::ChainHeightOutOfRange"
    );
    assert_eq!(
        KVError::TransactionManagerError(TransactionManagerError::TransactionNotAlive).to_string(),
        "KVError::TransactionManagerError::TransactionManagerError::TransactionNotAlive"
    );
    assert_eq!(
        TransactionManagerError::TransactionIdOutOfRange.to_string(),
        "TransactionManagerError::TransactionIdOutOfRange"
    );
    assert_eq!(InstructionError::UnknownTag.to_string(), "InstructionError::UnknownTag");
    assert_eq!(InstructionError::Truncated.to_string(), "InstructionError::Truncated");
    assert_eq!(InstructionError::VarintOverflow.to_string(), "InstructionError::VarintOverflow");
}

#[test]
fn text_field_exact_bytes() {
    let mut out = vec![0xee];
    put_text(&mut out, "héllo");
    assert_eq!(out, vec![0xee, 0x06, 0x68, 0xc3, 0xa9, 0x6c, 0x6c, 0x6f]);
    assert_eq!(take_text(&out, 1), Some((String::from("héllo"), 7)));
    assert_eq!(take_text(&out, 8), None);
    assert_eq!(take_text(&[0x02, 0x61], 0), None);
    assert_eq!(take_text(&[0x02, 0xc3, 0x28], 0), None);
    assert_eq!(take_text(&[0x00, 0xff], 0), Some((String::new(), 1)));
}

#[test]
fn executor_error_marshal_exact_bytes() {
    assert_eq!(ExecutorError::UnexpectedOutcome.marshal(), vec![0x07]);
    assert_eq!(ExecutorError::ParseExecutorErrorToStringError.marshal(), vec![0x08]);
    assert_eq!(
        ExecutorError::CommandError(String::from("ab")).marshal(),
        vec![0x04, 0x02, 0x61, 0x62]
    );
    let inner = "KVError::RevertOutOfRange";
    let mut expected = vec![0x01, inner.len() as u8];
    expected.extend_from_slice(inner.as_bytes());
    assert_eq!(ExecutorError::KVError(KVError::RevertOutOfRange).marshal(), expected);
}

fn executor_errors() -> Vec<(ExecutorError, &'static str)> {
    vec![
        (ExecutorError::KVError(KVError::CorruptLog), "KVError::CorruptLog"),
        (ExecutorError::UnitContentError(String::from("unit")), "unit"),
        (ExecutorError::ParseIntError(String::from("int")), "int"),
        (ExecutorError::CommandError(String::from("command")), "command"),
        (ExecutorError::PredicateError(String::from("predicate")), "predicate"),
        (ExecutorError::KVKeyError(String::from("")), ""),
        (ExecutorError::UnexpectedOutcome, "ExecutorError::UnexpectedOutcome"),
        (
            ExecutorError::ParseExecutorErrorToStringError,
            "ExecutorError::ParseExecutorErrorToStringError",
        ),
    ]
}

#[test]
fn executor_error_round_trip() {
    for (error, text) in executor_errors() {
        let mut bytes = error.marshal();
        let length = bytes.len();
        assert_eq!(ExecutorError::parse_to_string(&bytes), Ok((String::from(text), length)));
        bytes.extend_from_slice(&[0x01, 0x02]);
        assert_eq!(ExecutorError::parse_to_string(&bytes), Ok((String::from(text), length)));
    }
}

#[test]
fn executor_error_parse_failures() {
    let failed = Err(ExecutorError::ParseExecutorErrorToStringError);
    assert_eq!(ExecutorError::parse_to_string(&[]), failed);
    assert_eq!(ExecutorError::parse_to_string(&[0x01]), failed);
    assert_eq!(ExecutorError::parse_to_string(&[0x01, 0x05, 0x61]), failed);
    assert_eq!(ExecutorError::parse_to_string(&[0x02, 0x01, 0xff]), failed);
    assert_eq!(ExecutorError::parse_to_string(&[0x55, 0x01, 0x61]), Ok((String::from("a"), 3)));
}

#[test]
fn executor_error_texts_and_prefixes() {
    assert_eq!(
        ExecutorError::KVError(KVError::CorruptLog).to_string(),
        "ExecutorError::KVError::KVError::CorruptLog"
    );
    assert_eq!(
        ExecutorError::KVKeyError(String::from("empty")).to_string(),
        "ExecutorError::KVKeyError::empty"
    );
    assert_eq!(ExecutorErrorPrefix::KVError.byte(), 0x01);
    assert_eq!(ExecutorErrorPrefix::UnitContentError.byte(), 0x02);
    assert_eq!(ExecutorErrorPrefix::ParseIntError.byte(), 0x03);
    assert_eq!(ExecutorErrorPrefix::CommandError.byte(), 0x04);
    assert_eq!(ExecutorErrorPrefix::PredicateError.byte(), 0x05);
    assert_eq!(ExecutorErrorPrefix::KVKeyError.byte(), 0x06);
    assert_eq!(ExecutorErrorPrefix::UnexpectedOutcome.byte(), 0x07);
    assert_eq!(ExecutorErrorPrefix::ParseExecutorErrorToStringError.byte(), 0x08);
}

fn server_errors() -> Vec<(ServerError, &'static str, u8)> {
    vec![
        (ServerError::TinyHTTPError, "ServerError::TinyHTTPError", 0x01),
        (
            ServerError::ExecutorError(ExecutorError::UnexpectedOutcome),
            "ExecutorError::UnexpectedOutcome",
            0x02,
        ),
        (ServerError::ExecutorError(ExecutorError::CommandError(String::from("c"))), "c", 0x02),
        (ServerError::BodyExtractionError(String::from("body")), "body", 0x03),
        (ServerError::UrlParsingError, "ServerError::UrlParsingError", 0x04),
        (ServerError::BodyParsingError, "ServerError::BodyParsingError", 0x05),
        (ServerError::ParseIntError(String::from("int")), "int", 0x06),
        (ServerError::HttpResponseError(String::from("http")), "http", 0x07),
        (ServerError::PredicateError(String::from("predicate")), "predicate", 0x08),
        (ServerError::SenderError, "ServerError::SenderError", 0x09),
        (ServerError::ReceiverError(String::from("receiver")), "receiver", 0x0a),
        (ServerError::TCPServerError(String::from("tcp")), "tcp", 0x0b),
        (ServerError::CommandError(String::from("command")), "command", 0x0c),
        (ServerError::ThreadError, "ServerError::ThreadError", 0x0d),
        (
            ServerError::ParseServerErrorToStringError,
            "ServerError::ParseServerErrorToStringError",
            0x0e,
        ),
    ]
}

#[test]
fn server_error_round_trip() {
    for (error, text, prefix) in server_errors() {
        let mut bytes = error.marshal();
        let length = bytes.len();
        assert_eq!(bytes[0], prefix);
        assert_eq!(ServerError::parse_to_string(&bytes), Ok((String::from(text), length)));
        bytes.extend_from_slice(&[0xff]);
        assert_eq!(ServerError::parse_to_string(&bytes), Ok((String::from(text), length)));
    }
}

#[test]
fn server_error_marshal_exact_bytes() {
    assert_eq!(ServerError::ThreadError.marshal(), vec![0x0d]);
    assert_eq!(
        ServerError::TCPServerError(String::from("no")).marshal(),
        vec![0x0b, 0x02, 0x6e, 0x6f]
    );
    assert_eq!(
        ServerError::ExecutorError(ExecutorError::KVKeyError(String::from("k"))).marshal(),
        vec![0x02, 0x06, 0x01, 0x6b]
    );
}

#[test]
fn server_error_parse_failures() {
    assert_eq!(ServerError::parse_to_string(&[]), Err(ServerError::ParseServerErrorToStringError));
    assert_eq!(
        ServerError::parse_to_string(&[0x03, 0x09]),
        Err(ServerError::ParseServerErrorToStringError)
    );
    assert_eq!(
        ServerError::parse_to_string(&[0x02]),
        Err(ServerError::ExecutorError(ExecutorError::ParseExecutorErrorToStringError))
    );
    assert_eq!(
        ServerError::parse_to_string(&[0x77, 0x01]),
        Ok((String::from("ServerError::ParseServerErrorToStringError"), 1))
    );
}

#[test]
fn server_error_texts_and_prefixes() {
    assert_eq!(ServerError::SenderError.to_string(), "ServerError::SenderError");
    assert_eq!(
        ServerError::ExecutorError(ExecutorError::UnexpectedOutcome).to_string(),
        "ServerError::ExecutorError::ExecutorError::UnexpectedOutcome"
    );
    assert_eq!(
        ServerError::ReceiverError(String::from("closed")).to_string(),
        "ServerError::ReceiverError::closed"
    );
    assert_eq!(ServerErrorPrefix::TinyHTTPError.byte(), 0x01);
    assert_eq!(ServerErrorPrefix::ParseServerErrorToStringError.byte(), 0x0e);
}
