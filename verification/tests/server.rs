use immuxsys::server::errors::ServerError;
use immuxsys::server::server::{parse_path, UrlInformation};
use immuxsys::storage::kv::get_log_file_dir;
use immuxsys::utils::decimal::parse_decimal;
use std::path::PathBuf;

fn pair(name: &str, value: &str) -> (String, String) {
    (String::from(name), String::from(value))
}

#[test]
fn parse_path_takes_a_url_apart() {
    let info = parse_path("/grouping/key?height=3&x=y").unwrap();
    assert_eq!(info.main_path, "/grouping/key");
    assert_eq!(info.queries, vec![pair("height", "3"), pair("x", "y")]);
    let plain = parse_path("/").unwrap();
    assert_eq!(plain.main_path, "/");
    assert_eq!(plain.queries, Vec::<(String, String)>::new());
    let decoded = parse_path("/a?filter=this.price%3C%3D500&commit").unwrap();
    assert_eq!(decoded.queries, vec![pair("filter", "this.price<=500"), pair("commit", "")]);
}

#[test]
fn parse_path_refuses_what_is_no_url() {
    assert_eq!(parse_path(":99999999"), Err(ServerError::UrlParsingError));
}

#[test]
fn queries_by_name() {
    let info = UrlInformation {
        queries: vec![pair("height", "1"), pair("name", "x"), pair("height", "12"), pair("bad", "1a")],
        main_path: String::from("/"),
    };
    assert_eq!(info.extract_string_query("name"), Some(String::from("x")));
    assert_eq!(info.extract_string_query("height"), Some(String::from("12")));
    assert_eq!(info.extract_string_query("none"), None);
    assert_eq!(info.extract_numeric_query("height"), Ok(12));
    assert_eq!(info.extract_numeric_query("bad"), Err(ServerError::UrlParsingError));
    assert_eq!(info.extract_numeric_query("name"), Err(ServerError::UrlParsingError));
    assert_eq!(info.extract_numeric_query("none"), Err(ServerError::UrlParsingError));
}

#[test]
fn decimal_numbers() {
    assert_eq!(parse_decimal(b"0"), Some(0));
    assert_eq!(parse_decimal(b"007"), Some(7));
    assert_eq!(parse_decimal(b"+42"), Some(42));
    assert_eq!(parse_decimal(b"18446744073709551615"), Some(u64::MAX));
    assert_eq!(parse_decimal(b"18446744073709551616"), None);
    assert_eq!(parse_decimal(b"99999999999999999999999"), None);
    assert_eq!(parse_decimal(b""), None);
    assert_eq!(parse_decimal(b"+"), None);
    assert_eq!(parse_decimal(b"-1"), None);
    assert_eq!(parse_decimal(b"1 "), None);
    assert_eq!(parse_decimal(b"++1"), None);
    assert_eq!(parse_decimal(b"12a"), None);
}

#[test]
fn decimal_numbers_agree_with_the_standard_library() {
    let texts = ["0", "1", "+5", "-5", "", "+", "123456789", "18446744073709551615",
        "18446744073709551616", "1e3", " 1", "0x10", "００"];
    for text in texts.iter() {
        assert_eq!(parse_decimal(text.as_bytes()), text.parse::<u64>().ok());
    }
}

#[test]
fn log_file_lies_in_the_data_directory() {
    let path = get_log_file_dir(&PathBuf::from("/tmp/data"));
    assert_eq!(path, PathBuf::from("/tmp/data/immuxsys.log"));
    assert_eq!(path.file_name().unwrap().to_str().unwrap(), "immuxsys.log");
    assert_eq!(
        path.file_name().unwrap().to_str().unwrap(),
        format!("{}.log", immuxsys::constants::LOG_FILE_NAME)
    );
    assert_eq!(get_log_file_dir(&PathBuf::from("data/")), PathBuf::from("data/immuxsys.log"));
    assert_eq!(get_log_file_dir(&PathBuf::from("")), PathBuf::from("immuxsys.log"));
}

use immuxsys::server::command::{Command, HttpMethod, SelectCondition};
use immuxsys::server::server::{parse_http_request, split_path};
use immuxsys::storage::chain_height::ChainHeight;
use immuxsys::storage::executor::grouping_label::GroupingLabel;
use immuxsys::storage::executor::unit_content::UnitContent;
use immuxsys::storage::executor::unit_key::UnitKey;
use immuxsys::storage::transaction_manager::TransactionId;

fn route(method: HttpMethod, url: &str) -> Result<Command, ServerError> {
    let info = parse_path(url).unwrap();
    parse_http_request(method, &info, UnitContent::Text(String::from("body")))
}

fn grouping(text: &str) -> GroupingLabel {
    GroupingLabel::from_text(text)
}

fn unit_key(text: &str) -> UnitKey {
    UnitKey::from_text(text)
}

fn body() -> UnitContent {
    UnitContent::Text(String::from("body"))
}

fn no_number() -> Result<Command, ServerError> {
    Err(ServerError::ParseIntError(String::from("the transaction is named by no number")))
}

#[test]
fn paths_are_split_at_slashes() {
    assert_eq!(split_path(b""), vec![b"".to_vec()]);
    assert_eq!(split_path(b"/"), vec![b"".to_vec(), b"".to_vec()]);
    assert_eq!(split_path(b"abc"), vec![b"abc".to_vec()]);
    assert_eq!(split_path(b"/a/bc"), vec![b"".to_vec(), b"a".to_vec(), b"bc".to_vec()]);
    assert_eq!(split_path(b"a//b/"), vec![b"a".to_vec(), b"".to_vec(), b"b".to_vec(), b"".to_vec()]);
    for text in ["", "/", "//", "/a/b/c", "a/b", "/.transactions/1/g/k/"] {
        let expected: Vec<Vec<u8>> = text.split("/").map(|part| part.as_bytes().to_vec()).collect();
        assert_eq!(split_path(text.as_bytes()), expected);
    }
}

#[test]
fn get_requests() {
    assert_eq!(
        route(HttpMethod::Get, "/g/k"),
        Ok(Command::Select { grouping: grouping("g"), condition: SelectCondition::Key(unit_key("k"), None) })
    );
    assert_eq!(
        route(HttpMethod::Get, "/.transactions/7/g/k"),
        Ok(Command::Select {
            grouping: grouping("g"),
            condition: SelectCondition::Key(unit_key("k"), Some(TransactionId::new(7)))
        })
    );
    assert_eq!(route(HttpMethod::Get, "/.transactions/x/g/k"), no_number());
    assert_eq!(route(HttpMethod::Get, "/other/7/g/k"), Err(ServerError::UrlParsingError));
    assert_eq!(route(HttpMethod::Get, "/.transactions/7/g/"), Err(ServerError::UrlParsingError));
    assert_eq!(
        route(HttpMethod::Get, "/g/k/.journal"),
        Ok(Command::InspectOne { grouping: grouping("g"), key: unit_key("k") })
    );
    assert_eq!(route(HttpMethod::Get, "/g/k/other"), Err(ServerError::UrlParsingError));
    assert_eq!(route(HttpMethod::Get, "/g//.journal"), Err(ServerError::UrlParsingError));
    assert_eq!(route(HttpMethod::Get, "/.journal"), Ok(Command::InspectAll));
    assert_eq!(
        route(HttpMethod::Get, "/g"),
        Ok(Command::Select { grouping: grouping("g"), condition: SelectCondition::UnconditionalMatch })
    );
    assert_eq!(
        route(HttpMethod::Get, "/g?filter=this.price%3C%3D500"),
        Ok(Command::Select {
            grouping: grouping("g"),
            condition: SelectCondition::Filter(String::from("this.price<=500"))
        })
    );
    assert_eq!(
        route(HttpMethod::Get, "/"),
        Ok(Command::Select { grouping: grouping(""), condition: SelectCondition::UnconditionalMatch })
    );
}

#[test]
fn put_requests() {
    assert_eq!(
        route(HttpMethod::Put, "/g/k"),
        Ok(Command::Insert { grouping: grouping("g"), key: unit_key("k"), content: body() })
    );
    assert_eq!(
        route(HttpMethod::Put, "/g/k?height=3"),
        Ok(Command::RevertOne { grouping: grouping("g"), key: unit_key("k"), height: ChainHeight::new(3) })
    );
    assert_eq!(
        route(HttpMethod::Put, "/g/k?height=x"),
        Ok(Command::Insert { grouping: grouping("g"), key: unit_key("k"), content: body() })
    );
    assert_eq!(route(HttpMethod::Put, "/g/"), Err(ServerError::UrlParsingError));
    assert_eq!(route(HttpMethod::Put, "/?height=5"), Ok(Command::RevertAll { height: ChainHeight::new(5) }));
    assert_eq!(route(HttpMethod::Put, "/"), Err(ServerError::UrlParsingError));
    assert_eq!(
        route(HttpMethod::Put, "/.transactions/2/g/k"),
        Ok(Command::TransactionalInsert {
            grouping: grouping("g"),
            key: unit_key("k"),
            content: body(),
            transaction_id: TransactionId::new(2)
        })
    );
    assert_eq!(
        route(HttpMethod::Put, "/.transactions/2/g/k?height=0"),
        Ok(Command::TransactionalRevertOne {
            grouping: grouping("g"),
            key: unit_key("k"),
            height: ChainHeight::new(0),
            transaction_id: TransactionId::new(2)
        })
    );
    assert_eq!(route(HttpMethod::Put, "/.transactions//g/k"), no_number());
    assert_eq!(route(HttpMethod::Put, "/transactions/2/g/k"), Err(ServerError::UrlParsingError));
}

#[test]
fn post_requests() {
    assert_eq!(route(HttpMethod::Post, "/.transactions"), Ok(Command::CreateTransaction));
    assert_eq!(route(HttpMethod::Post, "/.transactions/9"), Ok(Command::CreateTransaction));
    assert_eq!(
        route(HttpMethod::Post, "/.transactions/9?commit"),
        Ok(Command::TransactionCommit { transaction_id: TransactionId::new(9) })
    );
    assert_eq!(
        route(HttpMethod::Post, "/.transactions/9?abort"),
        Ok(Command::TransactionAbort { transaction_id: TransactionId::new(9) })
    );
    assert_eq!(
        route(HttpMethod::Post, "/.transactions/9?abort&commit"),
        Ok(Command::TransactionCommit { transaction_id: TransactionId::new(9) })
    );
    assert_eq!(route(HttpMethod::Post, "/.transactions?commit"), Err(ServerError::UrlParsingError));
    assert_eq!(route(HttpMethod::Post, "/.transactions/?commit"), Err(ServerError::UrlParsingError));
    assert_eq!(route(HttpMethod::Post, "/.transactions/nine?abort"), no_number());
    assert_eq!(route(HttpMethod::Post, "/g"), Err(ServerError::UrlParsingError));
    assert_eq!(route(HttpMethod::Post, "/"), Err(ServerError::UrlParsingError));
}

#[test]
fn delete_requests() {
    assert_eq!(route(HttpMethod::Delete, "/"), Ok(Command::RemoveAll));
    assert_eq!(route(HttpMethod::Delete, "/g"), Ok(Command::RemoveAll));
    assert_eq!(
        route(HttpMethod::Delete, "/g/k"),
        Ok(Command::RemoveOne { grouping: grouping("g"), key: unit_key("k") })
    );
    assert_eq!(
        route(HttpMethod::Delete, "/g/k/more"),
        Ok(Command::RemoveOne { grouping: grouping("g"), key: unit_key("k") })
    );
    assert_eq!(
        route(HttpMethod::Delete, "/.transactions/4/g/k"),
        Ok(Command::TransactionalRemoveOne {
            grouping: grouping("g"),
            key: unit_key("k"),
            transaction_id: TransactionId::new(4)
        })
    );
    assert_eq!(route(HttpMethod::Delete, "/.transactions//g/k"), Err(ServerError::UrlParsingError));
    assert_eq!(route(HttpMethod::Delete, "/.transactions/4/g/"), Err(ServerError::UrlParsingError));
    assert_eq!(route(HttpMethod::Delete, "/x/4/g/k"), Err(ServerError::UrlParsingError));
    assert_eq!(route(HttpMethod::Delete, "/.transactions/4x/g/k"), no_number());
}

#[test]
fn other_methods_are_refused() {
    assert_eq!(route(HttpMethod::Other, "/g/k"), Err(ServerError::BodyParsingError));
}
