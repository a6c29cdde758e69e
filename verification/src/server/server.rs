//! What the HTTP front-end makes of the URL of a request.
use crate::constants::{
    ABORT_TRANSACTION_KEY_WORD, COMMIT_TRANSACTION_KEY_WORD, FILTER_KEY_WORD, HEIGHT,
    URL_JOURNAL_KEY_WORD, URL_TRANSACTIONS_KEY_WORD,
};
use crate::server::command::{
    Command, CommandView, HttpMethod, SelectCondition, SelectConditionView,
};
use crate::server::errors::{ServerError, ServerResult};
use crate::storage::chain_height::ChainHeight;
use crate::storage::executor::grouping_label::GroupingLabel;
use crate::storage::executor::unit_content::{ContentView, UnitContent};
use crate::storage::executor::unit_key::UnitKey;
use crate::storage::kvkey::copy_bytes;
use crate::storage::transaction_manager::{keys_view, TransactionId};
use crate::utils::decimal::{parse_decimal, spec_parse_decimal};
use crate::utils::text::{same_bytes, same_text};
use vstd::prelude::*;
use vstd::string::*;
use vstd::utf8::encode_utf8;

verus! {

/// A URL taken apart.
#[derive(Debug, Clone, PartialEq, Eq)]
pub struct UrlInformation {
    /// The pairs of the query, in the order in which they are written.
    pub queries: Vec<(String, String)>,
    /// The path.
    pub main_path: String,
}

/// The value that a query gives to `name`: that of the last pair with the
/// name.
pub open spec fn spec_query(queries: Seq<(String, String)>, name: Seq<char>) -> Option<Seq<char>>
    decreases queries.len(),
{
    if queries.len() == 0 {
        None
    } else if queries.last().0@ == name {
        Some(queries.last().1@)
    } else {
        spec_query(queries.drop_last(), name)
    }
}

/// Pairs behind the last pair with a name do not change what the query gives
/// to the name.
proof fn lemma_query_found(queries: Seq<(String, String)>, name: Seq<char>, i: int)
    requires
        0 <= i < queries.len(),
        queries[i].0@ == name,
        forall|j: int| i < j < queries.len() ==> (#[trigger] queries[j]).0@ != name,
    ensures
        spec_query(queries, name) == Some(queries[i].1@),
    decreases queries.len(),
{
    if i < queries.len() - 1 {
        let front = queries.drop_last();
        assert(queries[queries.len() - 1].0@ != name);
        assert(front[i] == queries[i]);
        assert forall|j: int| i < j < front.len() implies (#[trigger] front[j]).0@ != name by {
            assert(front[j] == queries[j]);
        }
        lemma_query_found(front, name, i);
    }
}

/// A query without a pair with a name gives nothing to the name.
proof fn lemma_query_missing(queries: Seq<(String, String)>, name: Seq<char>)
    requires
        forall|j: int| 0 <= j < queries.len() ==> (#[trigger] queries[j]).0@ != name,
    ensures
        spec_query(queries, name) is None,
    decreases queries.len(),
{
    if queries.len() > 0 {
        let front = queries.drop_last();
        assert(queries[queries.len() - 1].0@ != name);
        assert forall|j: int| 0 <= j < front.len() implies (#[trigger] front[j]).0@ != name by {
            assert(front[j] == queries[j]);
        }
        lemma_query_missing(front, name);
    }
}

impl UrlInformation {
    /// The value that the query gives to `key`, if it gives one.
    pub fn extract_string_query(&self, key: &str) -> (value: Option<String>)
        ensures
            match value {
                Some(text) => spec_query(self.queries@, key@) == Some(text@),
                None => spec_query(self.queries@, key@) is None,
            },
    {
        let mut i: usize = self.queries.len();
        while i > 0
            invariant
                i <= self.queries@.len(),
                forall|j: int| i <= j < self.queries@.len() ==> (#[trigger] self.queries@[j]).0@ != key@,
            decreases i,
        {
            i = i - 1;
            if same_text(self.queries[i].0.as_str(), key) {
                proof {
                    lemma_query_found(self.queries@, key@, i as int);
                }
                return Some(self.queries[i].1.clone());
            }
        }
        proof {
            lemma_query_missing(self.queries@, key@);
        }
        None
    }

    /// The number that the query gives to `key`. A query that gives nothing
    /// to the key, or something that is no number of 64 bits in decimal
    /// digits, is refused.
    pub fn extract_numeric_query(&self, key: &str) -> (result: ServerResult<u64>)
        ensures
            result == match spec_query(self.queries@, key@) {
                Some(text) => match spec_parse_decimal(vstd::utf8::encode_utf8(text)) {
                    Some(number) => Ok::<u64, ServerError>(number),
                    None => Err::<u64, ServerError>(ServerError::UrlParsingError),
                },
                None => Err::<u64, ServerError>(ServerError::UrlParsingError),
            },
    {
        match self.extract_string_query(key) {
            None => Err(ServerError::UrlParsingError),
            Some(text) => match parse_decimal(text.as_str().as_bytes()) {
                Some(number) => Ok(number),
                None => Err(ServerError::UrlParsingError),
            },
        }
    }
}

/// A URL as the `url` crate holds it.
#[verifier::external_type_specification]
#[verifier::external_body]
pub struct ExUrl(url::Url);

/// Whether `Url::parse` of the `url` crate takes `input` for an absolute URL.
pub uninterp spec fn spec_url_accepted(input: Seq<char>) -> bool;

/// Parses an absolute URL.
///
/// This is `Url::parse` of the `url` crate. Whether it succeeds depends on
/// the text alone; nothing is said here about which texts it takes.
#[verifier::external_body]
fn url_parse(input: &str) -> (parsed: Option<url::Url>)
    ensures
        parsed is Some == spec_url_accepted(input@),
{
    match url::Url::parse(input) {
        Ok(parsed) => Some(parsed),
        Err(_) => None,
    }
}

/// The path of a URL.
///
/// This is `Url::path` of the `url` crate. Nothing is said here about the
/// text it returns.
#[verifier::external_body]
fn url_path(parsed: &url::Url) -> (path: String) {
    String::from(parsed.path())
}

/// The pairs of the query of a URL, in the order in which they are written.
///
/// This is `Url::query_pairs` of the `url` crate. Nothing is said here about
/// the pairs it returns.
#[verifier::external_body]
fn url_query_pairs(parsed: &url::Url) -> (pairs: Vec<(String, String)>) {
    parsed.query_pairs().into_owned().collect()
}

/// Takes the path and the query of a request apart. The path is read as the
/// path of a URL of this host; what is no such URL is refused.
pub fn parse_path(path: &str) -> (result: ServerResult<UrlInformation>)
    ensures
        match result {
            Ok(_) => spec_url_accepted("http://127.0.0.1"@ + path@),
            Err(e) => e == ServerError::UrlParsingError && !spec_url_accepted(
                "http://127.0.0.1"@ + path@,
            ),
        },
{
    let path_to_parse = String::from_str("http://127.0.0.1").concat(path);
    match url_parse(path_to_parse.as_str()) {
        None => Err(ServerError::UrlParsingError),
        Some(parsed) => Ok(
            UrlInformation { queries: url_query_pairs(&parsed), main_path: url_path(&parsed) },
        ),
    }
}

/// The parts of a path between its slashes. A path without a slash is one
/// part, and so is the empty path: there is one part more than there are
/// slashes.
pub open spec fn spec_segments(path: Seq<u8>) -> Seq<Seq<u8>>
    decreases path.len(),
{
    if path.len() == 0 {
        seq![Seq::empty()]
    } else {
        let before = spec_segments(path.drop_last());
        if path.last() == 0x2f {
            before.push(Seq::empty())
        } else {
            before.update(before.len() - 1, before.last().push(path.last()))
        }
    }
}

/// The parts of a path between its slashes.
pub fn split_path(path: &[u8]) -> (segments: Vec<Vec<u8>>)
    ensures
        keys_view(segments@) == spec_segments(path@),
        segments@.len() >= 1,
{
    let mut segments: Vec<Vec<u8>> = Vec::new();
    let mut current: Vec<u8> = Vec::new();
    let mut i: usize = 0;
    assert(path@.take(0) =~= Seq::<u8>::empty());
    assert(keys_view(segments@).push(current@) =~= seq![Seq::<u8>::empty()]);
    while i < path.len()
        invariant
            i <= path@.len(),
            spec_segments(path@.take(i as int)) == keys_view(segments@).push(current@),
        decreases path.len() - i,
    {
        let byte: u8 = path[i];
        let ghost done = keys_view(segments@);
        let ghost part = current@;
        proof {
            assert(path@.take(i + 1).drop_last() =~= path@.take(i as int));
            assert(path@.take(i + 1).last() == byte);
        }
        if byte == 0x2f {
            segments.push(current);
            current = Vec::new();
            assert(keys_view(segments@) =~= done.push(part));
        } else {
            current.push(byte);
            assert(done.push(part).update(done.len() as int, part.push(byte)) =~= done.push(
                current@,
            ));
        }
        i = i + 1;
    }
    assert(path@.take(path@.len() as int) =~= path@);
    let ghost done = keys_view(segments@);
    let ghost part = current@;
    segments.push(current);
    assert(keys_view(segments@) =~= done.push(part));
    segments
}

/// Why a request stands for no command.
pub enum RouteError {
    /// The path or the query is not one the server knows.
    Url,
    /// The method is not one the server knows.
    Method,
    /// The path names a transaction by something that is no number.
    TransactionId,
}

/// The bytes of a word of the URLs that the server knows.
pub open spec fn word(text: &str) -> Seq<u8> {
    encode_utf8(text@)
}

/// The number that the query gives to `name`, if it gives one.
pub open spec fn spec_numeric_query(queries: Seq<(String, String)>, name: Seq<char>) -> Option<u64> {
    match spec_query(queries, name) {
        Some(text) => spec_parse_decimal(encode_utf8(text)),
        None => None,
    }
}

/// The command that a request for a path inside a transaction stands for:
/// the path names the transaction, a grouping and a key that is not empty.
/// The command is made by `make` from the transaction.
pub open spec fn spec_route_in_transaction(
    segments: Seq<Seq<u8>>,
    make: spec_fn(u64) -> CommandView,
) -> Result<CommandView, RouteError> {
    if segments[1] != word(URL_TRANSACTIONS_KEY_WORD) || segments[4].len() == 0 {
        Err(RouteError::Url)
    } else {
        match spec_parse_decimal(segments[2]) {
            Some(transaction_id) => Ok(make(transaction_id)),
            None => Err(RouteError::TransactionId),
        }
    }
}

/// The command that a `GET` request stands for.
pub open spec fn spec_route_get(
    segments: Seq<Seq<u8>>,
    queries: Seq<(String, String)>,
) -> Result<CommandView, RouteError> {
    if segments.len() >= 5 {
        spec_route_in_transaction(
            segments,
            |transaction_id: u64|
                CommandView::Select {
                    grouping: segments[3],
                    condition: SelectConditionView::Key(segments[4], Some(transaction_id)),
                },
        )
    } else if segments.len() >= 4 {
        if segments[3] != word(URL_JOURNAL_KEY_WORD) || segments[2].len() == 0 {
            Err(RouteError::Url)
        } else {
            Ok(CommandView::InspectOne { grouping: segments[1], key: segments[2] })
        }
    } else if segments.len() >= 3 {
        Ok(
            CommandView::Select {
                grouping: segments[1],
                condition: SelectConditionView::Key(segments[2], None),
            },
        )
    } else if segments.len() >= 2 {
        if segments[1] == word(URL_JOURNAL_KEY_WORD) {
            Ok(CommandView::InspectAll)
        } else {
            match spec_query(queries, FILTER_KEY_WORD@) {
                Some(filter) => Ok(
                    CommandView::Select {
                        grouping: segments[1],
                        condition: SelectConditionView::Filter(filter),
                    },
                ),
                None => Ok(
                    CommandView::Select {
                        grouping: segments[1],
                        condition: SelectConditionView::UnconditionalMatch,
                    },
                ),
            }
        }
    } else {
        Err(RouteError::Url)
    }
}

/// The command that a `PUT` request stands for.
pub open spec fn spec_route_put(
    segments: Seq<Seq<u8>>,
    queries: Seq<(String, String)>,
    body: ContentView,
) -> Result<CommandView, RouteError> {
    let height = spec_numeric_query(queries, HEIGHT@);
    if segments.len() >= 5 {
        spec_route_in_transaction(
            segments,
            |transaction_id: u64|
                match height {
                    Some(height) => CommandView::TransactionalRevertOne {
                        grouping: segments[3],
                        key: segments[4],
                        height,
                        transaction_id,
                    },
                    None => CommandView::TransactionalInsert {
                        grouping: segments[3],
                        key: segments[4],
                        content: body,
                        transaction_id,
                    },
                },
        )
    } else if segments.len() >= 3 {
        if segments[2].len() == 0 {
            Err(RouteError::Url)
        } else {
            match height {
                Some(height) => Ok(
                    CommandView::RevertOne { grouping: segments[1], key: segments[2], height },
                ),
                None => Ok(
                    CommandView::Insert { grouping: segments[1], key: segments[2], content: body },
                ),
            }
        }
    } else {
        match height {
            Some(height) => Ok(CommandView::RevertAll { height }),
            None => Err(RouteError::Url),
        }
    }
}

/// The command that a `POST` request stands for.
pub open spec fn spec_route_post(
    segments: Seq<Seq<u8>>,
    queries: Seq<(String, String)>,
) -> Result<CommandView, RouteError> {
    let key_word = if segments.len() >= 2 {
        segments[1]
    } else {
        Seq::empty()
    };
    let named = if segments.len() >= 3 {
        segments[2]
    } else {
        Seq::empty()
    };
    let commit = spec_query(queries, COMMIT_TRANSACTION_KEY_WORD@) is Some;
    let abort = spec_query(queries, ABORT_TRANSACTION_KEY_WORD@) is Some;
    if key_word != word(URL_TRANSACTIONS_KEY_WORD) {
        Err(RouteError::Url)
    } else if commit || abort {
        if named.len() == 0 {
            Err(RouteError::Url)
        } else {
            match spec_parse_decimal(named) {
                Some(transaction_id) => if commit {
                    Ok(CommandView::TransactionCommit { transaction_id })
                } else {
                    Ok(CommandView::TransactionAbort { transaction_id })
                },
                None => Err(RouteError::TransactionId),
            }
        }
    } else {
        Ok(CommandView::CreateTransaction)
    }
}

/// The command that a `DELETE` request stands for.
pub open spec fn spec_route_delete(segments: Seq<Seq<u8>>) -> Result<CommandView, RouteError> {
    if segments.len() >= 5 {
        if segments[4].len() == 0 || segments[2].len() == 0 {
            Err(RouteError::Url)
        } else {
            spec_route_in_transaction(
                segments,
                |transaction_id: u64|
                    CommandView::TransactionalRemoveOne {
                        grouping: segments[3],
                        key: segments[4],
                        transaction_id,
                    },
            )
        }
    } else if segments.len() >= 3 {
        Ok(CommandView::RemoveOne { grouping: segments[1], key: segments[2] })
    } else {
        Ok(CommandView::RemoveAll)
    }
}

/// The command that a request stands for: by its method, by the parts of its
/// path, by its query and, where it brings a content, by its body.
pub open spec fn spec_route(
    method: HttpMethod,
    segments: Seq<Seq<u8>>,
    queries: Seq<(String, String)>,
    body: ContentView,
) -> Result<CommandView, RouteError> {
    match method {
        HttpMethod::Get => spec_route_get(segments, queries),
        HttpMethod::Put => spec_route_put(segments, queries, body),
        HttpMethod::Post => spec_route_post(segments, queries),
        HttpMethod::Delete => spec_route_delete(segments),
        HttpMethod::Other => Err(RouteError::Method),
    }
}

/// Whether `result` is what the server answers to a request that stands for
/// `route`.
pub open spec fn answers(result: ServerResult<Command>, route: Result<CommandView, RouteError>) -> bool {
    match route {
        Ok(command) => result matches Ok(found) && found@ == command,
        Err(RouteError::Url) => result == Err::<Command, ServerError>(ServerError::UrlParsingError),
        Err(RouteError::Method) => result == Err::<Command, ServerError>(
            ServerError::BodyParsingError,
        ),
        Err(RouteError::TransactionId) => result matches Err(ServerError::ParseIntError(text))
            && text@ == "the transaction is named by no number"@,
    }
}

/// The transaction that a part of a path names.
fn named_transaction(segment: &Vec<u8>) -> (result: ServerResult<TransactionId>)
    ensures
        match spec_parse_decimal(segment@) {
            Some(transaction_id) => result == Ok::<TransactionId, ServerError>(
                TransactionId(transaction_id),
            ),
            None => result matches Err(ServerError::ParseIntError(text)) && text@
                == "the transaction is named by no number"@,
        },
{
    match parse_decimal(segment.as_slice()) {
        Some(transaction_id) => Ok(TransactionId::new(transaction_id)),
        None => Err(
            ServerError::ParseIntError(String::from_str("the transaction is named by no number")),
        ),
    }
}

/// Whether `segment` is the word `text`.
fn is_word(segment: &Vec<u8>, text: &str) -> (same: bool)
    ensures
        same == (segment@ == word(text)),
{
    same_bytes(segment.as_slice(), text.as_bytes())
}

/// The command that a `GET` request stands for.
fn route_get(segments: &Vec<Vec<u8>>, url_info: &UrlInformation) -> (result: ServerResult<Command>)
    ensures
        answers(result, spec_route_get(keys_view(segments@), url_info.queries@)),
{
    let ghost parts = keys_view(segments@);
    if segments.len() >= 5 {
        assert(parts[1] == segments@[1]@ && parts[2] == segments@[2]@ && parts[3] == segments@[3]@
            && parts[4] == segments@[4]@);
        if !is_word(&segments[1], URL_TRANSACTIONS_KEY_WORD) || segments[4].len() == 0 {
            return Err(ServerError::UrlParsingError);
        }
        let transaction_id = match named_transaction(&segments[2]) {
            Ok(transaction_id) => transaction_id,
            Err(e) => {
                return Err(e);
            },
        };
        Ok(
            Command::Select {
                grouping: GroupingLabel::new(segments[3].as_slice()),
                condition: SelectCondition::Key(
                    UnitKey::new(copy_bytes(segments[4].as_slice())),
                    Some(transaction_id),
                ),
            },
        )
    } else if segments.len() >= 4 {
        assert(parts[1] == segments@[1]@ && parts[2] == segments@[2]@ && parts[3] == segments@[3]@);
        if !is_word(&segments[3], URL_JOURNAL_KEY_WORD) || segments[2].len() == 0 {
            return Err(ServerError::UrlParsingError);
        }
        Ok(
            Command::InspectOne {
                grouping: GroupingLabel::new(segments[1].as_slice()),
                key: UnitKey::new(copy_bytes(segments[2].as_slice())),
            },
        )
    } else if segments.len() >= 3 {
        assert(parts[1] == segments@[1]@ && parts[2] == segments@[2]@);
        Ok(
            Command::Select {
                grouping: GroupingLabel::new(segments[1].as_slice()),
                condition: SelectCondition::Key(
                    UnitKey::new(copy_bytes(segments[2].as_slice())),
                    None,
                ),
            },
        )
    } else if segments.len() >= 2 {
        assert(parts[1] == segments@[1]@);
        if is_word(&segments[1], URL_JOURNAL_KEY_WORD) {
            Ok(Command::InspectAll)
        } else {
            let grouping = GroupingLabel::new(segments[1].as_slice());
            match url_info.extract_string_query(FILTER_KEY_WORD) {
                Some(filter) => Ok(
                    Command::Select { grouping, condition: SelectCondition::Filter(filter) },
                ),
                None => Ok(
                    Command::Select { grouping, condition: SelectCondition::UnconditionalMatch },
                ),
            }
        }
    } else {
        Err(ServerError::UrlParsingError)
    }
}

/// The command that a `PUT` request stands for.
fn route_put(segments: &Vec<Vec<u8>>, url_info: &UrlInformation, body: UnitContent) -> (result:
    ServerResult<Command>)
    ensures
        answers(result, spec_route_put(keys_view(segments@), url_info.queries@, body@)),
{
    let ghost parts = keys_view(segments@);
    let height = match url_info.extract_numeric_query(HEIGHT) {
        Ok(height) => Some(ChainHeight::new(height)),
        Err(_) => None,
    };
    if segments.len() >= 5 {
        assert(parts[1] == segments@[1]@ && parts[2] == segments@[2]@ && parts[3] == segments@[3]@
            && parts[4] == segments@[4]@);
        if !is_word(&segments[1], URL_TRANSACTIONS_KEY_WORD) || segments[4].len() == 0 {
            return Err(ServerError::UrlParsingError);
        }
        let transaction_id = match named_transaction(&segments[2]) {
            Ok(transaction_id) => transaction_id,
            Err(e) => {
                return Err(e);
            },
        };
        let grouping = GroupingLabel::new(segments[3].as_slice());
        let key = UnitKey::new(copy_bytes(segments[4].as_slice()));
        match height {
            Some(height) => Ok(
                Command::TransactionalRevertOne { grouping, key, height, transaction_id },
            ),
            None => Ok(
                Command::TransactionalInsert { grouping, key, content: body, transaction_id },
            ),
        }
    } else if segments.len() >= 3 {
        assert(parts[1] == segments@[1]@ && parts[2] == segments@[2]@);
        if segments[2].len() == 0 {
            return Err(ServerError::UrlParsingError);
        }
        let grouping = GroupingLabel::new(segments[1].as_slice());
        let key = UnitKey::new(copy_bytes(segments[2].as_slice()));
        match height {
            Some(height) => Ok(Command::RevertOne { grouping, key, height }),
            None => Ok(Command::Insert { grouping, key, content: body }),
        }
    } else {
        match height {
            Some(height) => Ok(Command::RevertAll { height }),
            None => Err(ServerError::UrlParsingError),
        }
    }
}

/// The command that a `POST` request stands for.
fn route_post(segments: &Vec<Vec<u8>>, url_info: &UrlInformation) -> (result: ServerResult<Command>)
    ensures
        answers(result, spec_route_post(keys_view(segments@), url_info.queries@)),
{
    let ghost parts = keys_view(segments@);
    if segments.len() < 2 {
        proof {
            reveal_strlit(".transactions");
            assert(URL_TRANSACTIONS_KEY_WORD@.len() > 0);
            vstd::utf8::encode_utf8_decode_utf8(URL_TRANSACTIONS_KEY_WORD@);
            assert(word(URL_TRANSACTIONS_KEY_WORD).len() > 0) by {
                if word(URL_TRANSACTIONS_KEY_WORD).len() == 0 {
                    assert(word(URL_TRANSACTIONS_KEY_WORD) =~= Seq::<u8>::empty());
                    assert(vstd::utf8::decode_utf8(Seq::<u8>::empty()).len() == 0);
                }
            }
        }
        return Err(ServerError::UrlParsingError);
    }
    assert(parts[1] == segments@[1]@);
    if !is_word(&segments[1], URL_TRANSACTIONS_KEY_WORD) {
        return Err(ServerError::UrlParsingError);
    }
    let commit = url_info.extract_string_query(COMMIT_TRANSACTION_KEY_WORD).is_some();
    let abort = url_info.extract_string_query(ABORT_TRANSACTION_KEY_WORD).is_some();
    if commit || abort {
        if segments.len() < 3 {
            return Err(ServerError::UrlParsingError);
        }
        assert(parts[2] == segments@[2]@);
        if segments[2].len() == 0 {
            return Err(ServerError::UrlParsingError);
        }
        let transaction_id = match named_transaction(&segments[2]) {
            Ok(transaction_id) => transaction_id,
            Err(e) => {
                return Err(e);
            },
        };
        if commit {
            Ok(Command::TransactionCommit { transaction_id })
        } else {
            Ok(Command::TransactionAbort { transaction_id })
        }
    } else {
        Ok(Command::CreateTransaction)
    }
}

/// The command that a `DELETE` request stands for.
fn route_delete(segments: &Vec<Vec<u8>>) -> (result: ServerResult<Command>)
    ensures
        answers(result, spec_route_delete(keys_view(segments@))),
{
    let ghost parts = keys_view(segments@);
    if segments.len() >= 5 {
        assert(parts[1] == segments@[1]@ && parts[2] == segments@[2]@ && parts[3] == segments@[3]@
            && parts[4] == segments@[4]@);
        if segments[4].len() == 0 || segments[2].len() == 0 || !is_word(
            &segments[1],
            URL_TRANSACTIONS_KEY_WORD,
        ) {
            return Err(ServerError::UrlParsingError);
        }
        let transaction_id = match named_transaction(&segments[2]) {
            Ok(transaction_id) => transaction_id,
            Err(e) => {
                return Err(e);
            },
        };
        Ok(
            Command::TransactionalRemoveOne {
                grouping: GroupingLabel::new(segments[3].as_slice()),
                key: UnitKey::new(copy_bytes(segments[4].as_slice())),
                transaction_id,
            },
        )
    } else if segments.len() >= 3 {
        assert(parts[1] == segments@[1]@ && parts[2] == segments@[2]@);
        Ok(
            Command::RemoveOne {
                grouping: GroupingLabel::new(segments[1].as_slice()),
                key: UnitKey::new(copy_bytes(segments[2].as_slice())),
            },
        )
    } else {
        Ok(Command::RemoveAll)
    }
}

/// Reads the command that a request stands for from its method, its URL
/// taken apart, and its body read as a content.
pub fn parse_http_request(method: HttpMethod, url_info: &UrlInformation, body: UnitContent) -> (result:
    ServerResult<Command>)
    ensures
        answers(
            result,
            spec_route(
                method,
                spec_segments(encode_utf8(url_info.main_path@)),
                url_info.queries@,
                body@,
            ),
        ),
{
    let segments = split_path(url_info.main_path.as_str().as_bytes());
    match method {
        HttpMethod::Get => route_get(&segments, url_info),
        HttpMethod::Put => route_put(&segments, url_info, body),
        HttpMethod::Post => route_post(&segments, url_info),
        HttpMethod::Delete => route_delete(&segments),
        HttpMethod::Other => Err(ServerError::BodyParsingError),
    }
}

} // verus!
