//! The errors that the library reports.

use vstd::prelude::*;
use vstd::string::StringExecFns;

verus! {

/// What can go wrong while a request is served.
#[derive(Debug, Clone, PartialEq, Eq)]
pub enum KVAdminerError {
    /// The store, or the connection to it, failed; the text is its message.
    RedisError(String),
    /// The connection parameters do not make a URL that the store client accepts.
    InvalidRedisUrl,
    /// A value was to be written as a type that holds no values.
    TypeError,
}

/// A `KVAdminerError` as a mathematical value.
pub enum ErrorView {
    RedisError(Seq<char>),
    InvalidRedisUrl,
    TypeError,
}

impl View for KVAdminerError {
    type V = ErrorView;

    open spec fn view(&self) -> ErrorView {
        match self {
            KVAdminerError::RedisError(text) => ErrorView::RedisError(text@),
            KVAdminerError::InvalidRedisUrl => ErrorView::InvalidRedisUrl,
            KVAdminerError::TypeError => ErrorView::TypeError,
        }
    }
}

impl DeepView for KVAdminerError {
    type V = ErrorView;

    open spec fn deep_view(&self) -> ErrorView {
        self@
    }
}

impl ErrorView {
    /// The text that describes the error to a reader.
    pub open spec fn message(self) -> Seq<char> {
        match self {
            ErrorView::RedisError(text) => "Redis Error: "@ + text,
            ErrorView::InvalidRedisUrl => "Invalid Redis URL"@,
            ErrorView::TypeError => "Type Error"@,
        }
    }

    /// The text that an error response carries as its body.
    pub open spec fn body(self) -> Seq<char> {
        match self {
            ErrorView::RedisError(text) => text,
            ErrorView::InvalidRedisUrl => "Invalid Redis URL"@,
            ErrorView::TypeError => "Type Error"@,
        }
    }
}

/// `to_string` of `redis::RedisError`: the message that its `Display`
/// writes. The message of a failure of the operating system is worded by
/// that system, so that nothing is said of the text here.
#[verifier::external_body]
fn redis_error_text(err: &redis::RedisError) -> (text: String) {
    err.to_string()
}

/// What `from` makes of an error of the store client is said by what `from`
/// ensures, and by nothing else.
impl vstd::std_specs::convert::FromSpecImpl<redis::RedisError> for KVAdminerError {
    open spec fn obeys_from_spec() -> bool {
        false
    }

    open spec fn from_spec(err: redis::RedisError) -> KVAdminerError {
        arbitrary()
    }
}

impl From<redis::RedisError> for KVAdminerError {
    /// An error of the store client, as an error of the library that
    /// carries its message.
    fn from(err: redis::RedisError) -> (e: KVAdminerError)
        ensures
            e is RedisError,
    {
        KVAdminerError::RedisError(redis_error_text(&err))
    }
}

impl KVAdminerError {
    /// The text that describes the error to a reader.
    pub fn message(&self) -> (text: String)
        ensures
            text@ == self@.message(),
    {
        match self {
            KVAdminerError::RedisError(err) => {
                let mut text = String::from_str("Redis Error: ");
                text.append(err.as_str());
                text
            },
            KVAdminerError::InvalidRedisUrl => String::from_str("Invalid Redis URL"),
            KVAdminerError::TypeError => String::from_str("Type Error"),
        }
    }
}

} // verus!
