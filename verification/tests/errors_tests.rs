use kvadminer::errors::KVAdminerError;
use kvadminer::handlers::{Response, ResponseBody};

#[test]
fn message_of_each_error() {
    assert_eq!(
        KVAdminerError::RedisError("connection refused".to_string()).message(),
        "Redis Error: connection refused"
    );
    assert_eq!(KVAdminerError::InvalidRedisUrl.message(), "Invalid Redis URL");
    assert_eq!(KVAdminerError::TypeError.message(), "Type Error");
}

#[test]
fn error_response_carries_the_store_message() {
    let response = KVAdminerError::RedisError("boom".to_string()).error_response();
    assert_eq!(
        response,
        Response { status: 500, session_id: None, body: ResponseBody::Text("boom".to_string()) }
    );
}

#[test]
fn error_response_of_invalid_url_and_type_error() {
    assert_eq!(
        KVAdminerError::InvalidRedisUrl.error_response(),
        Response {
            status: 500,
            session_id: None,
            body: ResponseBody::Text("Invalid Redis URL".to_string()),
        }
    );
    assert_eq!(
        KVAdminerError::TypeError.error_response(),
        Response {
            status: 500,
            session_id: None,
            body: ResponseBody::Text("Type Error".to_string()),
        }
    );
}

#[test]
fn store_client_error_becomes_redis_error_with_its_message() {
    let outside = redis::RedisError::from((redis::ErrorKind::TypeError, "not compatible"));
    let text = outside.to_string();
    assert!(text.contains("not compatible"));
    assert_eq!(KVAdminerError::from(outside), KVAdminerError::RedisError(text));
}

#[test]
fn store_client_error_with_detail_keeps_the_detail() {
    let outside = redis::RedisError::from((
        redis::ErrorKind::ResponseError,
        "bad response",
        "WRONGTYPE".to_string(),
    ));
    match KVAdminerError::from(outside) {
        KVAdminerError::RedisError(text) => {
            assert!(text.contains("bad response"));
            assert!(text.contains("WRONGTYPE"));
        }
        other => panic!("unexpected {:?}", other),
    }
}
