use kvadminer::errors::KVAdminerError;
use kvadminer::handlers::{
    delete_key, get_hash, get_key, key_row, list_keys, page_bounds, scan_pattern, set_hash,
    set_key, total_pages, PaginatedKeys, PaginationParams, Response, ResponseBody,
    SetHashFieldRequest, SetKeyRequest, SCAN_COUNT,
};
use kvadminer::redis_ops::RedisValueType;

fn text(status: u16, session: Option<&str>, body: &str) -> Response {
    Response {
        status,
        session_id: session.map(|s| s.to_string()),
        body: ResponseBody::Text(body.to_string()),
    }
}

#[test]
fn scan_pattern_without_search_matches_every_key() {
    assert_eq!(scan_pattern(&None), "*");
}

#[test]
fn scan_pattern_wraps_the_search_text() {
    assert_eq!(scan_pattern(&Some("user".to_string())), "*user*");
    assert_eq!(scan_pattern(&Some(String::new())), "**");
}

#[test]
fn scan_count_is_a_thousand() {
    assert_eq!(SCAN_COUNT, 1000);
}

#[test]
fn total_pages_rounds_up() {
    assert_eq!(total_pages(3, 2), 2);
    assert_eq!(total_pages(4, 2), 2);
    assert_eq!(total_pages(5, 2), 3);
    assert_eq!(total_pages(0, 7), 0);
    assert_eq!(total_pages(1, 7), 1);
    assert_eq!(total_pages(7, 1), 7);
}

#[test]
fn total_pages_does_not_overflow() {
    assert_eq!(total_pages(usize::MAX, 1), usize::MAX);
    assert_eq!(total_pages(usize::MAX, usize::MAX), 1);
    assert_eq!(total_pages(usize::MAX, 2), usize::MAX / 2 + 1);
}

#[test]
fn page_bounds_of_full_and_last_page() {
    assert_eq!(page_bounds(3, 0, 2), (0, 2));
    assert_eq!(page_bounds(3, 1, 2), (2, 3));
    assert_eq!(page_bounds(10, 2, 3), (6, 9));
    assert_eq!(page_bounds(10, 3, 3), (9, 10));
}

#[test]
fn page_bounds_behind_the_last_page_are_empty() {
    assert_eq!(page_bounds(3, 2, 2), (3, 3));
    assert_eq!(page_bounds(3, 100, 2), (3, 3));
    assert_eq!(page_bounds(0, 0, 5), (0, 0));
    assert_eq!(page_bounds(3, usize::MAX, usize::MAX), (3, 3));
    assert_eq!(page_bounds(3, 0, usize::MAX), (0, 3));
}

#[test]
fn key_row_of_a_read_entry() {
    assert_eq!(
        key_row("k", Ok(("v".to_string(), RedisValueType::String))),
        ("k".to_string(), "v".to_string(), RedisValueType::String)
    );
}

#[test]
fn key_row_of_a_failed_read_is_empty_and_of_unknown_type() {
    assert_eq!(
        key_row("k", Err(KVAdminerError::RedisError("x".to_string()))),
        ("k".to_string(), String::new(), RedisValueType::Unknown)
    );
}

#[test]
fn get_key_answers_with_value_and_type() {
    let response = get_key("sid".to_string(), Ok(("a, b".to_string(), RedisValueType::List)));
    assert_eq!(
        response,
        Response {
            status: 200,
            session_id: Some("sid".to_string()),
            body: ResponseBody::Value("a, b".to_string(), RedisValueType::List),
        }
    );
}

#[test]
fn get_key_reports_the_error() {
    let response = get_key("sid".to_string(), Err(KVAdminerError::RedisError("down".to_string())));
    assert_eq!(response, text(500, None, "down"));
}

#[test]
fn set_key_answers_success_and_failure() {
    assert_eq!(set_key("sid".to_string(), Ok(())), text(200, Some("sid"), "Key set successfully"));
    assert_eq!(
        set_key("sid".to_string(), Err(KVAdminerError::TypeError)),
        text(500, Some("sid"), "Failed to set key")
    );
}

#[test]
fn get_hash_answers_with_fields() {
    let fields = vec![("a".to_string(), "1".to_string())];
    assert_eq!(
        get_hash("sid".to_string(), Ok(vec![("a".to_string(), "1".to_string())])),
        Response {
            status: 200,
            session_id: Some("sid".to_string()),
            body: ResponseBody::Fields(fields),
        }
    );
    assert_eq!(
        get_hash("sid".to_string(), Err(KVAdminerError::InvalidRedisUrl)),
        text(500, None, "Invalid Redis URL")
    );
}

#[test]
fn set_hash_answers_success_and_failure() {
    assert_eq!(
        set_hash("sid".to_string(), Ok(())),
        text(200, Some("sid"), "Hash field set successfully")
    );
    assert_eq!(
        set_hash("sid".to_string(), Err(KVAdminerError::RedisError("x".to_string()))),
        text(500, Some("sid"), "Failed to set hash field")
    );
}

#[test]
fn delete_key_answers_success_and_failure() {
    assert_eq!(
        delete_key("sid".to_string(), Ok(())),
        text(200, Some("sid"), "Key deleted successfully")
    );
    assert_eq!(
        delete_key("sid".to_string(), Err(KVAdminerError::RedisError("x".to_string()))),
        text(500, Some("sid"), "Failed to delete key")
    );
}

#[test]
fn list_keys_answers_with_the_page() {
    let page = PaginatedKeys {
        keys: vec![("k".to_string(), "v".to_string(), RedisValueType::String)],
        current_page: 0,
        total_pages: 1,
        total_keys: 1,
    };
    let same = PaginatedKeys {
        keys: vec![("k".to_string(), "v".to_string(), RedisValueType::String)],
        current_page: 0,
        total_pages: 1,
        total_keys: 1,
    };
    assert_eq!(
        list_keys("sid".to_string(), Ok(page)),
        Response {
            status: 200,
            session_id: Some("sid".to_string()),
            body: ResponseBody::Keys(same),
        }
    );
    assert_eq!(
        list_keys("sid".to_string(), Err(KVAdminerError::RedisError("scan failed".to_string()))),
        text(500, None, "scan failed")
    );
}

#[test]
fn request_types_hold_their_fields() {
    let set = SetKeyRequest {
        key: "k".to_string(),
        value: "v".to_string(),
        value_type: RedisValueType::Hash,
    };
    assert_eq!(set.value_type, RedisValueType::Hash);
    let field = SetHashFieldRequest {
        key: "k".to_string(),
        field: "f".to_string(),
        value: "v".to_string(),
    };
    assert_eq!(field.field, "f");
    let params = PaginationParams { page: 1, page_size: 2, search: None };
    assert_eq!((params.page, params.page_size), (1, 2));
}
