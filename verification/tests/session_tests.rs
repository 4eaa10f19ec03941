use kvadminer::errors::KVAdminerError;
use kvadminer::redis_ops::RedisInfo;
use kvadminer::session::{
    cleanup_expired_sessions, generate_session_id, get_or_create_session_id, get_redis_client,
    AppState,
};

fn endpoint(host: &str, port: &str) -> RedisInfo {
    RedisInfo {
        host: host.to_string(),
        port: port.to_string(),
        username: None,
        password: None,
        session_id: None,
    }
}

fn address(client: &redis::Client) -> redis::ConnectionAddr {
    client.get_connection_info().addr.clone()
}

#[test]
fn new_state_is_empty() {
    let state = AppState::new(3600);
    assert_eq!(state.len(), 0);
    assert_eq!(state.session_timeout(), 3600);
    assert_eq!(state.last_active("s"), None);
}

#[test]
fn first_request_records_the_session() {
    let mut state = AppState::new(3600);
    let client = get_redis_client(&mut state, "s1", &endpoint("host-a", "6379"), 10).unwrap();
    assert_eq!(address(&client), redis::ConnectionAddr::Tcp("host-a".to_string(), 6379));
    assert_eq!(state.len(), 1);
    assert_eq!(state.last_active("s1"), Some(10));
}

#[test]
fn many_requests_for_one_session_share_one_client() {
    let mut state = AppState::new(3600);
    let first = get_redis_client(&mut state, "s1", &endpoint("host-a", "6379"), 1).unwrap();
    for n in 0..20u64 {
        let again = get_redis_client(&mut state, "s1", &endpoint("host-a", "6379"), 2 + n).unwrap();
        assert_eq!(address(&again), address(&first));
        assert_eq!(state.len(), 1);
        assert_eq!(state.last_active("s1"), Some(2 + n));
    }
}

#[test]
fn a_known_session_keeps_its_client_whatever_the_endpoint() {
    let mut state = AppState::new(3600);
    get_redis_client(&mut state, "s1", &endpoint("host-a", "6379"), 1).unwrap();
    let again = get_redis_client(&mut state, "s1", &endpoint("host-b", "7000"), 2).unwrap();
    assert_eq!(address(&again), redis::ConnectionAddr::Tcp("host-a".to_string(), 6379));
    let even_invalid = get_redis_client(&mut state, "s1", &endpoint("", "x"), 3).unwrap();
    assert_eq!(address(&even_invalid), redis::ConnectionAddr::Tcp("host-a".to_string(), 6379));
    assert_eq!(state.len(), 1);
}

#[test]
fn sessions_are_kept_apart() {
    let mut state = AppState::new(3600);
    let a = get_redis_client(&mut state, "a", &endpoint("host-a", "6379"), 1).unwrap();
    let b = get_redis_client(&mut state, "b", &endpoint("host-b", "6380"), 2).unwrap();
    assert_eq!(address(&a), redis::ConnectionAddr::Tcp("host-a".to_string(), 6379));
    assert_eq!(address(&b), redis::ConnectionAddr::Tcp("host-b".to_string(), 6380));
    assert_eq!(state.len(), 2);
    assert_eq!(state.last_active("a"), Some(1));
    assert_eq!(state.last_active("b"), Some(2));
}

#[test]
fn a_failed_creation_is_not_recorded_and_the_next_request_retries() {
    let mut state = AppState::new(3600);
    match get_redis_client(&mut state, "s1", &endpoint("localhost", "nope"), 1) {
        Err(e) => assert_eq!(e, KVAdminerError::InvalidRedisUrl),
        Ok(_) => panic!("a client for an invalid endpoint"),
    }
    assert_eq!(state.len(), 0);
    assert_eq!(state.last_active("s1"), None);
    let client = get_redis_client(&mut state, "s1", &endpoint("localhost", "6379"), 2).unwrap();
    assert_eq!(address(&client), redis::ConnectionAddr::Tcp("localhost".to_string(), 6379));
    assert_eq!(state.len(), 1);
}

#[test]
fn sweep_removes_exactly_the_sessions_idle_for_longer_than_the_timeout() {
    let mut state = AppState::new(100);
    get_redis_client(&mut state, "old", &endpoint("h", "1"), 0).unwrap();
    get_redis_client(&mut state, "edge", &endpoint("h", "2"), 50).unwrap();
    get_redis_client(&mut state, "fresh", &endpoint("h", "3"), 120).unwrap();
    cleanup_expired_sessions(&mut state, 150);
    assert_eq!(state.last_active("old"), None);
    assert_eq!(state.last_active("edge"), Some(50));
    assert_eq!(state.last_active("fresh"), Some(120));
    assert_eq!(state.len(), 2);
    cleanup_expired_sessions(&mut state, 151);
    assert_eq!(state.last_active("edge"), None);
    assert_eq!(state.len(), 1);
}

#[test]
fn a_session_touched_within_the_window_survives() {
    let mut state = AppState::new(60);
    get_redis_client(&mut state, "s", &endpoint("h", "1"), 0).unwrap();
    get_redis_client(&mut state, "s", &endpoint("h", "1"), 50).unwrap();
    cleanup_expired_sessions(&mut state, 100);
    assert_eq!(state.last_active("s"), Some(50));
    cleanup_expired_sessions(&mut state, 111);
    assert_eq!(state.last_active("s"), None);
    assert_eq!(state.len(), 0);
}

#[test]
fn sweep_before_the_last_use_removes_nothing() {
    let mut state = AppState::new(0);
    get_redis_client(&mut state, "s", &endpoint("h", "1"), 500).unwrap();
    cleanup_expired_sessions(&mut state, 10);
    assert_eq!(state.len(), 1);
    cleanup_expired_sessions(&mut state, 500);
    assert_eq!(state.len(), 1);
    cleanup_expired_sessions(&mut state, 501);
    assert_eq!(state.len(), 0);
}

#[test]
fn sweep_keeps_the_timeout_and_the_clients() {
    let mut state = AppState::new(10);
    get_redis_client(&mut state, "a", &endpoint("host-a", "1"), 0).unwrap();
    get_redis_client(&mut state, "b", &endpoint("host-b", "2"), 95).unwrap();
    cleanup_expired_sessions(&mut state, 100);
    assert_eq!(state.session_timeout(), 10);
    let b = get_redis_client(&mut state, "b", &endpoint("other", "9"), 100).unwrap();
    assert_eq!(address(&b), redis::ConnectionAddr::Tcp("host-b".to_string(), 2));
    let a = get_redis_client(&mut state, "a", &endpoint("other", "9"), 100).unwrap();
    assert_eq!(address(&a), redis::ConnectionAddr::Tcp("other".to_string(), 9));
}

#[test]
fn generated_session_id_is_a_hyphenated_version_4_uuid() {
    let id = generate_session_id();
    let chars: Vec<char> = id.chars().collect();
    assert_eq!(chars.len(), 36);
    for (i, c) in chars.iter().enumerate() {
        if i == 8 || i == 13 || i == 18 || i == 23 {
            assert_eq!(*c, '-');
        } else {
            assert!(c.is_ascii_digit() || ('a'..='f').contains(c), "{:?} at {}", c, i);
        }
    }
    assert_eq!(chars[14], '4');
    assert!(matches!(chars[19], '8' | '9' | 'a' | 'b'));
}

#[test]
fn generated_session_ids_differ() {
    let a = generate_session_id();
    let b = generate_session_id();
    assert_ne!(a, b);
}

#[test]
fn session_id_comes_from_the_cookie_where_there_is_one() {
    assert_eq!(get_or_create_session_id(Some("abc-123")), "abc-123");
    assert_eq!(get_or_create_session_id(Some("")), "");
}

#[test]
fn session_id_is_fresh_without_a_cookie() {
    let id = get_or_create_session_id(None);
    assert_eq!(id.chars().count(), 36);
    assert_ne!(id, get_or_create_session_id(None));
}

#[test]
fn touch_of_an_unknown_session_changes_nothing() {
    let mut state = AppState::new(10);
    assert!(state.touch("nobody", 5).is_none());
    assert_eq!(state.len(), 0);
}

#[test]
fn record_then_touch_hands_out_the_recorded_client() {
    let mut state = AppState::new(10);
    let client = redis::Client::open("redis://host-a:1/").unwrap();
    state.record("s", client, 3);
    assert_eq!(state.last_active("s"), Some(3));
    let got = state.touch("s", 7).expect("the session is recorded");
    assert_eq!(address(&got), redis::ConnectionAddr::Tcp("host-a".to_string(), 1));
    assert_eq!(state.last_active("s"), Some(7));
    assert_eq!(state.len(), 1);
}

#[test]
fn record_replaces_what_was_recorded() {
    let mut state = AppState::new(10);
    state.record("s", redis::Client::open("redis://host-a:1/").unwrap(), 3);
    state.record("t", redis::Client::open("redis://host-c:3/").unwrap(), 4);
    state.record("s", redis::Client::open("redis://host-b:2/").unwrap(), 9);
    assert_eq!(state.len(), 2);
    assert_eq!(state.last_active("s"), Some(9));
    assert_eq!(state.last_active("t"), Some(4));
    let got = state.touch("s", 9).unwrap();
    assert_eq!(address(&got), redis::ConnectionAddr::Tcp("host-b".to_string(), 2));
}
