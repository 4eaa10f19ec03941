//! Reading, writing and listing against a store that lives in memory.

use kvadminer::errors::KVAdminerError;
use kvadminer::handlers::{KeyListing, ListStep, PaginatedKeys, PaginationParams};
use kvadminer::redis_ops::{
    begin_read, begin_write, continue_write, get_redis_value, set_redis_value, ReadState,
    ReadStep, RedisValueType, StoreCommand, StoreReply, WriteStep,
};
use kvadminer::text::split_trimmed;
use std::collections::{BTreeMap, BTreeSet};

#[derive(Debug, Clone)]
enum Entry {
    Text(String),
    List(Vec<String>),
    Members(BTreeSet<String>),
    Ranked(Vec<(u64, String)>),
    Fields(Vec<(String, String)>),
    Stream,
}

struct Store {
    entries: BTreeMap<String, Entry>,
    batch: usize,
    sent: Vec<StoreCommand>,
    fail_reads_of: Option<String>,
}

fn failure(text: &str) -> KVAdminerError {
    KVAdminerError::RedisError(text.to_string())
}

impl Store {
    fn new() -> Store {
        Store { entries: BTreeMap::new(), batch: 1000, sent: Vec::new(), fail_reads_of: None }
    }

    fn with_keys(keys: &[&str]) -> Store {
        let mut store = Store::new();
        for key in keys {
            store.entries.insert(key.to_string(), Entry::Text(format!("value of {}", key)));
        }
        store
    }

    fn run(&mut self, command: &StoreCommand) -> Result<StoreReply, KVAdminerError> {
        let reply = match command {
            StoreCommand::Type { key } => {
                let name = match self.entries.get(key) {
                    None => "none",
                    Some(Entry::Text(_)) => "string",
                    Some(Entry::List(_)) => "list",
                    Some(Entry::Members(_)) => "set",
                    Some(Entry::Ranked(_)) => "zset",
                    Some(Entry::Fields(_)) => "hash",
                    Some(Entry::Stream) => "stream",
                };
                Ok(StoreReply::Text(name.to_string()))
            }
            StoreCommand::Get { key } => {
                if self.fail_reads_of.as_deref() == Some(key.as_str()) {
                    Err(failure("read failed"))
                } else {
                    match self.entries.get(key) {
                        Some(Entry::Text(text)) => Ok(StoreReply::Text(text.clone())),
                        _ => Err(failure("WRONGTYPE")),
                    }
                }
            }
            StoreCommand::LRange { key, start, stop } => {
                assert_eq!((*start, *stop), (0, -1));
                match self.entries.get(key) {
                    Some(Entry::List(items)) => Ok(StoreReply::Items(items.clone())),
                    _ => Err(failure("WRONGTYPE")),
                }
            }
            StoreCommand::SMembers { key } => match self.entries.get(key) {
                Some(Entry::Members(items)) => {
                    Ok(StoreReply::Items(items.iter().rev().cloned().collect()))
                }
                _ => Err(failure("WRONGTYPE")),
            },
            StoreCommand::ZRange { key, start, stop } => {
                assert_eq!((*start, *stop), (0, -1));
                match self.entries.get(key) {
                    Some(Entry::Ranked(items)) => {
                        let mut sorted = items.clone();
                        sorted.sort();
                        Ok(StoreReply::Items(sorted.into_iter().map(|(_, m)| m).collect()))
                    }
                    _ => Err(failure("WRONGTYPE")),
                }
            }
            StoreCommand::HGetAll { key } => match self.entries.get(key) {
                Some(Entry::Fields(fields)) => Ok(StoreReply::Pairs(fields.clone())),
                _ => Err(failure("WRONGTYPE")),
            },
            StoreCommand::SetString { key, value } => {
                self.entries.insert(key.clone(), Entry::Text(value.clone()));
                Ok(StoreReply::Done)
            }
            StoreCommand::Del { key } => {
                self.entries.remove(key);
                Ok(StoreReply::Done)
            }
            StoreCommand::RPush { key, values } => {
                match self.entries.entry(key.clone()).or_insert(Entry::List(Vec::new())) {
                    Entry::List(items) => {
                        items.extend(values.iter().cloned());
                        Ok(StoreReply::Done)
                    }
                    _ => Err(failure("WRONGTYPE")),
                }
            }
            StoreCommand::SAdd { key, members } => {
                match self.entries.entry(key.clone()).or_insert(Entry::Members(BTreeSet::new())) {
                    Entry::Members(items) => {
                        items.extend(members.iter().cloned());
                        Ok(StoreReply::Done)
                    }
                    _ => Err(failure("WRONGTYPE")),
                }
            }
            StoreCommand::ZAdd { key, entries } => {
                match self.entries.entry(key.clone()).or_insert(Entry::Ranked(Vec::new())) {
                    Entry::Ranked(items) => {
                        for (rank, member) in entries {
                            items.retain(|(_, m)| m != member);
                            items.push((*rank, member.clone()));
                        }
                        Ok(StoreReply::Done)
                    }
                    _ => Err(failure("WRONGTYPE")),
                }
            }
            StoreCommand::HSetMultiple { key, pairs } => {
                match self.entries.entry(key.clone()).or_insert(Entry::Fields(Vec::new())) {
                    Entry::Fields(fields) => {
                        for (field, value) in pairs {
                            fields.retain(|(f, _)| f != field);
                            fields.push((field.clone(), value.clone()));
                        }
                        Ok(StoreReply::Done)
                    }
                    _ => Err(failure("WRONGTYPE")),
                }
            }
            StoreCommand::HSet { key, field, value } => {
                match self.entries.entry(key.clone()).or_insert(Entry::Fields(Vec::new())) {
                    Entry::Fields(fields) => {
                        fields.retain(|(f, _)| f != field);
                        fields.push((field.clone(), value.clone()));
                        Ok(StoreReply::Done)
                    }
                    _ => Err(failure("WRONGTYPE")),
                }
            }
            StoreCommand::Scan { cursor, pattern, count } => {
                assert_eq!(*count, 1000);
                let wanted = pattern.trim_matches('*').to_string();
                let keys: Vec<String> =
                    self.entries.keys().filter(|k| k.contains(&wanted)).cloned().collect();
                let from = *cursor as usize;
                let to = usize::min(from + self.batch, keys.len());
                let next = if to == keys.len() { 0 } else { to as u64 };
                Ok(StoreReply::Batch(next, keys[from..to].to_vec()))
            }
        };
        self.sent.push(match command {
            StoreCommand::Type { key } => StoreCommand::Type { key: key.clone() },
            StoreCommand::Get { key } => StoreCommand::Get { key: key.clone() },
            StoreCommand::Scan { cursor, pattern, count } => {
                StoreCommand::Scan { cursor: *cursor, pattern: pattern.clone(), count: *count }
            }
            StoreCommand::Del { key } => StoreCommand::Del { key: key.clone() },
            _ => StoreCommand::Type { key: String::new() },
        });
        reply
    }
}

fn read(store: &mut Store, key: &str) -> Result<(String, RedisValueType), KVAdminerError> {
    let mut command = begin_read(key);
    let mut state = ReadState::Probing;
    loop {
        let reply = store.run(&command);
        match get_redis_value(key, state, reply) {
            ReadStep::Send(next, then) => {
                command = next;
                state = then;
            }
            ReadStep::Done(outcome) => return outcome,
        }
    }
}

fn write(
    store: &mut Store,
    key: &str,
    value: &str,
    kind: RedisValueType,
) -> Result<(), KVAdminerError> {
    let mut step = begin_write(set_redis_value(key, value, &kind)?);
    loop {
        match step {
            WriteStep::Send(command, rest) => {
                let reply = store.run(&command);
                step = continue_write(rest, reply);
            }
            WriteStep::Done(outcome) => return outcome,
        }
    }
}

fn list(
    store: &mut Store,
    page: usize,
    page_size: usize,
    search: Option<&str>,
) -> Result<PaginatedKeys, KVAdminerError> {
    let params = PaginationParams { page, page_size, search: search.map(|s| s.to_string()) };
    let (mut command, mut listing) = KeyListing::begin(&params);
    loop {
        let reply = store.run(&command);
        match listing.advance(reply) {
            ListStep::Send(next, then) => {
                command = next;
                listing = then;
            }
            ListStep::Done(outcome) => return outcome,
        }
    }
}

fn names(page: &PaginatedKeys) -> Vec<String> {
    page.keys.iter().map(|(key, _, _)| key.clone()).collect()
}

#[test]
fn list_round_trip_keeps_elements_and_order() {
    let mut store = Store::new();
    write(&mut store, "k", "b , a,c,a", RedisValueType::List).unwrap();
    let (value, kind) = read(&mut store, "k").unwrap();
    assert_eq!(kind, RedisValueType::List);
    assert_eq!(value, "b, a, c, a");
    assert_eq!(split_trimmed(&value, ','), split_trimmed("b , a,c,a", ','));
}

#[test]
fn set_round_trip_keeps_the_members() {
    let mut store = Store::new();
    write(&mut store, "k", "b, a, c, a", RedisValueType::PlainSet).unwrap();
    let (value, kind) = read(&mut store, "k").unwrap();
    assert_eq!(kind, RedisValueType::PlainSet);
    let got: BTreeSet<String> = split_trimmed(&value, ',').into_iter().collect();
    let written: BTreeSet<String> = split_trimmed("b, a, c, a", ',').into_iter().collect();
    assert_eq!(got, written);
}

#[test]
fn sorted_set_round_trip_keeps_the_ranks() {
    let mut store = Store::new();
    write(&mut store, "k", "zeta, alpha, mid", RedisValueType::ZSet).unwrap();
    let (value, kind) = read(&mut store, "k").unwrap();
    assert_eq!(kind, RedisValueType::ZSet);
    assert_eq!(value, "zeta, alpha, mid");
}

#[test]
fn hash_round_trip_has_both_pairs() {
    let mut store = Store::new();
    write(&mut store, "k", "a: 1, b: 2", RedisValueType::Hash).unwrap();
    let (value, kind) = read(&mut store, "k").unwrap();
    assert_eq!(kind, RedisValueType::Hash);
    assert_eq!(value, "a: 1, b: 2");
    match store.entries.get("k") {
        Some(Entry::Fields(fields)) => {
            assert!(fields.contains(&("a".to_string(), "1".to_string())));
            assert!(fields.contains(&("b".to_string(), "2".to_string())));
            assert_eq!(fields.len(), 2);
        }
        other => panic!("unexpected {:?}", other),
    }
}

#[test]
fn string_round_trip_is_exact() {
    let mut store = Store::new();
    write(&mut store, "k", "  spaced, and: odd ", RedisValueType::String).unwrap();
    assert_eq!(
        read(&mut store, "k"),
        Ok(("  spaced, and: odd ".to_string(), RedisValueType::String))
    );
}

#[test]
fn a_write_may_change_the_type_of_an_entry() {
    let mut store = Store::new();
    write(&mut store, "k", "a, b", RedisValueType::List).unwrap();
    write(&mut store, "k", "f: v", RedisValueType::Hash).unwrap();
    assert_eq!(read(&mut store, "k"), Ok(("f: v".to_string(), RedisValueType::Hash)));
    write(&mut store, "k", "x, y", RedisValueType::PlainSet).unwrap();
    let (_, kind) = read(&mut store, "k").unwrap();
    assert_eq!(kind, RedisValueType::PlainSet);
}

#[test]
fn writing_a_string_over_a_list_sends_no_delete() {
    let mut store = Store::new();
    write(&mut store, "k", "a, b", RedisValueType::List).unwrap();
    store.sent.clear();
    write(&mut store, "k", "text", RedisValueType::String).unwrap();
    assert!(!store.sent.contains(&StoreCommand::Del { key: "k".to_string() }));
    assert_eq!(read(&mut store, "k"), Ok(("text".to_string(), RedisValueType::String)));
}

#[test]
fn reading_a_missing_key_is_absent_and_no_error() {
    let mut store = Store::new();
    assert_eq!(read(&mut store, "nothing"), Ok((String::new(), RedisValueType::Absent)));
    assert_eq!(store.sent, vec![StoreCommand::Type { key: "nothing".to_string() }]);
}

#[test]
fn reading_an_entry_of_unknown_type_is_unknown_and_empty() {
    let mut store = Store::new();
    store.entries.insert("s".to_string(), Entry::Stream);
    assert_eq!(read(&mut store, "s"), Ok((String::new(), RedisValueType::Unknown)));
}

#[test]
fn writing_as_absent_touches_nothing() {
    let mut store = Store::new();
    assert_eq!(write(&mut store, "k", "x", RedisValueType::Absent), Err(KVAdminerError::TypeError));
    assert_eq!(
        write(&mut store, "k", "x", RedisValueType::Unknown),
        Err(KVAdminerError::TypeError)
    );
    assert!(store.sent.is_empty());
    assert!(store.entries.is_empty());
}

#[test]
fn listing_three_keys_two_to_a_page() {
    let mut store = Store::with_keys(&["k1", "k2", "k3"]);
    let first = list(&mut store, 0, 2, None).unwrap();
    assert_eq!(first.keys.len(), 2);
    assert_ne!(first.keys[0].0, first.keys[1].0);
    assert_eq!(first.total_keys, 3);
    assert_eq!(first.total_pages, 2);
    assert_eq!(first.current_page, 0);
    let second = list(&mut store, 1, 2, None).unwrap();
    assert_eq!(second.keys.len(), 1);
    assert_eq!(second.total_keys, 3);
    assert_eq!(second.total_pages, 2);
    assert_eq!(second.current_page, 1);
    let mut all = names(&first);
    all.extend(names(&second));
    all.sort();
    assert_eq!(all, vec!["k1".to_string(), "k2".to_string(), "k3".to_string()]);
}

#[test]
fn listing_reads_each_key_of_the_page() {
    let mut store = Store::with_keys(&["k1", "k2", "k3"]);
    write(&mut store, "k2", "a, b", RedisValueType::List).unwrap();
    let page = list(&mut store, 0, 3, None).unwrap();
    assert_eq!(
        page.keys,
        vec![
            ("k1".to_string(), "value of k1".to_string(), RedisValueType::String),
            ("k2".to_string(), "a, b".to_string(), RedisValueType::List),
            ("k3".to_string(), "value of k3".to_string(), RedisValueType::String),
        ]
    );
    assert_eq!(page.total_pages, 1);
}

#[test]
fn listing_starts_the_scan_at_cursor_zero_with_the_pattern() {
    let mut store = Store::with_keys(&["k1"]);
    list(&mut store, 0, 10, None).unwrap();
    assert_eq!(
        store.sent[0],
        StoreCommand::Scan { cursor: 0, pattern: "*".to_string(), count: 1000 }
    );
}

#[test]
fn listing_gathers_keys_over_several_batches() {
    let mut store = Store::with_keys(&["a", "b", "c", "d", "e"]);
    store.batch = 2;
    let page = list(&mut store, 1, 2, None).unwrap();
    assert_eq!(names(&page), vec!["c".to_string(), "d".to_string()]);
    assert_eq!(page.total_keys, 5);
    assert_eq!(page.total_pages, 3);
    let scans: Vec<&StoreCommand> =
        store.sent.iter().filter(|c| matches!(c, StoreCommand::Scan { .. })).collect();
    assert_eq!(
        scans,
        vec![
            &StoreCommand::Scan { cursor: 0, pattern: "*".to_string(), count: 1000 },
            &StoreCommand::Scan { cursor: 2, pattern: "*".to_string(), count: 1000 },
            &StoreCommand::Scan { cursor: 4, pattern: "*".to_string(), count: 1000 },
        ]
    );
}

#[test]
fn listing_with_search_lists_matching_keys() {
    let mut store = Store::with_keys(&["user:1", "user:2", "order:1"]);
    let page = list(&mut store, 0, 10, Some("user")).unwrap();
    assert_eq!(names(&page), vec!["user:1".to_string(), "user:2".to_string()]);
    assert_eq!(page.total_keys, 2);
    assert_eq!(
        store.sent[0],
        StoreCommand::Scan { cursor: 0, pattern: "*user*".to_string(), count: 1000 }
    );
}

#[test]
fn listing_a_page_behind_the_last_is_empty() {
    let mut store = Store::with_keys(&["k1", "k2", "k3"]);
    let page = list(&mut store, 5, 2, None).unwrap();
    assert!(page.keys.is_empty());
    assert_eq!(page.total_keys, 3);
    assert_eq!(page.total_pages, 2);
    assert_eq!(page.current_page, 5);
}

#[test]
fn listing_an_empty_store() {
    let mut store = Store::new();
    let page = list(&mut store, 0, 2, None).unwrap();
    assert!(page.keys.is_empty());
    assert_eq!(page.total_keys, 0);
    assert_eq!(page.total_pages, 0);
}

#[test]
fn a_key_that_cannot_be_read_is_listed_with_an_empty_value() {
    let mut store = Store::with_keys(&["k1", "k2"]);
    store.fail_reads_of = Some("k1".to_string());
    let page = list(&mut store, 0, 2, None).unwrap();
    assert_eq!(
        page.keys,
        vec![
            ("k1".to_string(), String::new(), RedisValueType::Unknown),
            ("k2".to_string(), "value of k2".to_string(), RedisValueType::String),
        ]
    );
}

#[test]
fn a_failed_scan_ends_the_listing() {
    let params = PaginationParams { page: 0, page_size: 2, search: None };
    let (_, listing) = KeyListing::begin(&params);
    match listing.advance(Err(failure("scan failed"))) {
        ListStep::Done(Err(e)) => assert_eq!(e, failure("scan failed")),
        _ => panic!("the listing went on"),
    }
}

#[test]
fn a_scan_reply_that_is_no_batch_ends_the_listing() {
    let params = PaginationParams { page: 0, page_size: 2, search: None };
    let (_, listing) = KeyListing::begin(&params);
    match listing.advance(Ok(StoreReply::Text("x".to_string()))) {
        ListStep::Done(Err(e)) => assert_eq!(e, failure("unexpected reply")),
        _ => panic!("the listing went on"),
    }
}

#[test]
fn a_sorted_set_keeps_a_repeated_element_once_at_its_last_rank() {
    let mut store = Store::new();
    write(&mut store, "k", "a, b, a", RedisValueType::ZSet).unwrap();
    assert_eq!(read(&mut store, "k"), Ok(("b, a".to_string(), RedisValueType::ZSet)));
}

#[test]
fn a_hash_keeps_the_last_value_of_a_repeated_field() {
    let mut store = Store::new();
    write(&mut store, "k", "f: 1, g: 2, f: 3", RedisValueType::Hash).unwrap();
    assert_eq!(read(&mut store, "k"), Ok(("g: 2, f: 3".to_string(), RedisValueType::Hash)));
}
