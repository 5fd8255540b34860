use nobreak::codec::encode_full_key;
use nobreak::dispatch::answer_status_request;
use nobreak::dispatch::handle_api;
use nobreak::dispatch::load_response;
use nobreak::dispatch::store_response;
use nobreak::key::key_to_path;
use nobreak::key::Key;
use nobreak::ledger::Ledger;
use nobreak::store::StoreError;
use nobreak::store::ValueStore;

fn key(parts: &[&str]) -> Key {
    let segments: Vec<String> = parts.iter().map(|s| s.to_string()).collect();
    match Key::key_from_segments(segments) {
        Ok(k) => k,
        Err(_) => panic!("segments were expected to be acceptable"),
    }
}

fn be32_bytes(n: u32) -> Vec<u8> {
    vec![(n >> 24) as u8, (n >> 16) as u8, (n >> 8) as u8, n as u8]
}

fn request(version: u32, opcode: u32, body: &[u8]) -> Vec<u8> {
    let mut out = be32_bytes(version);
    out.extend_from_slice(&be32_bytes(opcode));
    out.extend_from_slice(body);
    out
}

#[test]
fn store_then_load_returns_exact_bytes() {
    let mut store = ValueStore::new();
    let k = key(&["suite", "t1"]);
    store.store(&k, vec![0x41, 0x42]);
    assert_eq!(store.load(&k).unwrap(), vec![0x41, 0x42]);
}

#[test]
fn store_then_load_empty_value() {
    let mut store = ValueStore::new();
    let k = key(&["suite", "empty"]);
    store.store(&k, vec![]);
    assert_eq!(store.load(&k).unwrap(), Vec::<u8>::new());
}

#[test]
fn load_never_stored_is_not_found() {
    let store = ValueStore::new();
    let k = key(&["missing"]);
    assert_eq!(store.load(&k).unwrap_err(), StoreError::NotFound);
}

#[test]
fn not_found_is_distinct_from_stored_empty_value() {
    let mut store = ValueStore::new();
    let stored = key(&["present"]);
    let missing = key(&["missing"]);
    store.store(&stored, vec![]);
    assert!(store.load(&stored).is_ok());
    assert!(store.load(&missing).is_err());
}

#[test]
fn second_store_overwrites_first() {
    let mut store = ValueStore::new();
    let k = key(&["suite", "t1"]);
    store.store(&k, vec![1, 2, 3]);
    store.store(&k, vec![9]);
    assert_eq!(store.load(&k).unwrap(), vec![9]);
}

#[test]
fn stores_to_different_keys_do_not_interfere() {
    let mut store = ValueStore::new();
    let ka = key(&["suite", "a"]);
    let kb = key(&["suite", "b"]);
    store.store(&ka, vec![1]);
    store.store(&kb, vec![2]);
    assert_eq!(store.load(&ka).unwrap(), vec![1]);
    assert_eq!(store.load(&kb).unwrap(), vec![2]);
}

#[test]
fn three_records_all_land_in_order() {
    let mut ledger = Ledger::new();
    ledger.record_failure(key(&["a"]), "first".to_string());
    ledger.record_failure(key(&["b"]), "second".to_string());
    ledger.record_failure(key(&["c"]), "third".to_string());
    let snap = ledger.snapshot();
    assert_eq!(snap.len(), 3);
    assert_eq!(snap[0].key.segments(), &vec!["a".to_string()]);
    assert_eq!(snap[0].message, "first");
    assert_eq!(snap[1].message, "second");
    assert_eq!(snap[2].message, "third");
}

#[test]
fn snapshot_is_a_copy_not_a_live_view() {
    let mut ledger = Ledger::new();
    ledger.record_failure(key(&["a"]), "one".to_string());
    let snap = ledger.snapshot();
    ledger.record_failure(key(&["b"]), "two".to_string());
    assert_eq!(snap.len(), 1);
    assert_eq!(ledger.snapshot().len(), 2);
}

#[test]
fn record_success_changes_nothing() {
    let mut ledger = Ledger::new();
    ledger.record_failure(key(&["a"]), "one".to_string());
    ledger.record_success(&key(&["a"]));
    assert_eq!(ledger.snapshot().len(), 1);
}

#[test]
fn status_scenario_returns_status_marker() {
    let mut store = ValueStore::new();
    let mut ledger = Ledger::new();
    let mut msg = request(1, 0, &[]);
    let key_bytes: Vec<String> = vec!["a".to_string()];
    msg.extend_from_slice(&encode_full_key(&key_bytes));
    let response = handle_api(&msg, &mut store, &mut ledger);
    assert_eq!(response, vec![b'C']);
}

#[test]
fn log_value_then_load_scenario() {
    let mut store = ValueStore::new();
    let mut ledger = Ledger::new();
    let key_enc = encode_full_key(&vec!["suite".to_string(), "t1".to_string()]);
    let mut body = key_enc.clone();
    body.extend_from_slice(&be32_bytes(2));
    body.extend_from_slice(&[0x41, 0x42]);
    let stored = handle_api(&request(1, 2, &body), &mut store, &mut ledger);
    assert_eq!(stored, vec![b'E']);
    let loaded = handle_api(&request(1, 1, &key_enc), &mut store, &mut ledger);
    assert_eq!(loaded, vec![1, 0x41, 0x42]);
    assert_eq!(store.load(&key(&["suite", "t1"])).unwrap(), vec![0x41, 0x42]);
}

#[test]
fn load_missing_scenario_returns_failure_marker() {
    let mut store = ValueStore::new();
    let mut ledger = Ledger::new();
    let body = encode_full_key(&vec!["missing".to_string()]);
    let response = handle_api(&request(1, 1, &body), &mut store, &mut ledger);
    assert_eq!(response, vec![0]);
    assert_ne!(response, Vec::<u8>::new());
    assert_ne!(response, vec![1]);
}

#[test]
fn loaded_empty_value_is_distinct_from_missing() {
    let mut store = ValueStore::new();
    let mut ledger = Ledger::new();
    let key_enc = encode_full_key(&vec!["empty".to_string()]);
    let mut body = key_enc.clone();
    body.extend_from_slice(&be32_bytes(0));
    handle_api(&request(1, 2, &body), &mut store, &mut ledger);
    let loaded = handle_api(&request(1, 1, &key_enc), &mut store, &mut ledger);
    assert_eq!(loaded, vec![1]);
    assert_ne!(loaded, vec![0]);
}

#[test]
fn log_success_scenario_returns_ack() {
    let mut store = ValueStore::new();
    let mut ledger = Ledger::new();
    let body = encode_full_key(&vec!["a".to_string()]);
    let response = handle_api(&request(1, 3, &body), &mut store, &mut ledger);
    assert_eq!(response, vec![b'F']);
    assert_eq!(ledger.snapshot().len(), 0);
}

#[test]
fn log_fail_scenario_records_and_answers_empty() {
    let mut store = ValueStore::new();
    let mut ledger = Ledger::new();
    let mut body = encode_full_key(&vec!["suite".to_string(), "t9".to_string()]);
    body.extend_from_slice(&be32_bytes(4));
    body.extend_from_slice("boom".as_bytes());
    let response = handle_api(&request(1, 4, &body), &mut store, &mut ledger);
    assert_eq!(response, Vec::<u8>::new());
    let snap = ledger.snapshot();
    assert_eq!(snap.len(), 1);
    assert_eq!(snap[0].key.segments(), &vec!["suite".to_string(), "t9".to_string()]);
    assert_eq!(snap[0].message, "boom");
}

#[test]
fn undecodable_buffer_answers_bad_request_marker() {
    let mut store = ValueStore::new();
    let mut ledger = Ledger::new();
    let response = handle_api(&[1, 2, 3], &mut store, &mut ledger);
    assert_eq!(response, vec![b'A']);
    assert_eq!(ledger.snapshot().len(), 0);
}

#[test]
fn response_markers_have_fixed_values() {
    assert_eq!(answer_status_request(), vec![67]);
    assert_eq!(store_response(true), vec![69]);
    assert_eq!(store_response(false), vec![90]);
    assert_eq!(load_response(None), vec![0]);
    assert_eq!(load_response(Some(vec![7, 8])), vec![1, 7, 8]);
    assert_eq!(load_response(Some(vec![])), vec![1]);
}

#[test]
fn key_to_path_joins_segments_and_appends_suffix() {
    let k = key(&["suite", "caseA"]);
    assert_eq!(key_to_path(&k, "R"), "R/suite/caseA.txt");
}

#[test]
fn key_to_path_single_segment() {
    let k = key(&["a"]);
    assert_eq!(key_to_path(&k, "/data"), "/data/a.txt");
}

#[test]
fn distinct_keys_map_to_distinct_paths() {
    let a = key(&["a.txt"]);
    let b = key(&["a", "txt"]);
    let c = key(&["a"]);
    assert_ne!(key_to_path(&a, "R"), key_to_path(&b, "R"));
    assert_ne!(key_to_path(&a, "R"), key_to_path(&c, "R"));
    assert_ne!(key_to_path(&b, "R"), key_to_path(&c, "R"));
}

#[test]
fn key_from_segments_accepts_and_rejects() {
    assert!(Key::key_from_segments(vec!["a".to_string()]).is_ok());
    assert!(Key::key_from_segments(vec!["a.b".to_string(), "...".to_string()]).is_ok());
    assert!(Key::key_from_segments(Vec::new()).is_err());
    assert!(Key::key_from_segments(vec!["".to_string()]).is_err());
    assert!(Key::key_from_segments(vec!["a/b".to_string()]).is_err());
    assert!(Key::key_from_segments(vec!["a\\b".to_string()]).is_err());
    assert!(Key::key_from_segments(vec![".".to_string()]).is_err());
    assert!(Key::key_from_segments(vec!["ok".to_string(), "..".to_string()]).is_err());
}
