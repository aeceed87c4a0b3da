use kvnode::store::Store;
use kvnode::wal::{replay_into, WalRecord};

fn s(x: &str) -> String {
    x.to_string()
}

fn put(key: &str, value: &str) -> WalRecord {
    WalRecord::Put { key: s(key), value: s(value) }
}

fn del(key: &str) -> WalRecord {
    WalRecord::Delete { key: s(key) }
}

#[test]
fn encode_put_line() {
    assert_eq!(put("k", "v").encode(), s("put,k,v"));
}

#[test]
fn encode_delete_line() {
    assert_eq!(del("k").encode(), s("delete,k"));
}

#[test]
fn parse_put_line() {
    assert_eq!(WalRecord::parse("put,k,v"), Some(put("k", "v")));
}

#[test]
fn parse_delete_line() {
    assert_eq!(WalRecord::parse("delete,k"), Some(del("k")));
}

#[test]
fn parse_ignores_extra_fields() {
    assert_eq!(WalRecord::parse("put,k,v,extra"), Some(put("k", "v")));
    assert_eq!(WalRecord::parse("delete,k,extra"), Some(del("k")));
}

#[test]
fn parse_rejects_malformed_lines() {
    assert_eq!(WalRecord::parse("garbage"), None);
    assert_eq!(WalRecord::parse(""), None);
    assert_eq!(WalRecord::parse("put,k"), None);
    assert_eq!(WalRecord::parse("delete"), None);
    assert_eq!(WalRecord::parse("PUT,k,v"), None);
}

#[test]
fn encode_then_parse_round_trips() {
    let records = vec![put("alpha", "1"), del("alpha"), put("beta", "two")];
    for record in records {
        let line = record.encode();
        assert_eq!(WalRecord::parse(line.as_str()), Some(record));
    }
}

#[test]
fn replay_rebuilds_state() {
    let mut store = Store::new(16);
    let lines = vec![s("put,a,1"), s("put,b,2"), s("delete,a"), s("put,c,3")];
    replay_into(&mut store, &lines);
    assert_eq!(store.get(s("a")), None);
    assert_eq!(store.get(s("b")), Some(s("2")));
    assert_eq!(store.get(s("c")), Some(s("3")));
    assert_eq!(store.len(), 2);
}

#[test]
fn replay_later_records_override() {
    let mut store = Store::new(16);
    let lines = vec![s("put,k,1"), s("put,k,2"), s("delete,k")];
    replay_into(&mut store, &lines);
    assert_eq!(store.get(s("k")), None);
    assert_eq!(store.len(), 0);
}

#[test]
fn replay_put_after_delete_wins() {
    let mut store = Store::new(16);
    let lines = vec![s("put,k,1"), s("delete,k"), s("put,k,2")];
    replay_into(&mut store, &lines);
    assert_eq!(store.get(s("k")), Some(s("2")));
}

#[test]
fn replay_skips_garbage_line() {
    let mut store = Store::new(16);
    let lines = vec![s("put,a,1"), s("garbage"), s("put,b,2")];
    replay_into(&mut store, &lines);
    assert_eq!(store.get(s("a")), Some(s("1")));
    assert_eq!(store.get(s("b")), Some(s("2")));
    assert_eq!(store.len(), 2);
}

#[test]
fn replay_through_a_bounded_store_is_capacity_bounded() {
    let mut store = Store::new(2);
    let lines = vec![s("put,a,1"), s("put,b,2"), s("put,c,3")];
    replay_into(&mut store, &lines);
    assert_eq!(store.len(), 2);
    assert_eq!(store.get(s("a")), None);
    assert_eq!(store.get(s("b")), Some(s("2")));
    assert_eq!(store.get(s("c")), Some(s("3")));
}

#[test]
fn replay_empty_log_leaves_store_empty() {
    let mut store = Store::new(16);
    let lines: Vec<String> = Vec::new();
    replay_into(&mut store, &lines);
    assert_eq!(store.len(), 0);
}
