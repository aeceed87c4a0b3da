use kvnode::store::Store;

fn s(x: &str) -> String {
    x.to_string()
}

#[test]
fn get_absent_is_none() {
    let mut store = Store::new(4);
    assert_eq!(store.get(s("missing")), None);
}

#[test]
fn put_then_get() {
    let mut store = Store::new(4);
    store.put(s("a"), s("1"));
    assert_eq!(store.get(s("a")), Some(s("1")));
}

#[test]
fn put_overwrites() {
    let mut store = Store::new(4);
    store.put(s("a"), s("1"));
    store.put(s("a"), s("2"));
    assert_eq!(store.get(s("a")), Some(s("2")));
    assert_eq!(store.len(), 1);
}

#[test]
fn delete_removes() {
    let mut store = Store::new(4);
    store.put(s("a"), s("1"));
    store.delete(s("a"));
    assert_eq!(store.get(s("a")), None);
    assert_eq!(store.len(), 0);
}

#[test]
fn delete_absent_is_noop() {
    let mut store = Store::new(4);
    store.put(s("a"), s("1"));
    store.delete(s("b"));
    assert_eq!(store.len(), 1);
    assert_eq!(store.get(s("a")), Some(s("1")));
}

#[test]
fn capacity_never_exceeded() {
    let mut store = Store::new(3);
    store.put(s("k1"), s("1"));
    store.put(s("k2"), s("2"));
    store.put(s("k3"), s("3"));
    store.put(s("k4"), s("4"));
    assert_eq!(store.len(), 3);
    // the least-recently-used key was evicted
    assert_eq!(store.get(s("k1")), None);
    assert_eq!(store.get(s("k4")), Some(s("4")));
}

#[test]
fn recency_get_protects_from_eviction() {
    let mut store = Store::new(2);
    store.put(s("a"), s("1"));
    store.put(s("b"), s("2"));
    assert_eq!(store.get(s("a")), Some(s("1")));
    store.put(s("c"), s("3"));
    assert_eq!(store.get(s("b")), None);
    assert_eq!(store.get(s("a")), Some(s("1")));
    assert_eq!(store.get(s("c")), Some(s("3")));
}
