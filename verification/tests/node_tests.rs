use kvnode::config::{Node, Roles};
use kvnode::membership::{Health, Peer};
use kvnode::node::{
    KvError, NodeState, FAILURE_CHECK_INTERVAL_SECS, FAILURE_TIMEOUT_SECS, HEARTBEAT_INTERVAL_SECS,
};
use kvnode::store::Store;

fn s(x: &str) -> String {
    x.to_string()
}

fn state_with_peers(peers: Vec<Peer>) -> NodeState {
    NodeState {
        node_config: Node::new(1, Roles::Follower, s("7878")),
        store: Store::new(8),
        peers,
    }
}

#[test]
fn committed_put_is_visible() {
    let mut state = state_with_peers(Vec::new());
    let result = state.commit_put(s("a"), s("1"), true);
    assert_eq!(result, Ok(()));
    assert_eq!(state.get(s("a")), Some(s("1")));
}

#[test]
fn failed_append_leaves_value_unchanged() {
    let mut state = state_with_peers(Vec::new());
    state.commit_put(s("a"), s("1"), true).unwrap();
    let result = state.commit_put(s("a"), s("2"), false);
    assert_eq!(result, Err(KvError::IoError));
    assert_eq!(state.get(s("a")), Some(s("1")));
}

#[test]
fn failed_append_inserts_nothing() {
    let mut state = state_with_peers(Vec::new());
    let result = state.commit_put(s("a"), s("1"), false);
    assert_eq!(result, Err(KvError::IoError));
    assert_eq!(state.get(s("a")), None);
}

#[test]
fn committed_delete_removes() {
    let mut state = state_with_peers(Vec::new());
    state.commit_put(s("a"), s("1"), true).unwrap();
    assert_eq!(state.commit_delete(s("a"), true), Ok(()));
    assert_eq!(state.get(s("a")), None);
}

#[test]
fn failed_delete_append_keeps_entry() {
    let mut state = state_with_peers(Vec::new());
    state.commit_put(s("a"), s("1"), true).unwrap();
    assert_eq!(state.commit_delete(s("a"), false), Err(KvError::IoError));
    assert_eq!(state.get(s("a")), Some(s("1")));
}

#[test]
fn coordinator_heartbeat_and_sweep() {
    let now: u64 = 1000;
    let mut state = state_with_peers(vec![Peer {
        node_id: 2,
        url: s("http://node2:7878"),
        last_seen: now - 20,
        health: Health::Alive,
    }]);
    let failed = state.sweep_failures(now, FAILURE_TIMEOUT_SECS);
    assert_eq!(failed, vec![2]);
    assert_eq!(state.peers[0].health, Health::Dead);
    assert!(state.probe_urls().is_empty());

    let response = state.record_heartbeat(2, now);
    assert_eq!(response.status, s("ok"));
    assert_eq!(response.node_id, 2);
    assert_eq!(state.peers[0].health, Health::Alive);
    assert_eq!(state.probe_urls(), vec![s("http://node2:7878")]);
}

#[test]
fn protocol_intervals_are_fixed() {
    assert_eq!(HEARTBEAT_INTERVAL_SECS, 5);
    assert_eq!(FAILURE_CHECK_INTERVAL_SECS, 10);
    assert_eq!(FAILURE_TIMEOUT_SECS, 15);
}
