use kvnode::heartbeat::{heartbeat_url, record_heartbeat, select_probe_urls};
use kvnode::membership::{sweep_failures, Health, Peer};

fn peer(node_id: usize, url: &str, last_seen: u64, health: Health) -> Peer {
    Peer { node_id, url: url.to_string(), last_seen, health }
}

#[test]
fn stale_alive_peer_is_swept_dead_then_revived() {
    let now: u64 = 1000;
    let mut peers = vec![peer(7, "http://node7:7878", now - 20, Health::Alive)];
    let failed = sweep_failures(&mut peers, now, 15);
    assert_eq!(failed, vec![7]);
    assert_eq!(peers[0].health, Health::Dead);

    let response = record_heartbeat(&mut peers, 7, now + 1);
    assert_eq!(response.status, "ok".to_string());
    assert_eq!(response.node_id, 7);
    assert_eq!(peers[0].health, Health::Alive);
    assert_eq!(peers[0].last_seen, now + 1);
}

#[test]
fn fresh_peer_survives_sweep() {
    let now: u64 = 1000;
    let mut peers = vec![peer(1, "http://node1:7878", now - 10, Health::Alive)];
    let failed = sweep_failures(&mut peers, now, 15);
    assert!(failed.is_empty());
    assert_eq!(peers[0].health, Health::Alive);
}

#[test]
fn dead_peer_is_not_reported_again() {
    let now: u64 = 1000;
    let mut peers = vec![peer(2, "http://node2:7878", now - 100, Health::Dead)];
    let failed = sweep_failures(&mut peers, now, 15);
    assert!(failed.is_empty());
    assert_eq!(peers[0].health, Health::Dead);
}

#[test]
fn sweep_reports_failures_in_table_order() {
    let now: u64 = 1000;
    let mut peers = vec![
        peer(3, "http://node3:7878", now - 30, Health::Alive),
        peer(4, "http://node4:7878", now - 5, Health::Alive),
        peer(5, "http://node5:7878", now - 40, Health::Alive),
    ];
    let failed = sweep_failures(&mut peers, now, 15);
    assert_eq!(failed, vec![3, 5]);
    assert_eq!(peers[0].health, Health::Dead);
    assert_eq!(peers[1].health, Health::Alive);
    assert_eq!(peers[2].health, Health::Dead);
}

#[test]
fn unknown_peer_heartbeat_is_inert() {
    let mut peers = vec![peer(1, "http://node1:7878", 50, Health::Dead)];
    let response = record_heartbeat(&mut peers, 9999, 100);
    assert_eq!(response.status, "ok".to_string());
    assert_eq!(response.node_id, 9999);
    assert_eq!(peers.len(), 1);
    assert_eq!(peers[0].node_id, 1);
    assert_eq!(peers[0].last_seen, 50);
    assert_eq!(peers[0].health, Health::Dead);
}

#[test]
fn heartbeat_updates_only_matching_peer() {
    let mut peers = vec![
        peer(1, "http://node1:7878", 10, Health::Dead),
        peer(2, "http://node2:7878", 20, Health::Dead),
    ];
    record_heartbeat(&mut peers, 2, 99);
    assert_eq!(peers[0].last_seen, 10);
    assert_eq!(peers[0].health, Health::Dead);
    assert_eq!(peers[1].last_seen, 99);
    assert_eq!(peers[1].health, Health::Alive);
}

#[test]
fn probe_targets_are_the_alive_urls() {
    let peers = vec![
        peer(1, "http://node1:7878", 0, Health::Alive),
        peer(2, "http://node2:7878", 0, Health::Dead),
        peer(3, "http://node3:7878", 0, Health::Alive),
    ];
    let urls = select_probe_urls(&peers);
    assert_eq!(urls, vec!["http://node1:7878".to_string(), "http://node3:7878".to_string()]);
}

#[test]
fn heartbeat_endpoint_is_appended() {
    assert_eq!(
        heartbeat_url("http://node1:7878"),
        "http://node1:7878/internal/heartbeat".to_string()
    );
}
