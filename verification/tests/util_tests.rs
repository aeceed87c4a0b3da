use kvnode::membership::Health;
use kvnode::util::{get_unix_epoch_seconds, parse_peer_urls, parse_peer_urls_at};

#[test]
fn single_url_gets_host_digit_id() {
    let peers = parse_peer_urls_at("http://node1:7878", 42);
    assert_eq!(peers.len(), 1);
    assert_eq!(peers[0].node_id, 1);
    assert_eq!(peers[0].url, "http://node1:7878".to_string());
    assert_eq!(peers[0].last_seen, 42);
    assert_eq!(peers[0].health, Health::Alive);
}

#[test]
fn urls_are_trimmed_and_empty_entries_skipped() {
    let peers = parse_peer_urls_at(" http://node2:7878 , ,http://node3:7878,", 7);
    assert_eq!(peers.len(), 2);
    assert_eq!(peers[0].node_id, 2);
    assert_eq!(peers[0].url, "http://node2:7878".to_string());
    assert_eq!(peers[1].node_id, 3);
    assert_eq!(peers[1].url, "http://node3:7878".to_string());
}

#[test]
fn tabs_and_newlines_are_trimmed_too() {
    let peers = parse_peer_urls_at("\thttp://node8:7878\n", 7);
    assert_eq!(peers.len(), 1);
    assert_eq!(peers[0].url, "http://node8:7878".to_string());
    assert_eq!(peers[0].node_id, 8);
}

#[test]
fn url_without_scheme_separator_is_skipped() {
    let peers = parse_peer_urls_at("node1:7878", 7);
    assert!(peers.is_empty());
}

#[test]
fn host_without_digits_falls_back_to_id_zero() {
    let peers = parse_peer_urls_at("http://alpha:7878", 7);
    assert_eq!(peers.len(), 1);
    assert_eq!(peers[0].node_id, 0);
}

#[test]
fn scattered_host_digits_are_concatenated() {
    let peers = parse_peer_urls_at("https://node12x3:7878", 7);
    assert_eq!(peers.len(), 1);
    assert_eq!(peers[0].node_id, 123);
}

#[test]
fn port_digits_are_not_part_of_the_id() {
    let peers = parse_peer_urls_at("http://n4:9999", 7);
    assert_eq!(peers.len(), 1);
    assert_eq!(peers[0].node_id, 4);
}

#[test]
fn overflowing_host_digits_fall_back_to_id_zero() {
    let peers = parse_peer_urls_at("http://n99999999999999999999999999:7878", 7);
    assert_eq!(peers.len(), 1);
    assert_eq!(peers[0].node_id, 0);
}

#[test]
fn empty_list_gives_no_peers() {
    assert!(parse_peer_urls_at("", 7).is_empty());
    assert!(parse_peer_urls_at(" , ,", 7).is_empty());
}

#[test]
fn parse_peer_urls_stamps_current_time() {
    let before = get_unix_epoch_seconds();
    let peers = parse_peer_urls("http://node1:7878".to_string());
    let after = get_unix_epoch_seconds();
    assert_eq!(peers.len(), 1);
    assert!(before <= peers[0].last_seen && peers[0].last_seen <= after);
}
