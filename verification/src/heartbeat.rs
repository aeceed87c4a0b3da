//! Heartbeat protocol, receiver and sender side.
//!
//! The receiver refreshes the matching peer's liveness when a heartbeat
//! arrives; an unknown sender is ignored and still answered ok. The sender
//! side decides which peers to probe — every peer currently believed alive —
//! while the probes themselves are the transport layer's work: a failed
//! probe never marks a peer dead, only the failure detector's staleness
//! sweep does.
use crate::membership::{peer_ids, Health, Peer, PeerModel};
use vstd::prelude::*;

verus! {

/// Body of an inbound heartbeat: the sending node's id.
pub struct HeartbeatRequest {
    pub node_id: usize,
}

/// Reply to a heartbeat: always ok, echoing the contacted node's id so the
/// prober can correlate replies.
pub struct HeartbeatResponse {
    pub status: String,
    pub node_id: usize,
}

/// The peer whose `node_id` matches is refreshed: seen now, alive.
pub open spec fn refreshed(p: PeerModel, now: u64) -> PeerModel {
    PeerModel { last_seen: now, health: Health::Alive, ..p }
}

/// The table after a heartbeat from `id` at time `now`: the first peer with
/// that id is refreshed, the others are untouched; an unknown id changes
/// nothing.
pub open spec fn heartbeat_applied(ps: Seq<PeerModel>, id: usize, now: u64) -> Seq<PeerModel> {
    match peer_ids(ps).index_of_first(id) {
        Some(i) => ps.update(i, refreshed(ps[i], now)),
        None => ps,
    }
}

/// A heartbeat from an id not in the table leaves the table unchanged — and
/// is still answered ok, as `record_heartbeat` ensures.
pub proof fn lemma_unknown_peer_inert(ps: Seq<PeerModel>, id: usize, now: u64)
    requires
        !peer_ids(ps).contains(id),
    ensures
        heartbeat_applied(ps, id, now) == ps,
{
    peer_ids(ps).index_of_first_ensures(id);
}

/// Handles an inbound heartbeat from `node_id` at time `now`: refreshes the
/// matching peer's `last_seen` and sets it `Alive`; an unknown id is
/// silently ignored. Always returns ok with the sender's id echoed.
#[verifier::loop_isolation(false)]
pub fn record_heartbeat(peers: &mut Vec<Peer>, node_id: usize, now: u64) -> (r: HeartbeatResponse)
    ensures
        final (peers).deep_view() == heartbeat_applied(old(peers).deep_view(), node_id, now),
        r.status@ == "ok"@,
        r.node_id == node_id,
{
    let ghost orig = peers.deep_view();
    let n = peers.len();
    let mut i: usize = 0;
    while i < n
        invariant
            i <= n,
            n == peers@.len(),
            peers@ == old(peers)@,
            forall|j: int| 0 <= j < i ==> peer_ids(orig)[j] != node_id,
        decreases n - i,
    {
        if peers[i].node_id == node_id {
            let ghost before = peers@;
            let p = &mut peers[i];
            p.last_seen = now;
            p.health = Health::Alive;
            proof {
                assert(peers@ == before.update(i as int, peers@[i as int]));
                assert(peers@[i as int]@ == refreshed(orig[i as int], now));
                peer_ids(orig).index_of_first_ensures(node_id);
                assert(peer_ids(orig)[i as int] == node_id);
                match peer_ids(orig).index_of_first(node_id) {
                    Some(k) => {
                        assert(peer_ids(orig)[k] == node_id);
                        assert(k == i as int);
                    },
                    None => {
                        assert(peer_ids(orig).contains(peer_ids(orig)[i as int]));
                        assert(false);
                    },
                }
                assert(peers.deep_view() =~= heartbeat_applied(orig, node_id, now));
            }
            return HeartbeatResponse { status: "ok".to_owned(), node_id };
        }
        i += 1;
    }
    proof {
        if peer_ids(orig).contains(node_id) {
            let k = peer_ids(orig).index_of(node_id);
            assert(peer_ids(orig)[k] == node_id);
        }
        lemma_unknown_peer_inert(orig, node_id, now);
    }
    HeartbeatResponse { status: "ok".to_owned(), node_id }
}

/// The addresses the heartbeat sender probes in one round: the urls of every
/// peer currently believed alive, in table order.
pub open spec fn alive_urls(ps: Seq<PeerModel>) -> Seq<Seq<char>> {
    ps.filter_map(
        |p: PeerModel|
            if p.health == Health::Alive {
                Some(p.url)
            } else {
                None
            },
    )
}

/// Picks the peers to probe this round: every peer currently `Alive`. Peers
/// believed dead are not probed until a fresh heartbeat revives them.
#[verifier::loop_isolation(false)]
pub fn select_probe_urls(peers: &Vec<Peer>) -> (urls: Vec<String>)
    ensures
        urls.deep_view() == alive_urls(peers.deep_view()),
{
    let ghost ps = peers.deep_view();
    let ghost pick = |p: PeerModel|
        if p.health == Health::Alive {
            Some(p.url)
        } else {
            None
        };
    let mut urls: Vec<String> = Vec::new();
    let n = peers.len();
    let mut i: usize = 0;
    proof {
        assert(ps.take(0) =~= Seq::<PeerModel>::empty());
        assert(ps.take(0).filter_map(pick) =~= Seq::<Seq<char>>::empty());
        assert(urls.deep_view() =~= Seq::<Seq<char>>::empty());
    }
    while i < n
        invariant
            i <= n,
            n == peers@.len(),
            urls.deep_view() == ps.take(i as int).filter_map(pick),
        decreases n - i,
    {
        proof {
            Seq::lemma_filter_map_take_succ(ps, pick, i as int);
        }
        let ghost pre = urls.deep_view();
        if peers[i].health == Health::Alive {
            urls.push(peers[i].url.clone());
            proof {
                assert(urls.deep_view() =~= pre + seq![ps[i as int].url]);
            }
        } else {
            proof {
                assert(pick(ps[i as int]) is None);
                assert(ps.take(i as int + 1).filter_map(pick) =~= pre);
            }
        }
        i += 1;
    }
    proof {
        assert(ps.take(n as int) =~= ps);
    }
    urls
}

/// The heartbeat endpoint of a peer reached at `url`.
pub fn heartbeat_url(url: &str) -> (r: String)
    ensures
        r@ == url@ + "/internal/heartbeat"@,
{
    let mut r = url.to_owned();
    r.append("/internal/heartbeat");
    r
}

} // verus!
