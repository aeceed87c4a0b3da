//! Cluster membership: the table of known peers, their liveness state, and
//! the failure sweep that demotes peers whose last contact has gone stale.
//!
//! The table is built once at startup; afterwards only `last_seen` and
//! `health` of each peer change.
use vstd::prelude::*;

verus! {

/// Liveness state of a peer. There is no intermediate state: a stale peer
/// goes straight to `Dead`, and a fresh heartbeat revives it.
#[derive(Clone, Debug, PartialEq, Eq, Structural)]
pub enum Health {
    Alive,
    Dead,
}

/// One other node of the cluster, tracked locally.
#[derive(Clone)]
pub struct Peer {
    /// Unique numeric identifier within the cluster.
    pub node_id: usize,
    /// Address used to reach the peer.
    pub url: String,
    /// Unix timestamp of the last confirmed contact.
    pub last_seen: u64,
    /// Current liveness verdict.
    pub health: Health,
}

/// A peer, at the specification level.
pub struct PeerModel {
    pub node_id: usize,
    pub url: Seq<char>,
    pub last_seen: u64,
    pub health: Health,
}

impl View for Peer {
    type V = PeerModel;

    open spec fn view(&self) -> PeerModel {
        PeerModel {
            node_id: self.node_id,
            url: self.url@,
            last_seen: self.last_seen,
            health: self.health,
        }
    }
}

impl DeepView for Peer {
    type V = PeerModel;

    open spec fn deep_view(&self) -> PeerModel {
        self@
    }
}

/// The node ids of the table, in table order.
pub open spec fn peer_ids(ps: Seq<PeerModel>) -> Seq<usize> {
    ps.map_values(|p: PeerModel| p.node_id)
}

/// A peer the failure detector must demote: still believed alive, but its
/// last contact lies further back than the timeout threshold.
pub open spec fn times_out(p: PeerModel, now: u64, threshold: u64) -> bool {
    p.health == Health::Alive && now - p.last_seen > threshold
}

/// One peer after a sweep: demoted to `Dead` exactly when it timed out; a
/// peer already `Dead` is left untouched.
pub open spec fn swept(p: PeerModel, now: u64, threshold: u64) -> PeerModel {
    if times_out(p, now, threshold) {
        PeerModel { health: Health::Dead, ..p }
    } else {
        p
    }
}

/// The node ids a sweep reports: the peers that transitioned from `Alive`
/// to `Dead` in this pass, in table order.
pub open spec fn swept_failed_ids(ps: Seq<PeerModel>, now: u64, threshold: u64) -> Seq<usize> {
    ps.filter_map(
        |p: PeerModel|
            if times_out(p, now, threshold) {
                Some(p.node_id)
            } else {
                None
            },
    )
}

/// One failure-detector pass at time `now`: every peer still `Alive` whose
/// `last_seen` is more than `threshold` seconds old becomes `Dead`; the ids
/// of the newly failed peers are returned in table order, for observability
/// only.
#[verifier::loop_isolation(false)]
pub fn sweep_failures(peers: &mut Vec<Peer>, now: u64, threshold: u64) -> (failed: Vec<usize>)
    ensures
        final (peers)@.len() == old(peers)@.len(),
        forall|j: int|
            0 <= j < old(peers)@.len() ==> final (peers).deep_view()[j] == swept(
                old(peers).deep_view()[j],
                now,
                threshold,
            ),
        failed@ == swept_failed_ids(old(peers).deep_view(), now, threshold),
{
    let ghost orig = peers.deep_view();
    let ghost pick = |p: PeerModel|
        if times_out(p, now, threshold) {
            Some(p.node_id)
        } else {
            None
        };
    let mut failed: Vec<usize> = Vec::new();
    let n = peers.len();
    let mut i: usize = 0;
    proof {
        assert(orig.take(0) =~= Seq::<PeerModel>::empty());
        assert(orig.take(0).filter_map(pick) =~= Seq::<usize>::empty());
    }
    while i < n
        invariant
            i <= n,
            n == peers@.len(),
            n == orig.len(),
            orig == old(peers).deep_view(),
            forall|j: int| 0 <= j < i ==> (#[trigger] peers@[j])@ == swept(orig[j], now, threshold),
            forall|j: int| i <= j < n ==> peers@[j] == old(peers)@[j],
            failed@ == orig.take(i as int).filter_map(pick),
        decreases n - i,
    {
        proof {
            Seq::lemma_filter_map_take_succ(orig, pick, i as int);
            assert(peers@[i as int] == old(peers)@[i as int]);
            assert(peers.deep_view()[i as int] == orig[i as int]);
        }
        let alive = peers[i].health == Health::Alive;
        let last_seen = peers[i].last_seen;
        if alive && last_seen < now && now - last_seen > threshold {
            let ghost before = peers@;
            let p = &mut peers[i];
            p.health = Health::Dead;
            failed.push(p.node_id);
            proof {
                assert(peers@ == before.update(i as int, peers@[i as int]));
                assert(peers@[i as int]@ == swept(orig[i as int], now, threshold));
                assert forall|j: int| 0 <= j < i as int + 1 implies (#[trigger] peers@[j])@
                    == swept(orig[j], now, threshold) by {
                    if j < i as int {
                        assert(peers@[j] == before[j]);
                    }
                }
                assert(failed@ =~= orig.take(i as int + 1).filter_map(pick));
            }
        } else {
            proof {
                assert(!times_out(orig[i as int], now, threshold));
                assert(failed@ =~= orig.take(i as int + 1).filter_map(pick));
            }
        }
        i += 1;
    }
    proof {
        assert(orig.take(n as int) =~= orig);
        assert forall|j: int| 0 <= j < orig.len() implies peers.deep_view()[j] == swept(
            orig[j],
            now,
            threshold,
        ) by {
            assert(peers.deep_view()[j] == (#[trigger] peers@[j])@);
        }
    }
    failed
}

} // verus!
