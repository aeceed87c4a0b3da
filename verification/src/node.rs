//! The shared node state and the operations serialized over it.
//!
//! One `NodeState` owns the store, the peer table and the node identity;
//! the surrounding process keeps it behind one exclusive lock together with
//! the open log file, so every operation here runs in a critical section.
//! A mutation is applied to the store only after its log record was durably
//! appended: the caller appends first and reports the outcome, and a failed
//! append leaves the store untouched and surfaces as an error.
use crate::config::Node;
use crate::heartbeat::{
    heartbeat_applied, record_heartbeat, select_probe_urls, alive_urls, HeartbeatResponse,
};
use crate::membership::{swept, swept_failed_ids, Peer};
use crate::store::{entry_value, inserted, removed, touched, Store};
use vstd::prelude::*;

verus! {

/// Interval between heartbeat rounds, in seconds.
pub const HEARTBEAT_INTERVAL_SECS: u64 = 5;

/// Interval between failure-detector sweeps, in seconds.
pub const FAILURE_CHECK_INTERVAL_SECS: u64 = 10;

/// Staleness beyond which an alive peer is declared dead, in seconds.
pub const FAILURE_TIMEOUT_SECS: u64 = 15;

/// An error a mutating operation can surface: only a failed append to the
/// write-ahead log. An absent key is a normal outcome, never an error.
#[derive(Clone, Debug, PartialEq, Eq, Structural)]
pub enum KvError {
    IoError,
}

/// The lock-protected aggregate: store, peer table, and node identity. The
/// open log file stays with the process around it, which cannot be
/// expressed here; its append outcomes are reported to `commit_put` and
/// `commit_delete`.
pub struct NodeState {
    pub node_config: Node,
    pub store: Store,
    pub peers: Vec<Peer>,
}

impl NodeState {
    /// Looks `key` up in the store, marking a hit most-recently-used. The
    /// peer table and identity are untouched.
    pub fn get(&mut self, key: String) -> (r: Option<String>)
        ensures
            final (self).store.capacity() == old(self).store.capacity(),
            final (self).store@ == touched(old(self).store@, key@),
            old(self).store.wf() ==> final (self).store.wf(),
            match r {
                Some(v) => entry_value(old(self).store@, key@) == Some(v@),
                None => entry_value(old(self).store@, key@) is None,
            },
            final (self).peers == old(self).peers,
            final (self).node_config == old(self).node_config,
    {
        self.store.get(key)
    }

    /// Finishes a put whose log record was already appended with the given
    /// outcome: a durable append applies the entry to the store and
    /// succeeds; a failed append leaves every part of the state exactly as
    /// it was and reports the i/o error — nothing unrecoverable is ever
    /// acknowledged.
    pub fn commit_put(&mut self, key: String, value: String, appended: bool) -> (r: Result<
        (),
        KvError,
    >)
        ensures
            appended ==> {
                &&& final (self).store@ == inserted(
                    old(self).store@,
                    old(self).store.capacity(),
                    key@,
                    value@,
                )
                &&& final (self).store.capacity() == old(self).store.capacity()
                &&& (old(self).store.wf() ==> final (self).store.wf())
                &&& (old(self).store.wf() ==> entry_value(final (self).store@, key@) == Some(
                    value@,
                ))
                &&& r is Ok
            },
            !appended ==> *final (self) == *old(self) && r == Result::<(), KvError>::Err(
                KvError::IoError,
            ),
            final (self).peers == old(self).peers,
            final (self).node_config == old(self).node_config,
    {
        if appended {
            self.store.put(key, value);
            Ok(())
        } else {
            Err(KvError::IoError)
        }
    }

    /// Finishes a delete whose log record was already appended with the
    /// given outcome, the same way `commit_put` does.
    pub fn commit_delete(&mut self, key: String, appended: bool) -> (r: Result<(), KvError>)
        ensures
            appended ==> {
                &&& final (self).store@ == removed(old(self).store@, key@)
                &&& final (self).store.capacity() == old(self).store.capacity()
                &&& (old(self).store.wf() ==> final (self).store.wf())
                &&& r is Ok
            },
            !appended ==> *final (self) == *old(self) && r == Result::<(), KvError>::Err(
                KvError::IoError,
            ),
            final (self).peers == old(self).peers,
            final (self).node_config == old(self).node_config,
    {
        if appended {
            self.store.delete(key);
            Ok(())
        } else {
            Err(KvError::IoError)
        }
    }

    /// Applies an inbound heartbeat to the peer table; the store and
    /// identity are untouched.
    pub fn record_heartbeat(&mut self, node_id: usize, now: u64) -> (r: HeartbeatResponse)
        ensures
            final (self).peers.deep_view() == heartbeat_applied(
                old(self).peers.deep_view(),
                node_id,
                now,
            ),
            r.status@ == "ok"@,
            r.node_id == node_id,
            final (self).store == old(self).store,
            final (self).node_config == old(self).node_config,
    {
        record_heartbeat(&mut self.peers, node_id, now)
    }

    /// Runs one failure-detector pass over the peer table; the store and
    /// identity are untouched.
    pub fn sweep_failures(&mut self, now: u64, threshold: u64) -> (failed: Vec<usize>)
        ensures
            final (self).peers@.len() == old(self).peers@.len(),
            forall|j: int|
                0 <= j < old(self).peers@.len() ==> final (self).peers.deep_view()[j] == swept(
                    old(self).peers.deep_view()[j],
                    now,
                    threshold,
                ),
            failed@ == swept_failed_ids(old(self).peers.deep_view(), now, threshold),
            final (self).store == old(self).store,
            final (self).node_config == old(self).node_config,
    {
        crate::membership::sweep_failures(&mut self.peers, now, threshold)
    }

    /// The peers one heartbeat round will probe: read under the lock, so
    /// the list is never torn by a concurrent health transition; the probes
    /// themselves go out after the lock is released.
    pub fn probe_urls(&self) -> (urls: Vec<String>)
        ensures
            urls.deep_view() == alive_urls(self.peers.deep_view()),
    {
        select_probe_urls(&self.peers)
    }
}

} // verus!
