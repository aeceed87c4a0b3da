//! This node's own identity.
use vstd::prelude::*;

verus! {

/// Role of a node in the cluster. Present in the data model, but both roles
/// run the same heartbeat and failure logic — no path branches on it.
#[derive(Clone)]
pub enum Roles {
    Leader,
    Follower,
}

/// This node's identity: its id, role, and listening port.
pub struct Node {
    pub id: usize,
    pub role: Roles,
    pub port: String,
}

impl Node {
    /// Bundles an identity from its parts.
    pub fn new(id: usize, role: Roles, port: String) -> (n: Node)
        ensures
            n.id == id,
            n.role == role,
            n.port == port,
    {
        Node { id, role, port }
    }
}

} // verus!
