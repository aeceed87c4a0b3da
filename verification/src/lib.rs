//! A single node of a small distributed key-value store: a bounded
//! least-recently-used cache, an append-only operation log with replay-based
//! recovery, and cluster membership with heartbeat-driven failure detection.

pub mod config;
pub mod heartbeat;
pub mod membership;
pub mod node;
pub mod store;
pub mod text;
pub mod util;
pub mod wal;
