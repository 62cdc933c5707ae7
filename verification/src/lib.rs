//! Storage backend binding a Raft-style consensus runtime to an embedded
//! search database: a persistent command log with consensus metadata, a
//! deterministic state-machine adapter, snapshot-based log compaction, and a
//! stable binary encoding for the replicated commands.

pub mod codec;
pub mod ext;
pub mod laws;
pub mod log_store;
pub mod store;
pub mod types;
