//! Distributed search coordination: cluster membership filtering, a
//! consistent-hash ring, file-list partitioning, work-group admission,
//! remote-scan plan rewriting, and the coordinator state machine that ties
//! them together.

pub mod admission;
pub mod coordinator;
pub mod error;
pub mod node;
pub mod partition;
pub mod plan;
pub mod ring;
pub mod schema_history;
pub mod stats;
pub mod status;
