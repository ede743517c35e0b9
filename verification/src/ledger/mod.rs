//! KV-cache locality ledger and per-worker runtime state.

pub mod radix_tree;
pub mod worker_state;

pub use radix_tree::{LcpMatches, RadixHashTree};
pub use worker_state::{WorkerRuntimeState, WorkerSyncStatus};
