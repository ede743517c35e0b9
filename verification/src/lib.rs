//! Cluster gateway core: KV-cache locality ledger, scheduling, event
//! sequencing, session affinity and block-hash alignment.

pub mod bytes;
pub mod clock;
pub mod concurrent;
pub mod config;
pub mod gateway;
pub mod ids;
pub mod json;
pub mod ledger;
pub mod scheduler;
pub mod zmq;
pub mod session_ledger;
pub mod metrics;
pub mod pd;
pub mod hasher;
