//! Runtime state the gateway keeps for each worker.

use crate::clock::now_millis;
use crate::config::WorkerConfig;
use vstd::prelude::*;

verus! {

/// How far the ledger of a worker can be trusted.
#[derive(Debug, Clone, Copy, PartialEq, Eq, Structural)]
pub enum WorkerSyncStatus {
    Init,
    Syncing,
    Ready,
    Stale,
}

/// The in-flight count after one more request: wraps around at
/// `usize::MAX`, as an atomic add does.
pub open spec fn count_in(active: usize) -> usize {
    if active == usize::MAX {
        0
    } else {
        (active + 1) as usize
    }
}

/// The in-flight count after one request less: never below zero.
pub open spec fn count_out(active: usize) -> usize {
    if active == 0 {
        0
    } else {
        (active - 1) as usize
    }
}

/// Per-worker runtime state: ledger status, in-flight requests, the last
/// KV-event sequence number seen and the last heartbeat.
#[derive(Debug)]
pub struct WorkerRuntimeState {
    pub config: WorkerConfig,
    pub status: WorkerSyncStatus,
    pub active_requests: usize,
    pub last_seq: u64,
    /// Milliseconds since the Unix epoch.
    pub last_heartbeat_ms: u64,
}

impl WorkerRuntimeState {
    pub fn new(config: WorkerConfig) -> (r: Self)
        ensures
            r.config == config,
            r.status == WorkerSyncStatus::Init,
            r.active_requests == 0,
            r.last_seq == 0,
    {
        WorkerRuntimeState {
            config,
            status: WorkerSyncStatus::Init,
            active_requests: 0,
            last_seq: 0,
            last_heartbeat_ms: now_millis(),
        }
    }

    /// Only a worker whose ledger is synchronized takes part in exact KV matching.
    pub fn is_ready_for_exact_kv(&self) -> (r: bool)
        ensures
            r == (self.status == WorkerSyncStatus::Ready),
    {
        self.status == WorkerSyncStatus::Ready
    }

    /// Counts one more in-flight request and returns the new count (the
    /// counter wraps around at `usize::MAX`, as an atomic add does).
    pub fn inc_active_requests(&mut self) -> (r: usize)
        ensures
            r == count_in(old(self).active_requests),
            final(self).active_requests == r,
            final(self).status == old(self).status,
            final(self).config == old(self).config,
            final(self).last_seq == old(self).last_seq,
            final(self).last_heartbeat_ms == old(self).last_heartbeat_ms,
    {
        self.active_requests = if self.active_requests == usize::MAX {
            0
        } else {
            self.active_requests + 1
        };
        self.active_requests
    }

    /// Counts one request less, never going below zero, and returns the new count.
    pub fn dec_active_requests(&mut self) -> (r: usize)
        ensures
            r == count_out(old(self).active_requests),
            final(self).active_requests == r,
            final(self).status == old(self).status,
            final(self).config == old(self).config,
            final(self).last_seq == old(self).last_seq,
            final(self).last_heartbeat_ms == old(self).last_heartbeat_ms,
    {
        if self.active_requests > 0 {
            self.active_requests = self.active_requests - 1;
        }
        self.active_requests
    }

    pub fn get_active_requests(&self) -> (r: usize)
        ensures
            r == self.active_requests,
    {
        self.active_requests
    }

    pub fn set_status(&mut self, new_status: WorkerSyncStatus)
        ensures
            final(self).status == new_status,
            final(self).config == old(self).config,
            final(self).active_requests == old(self).active_requests,
            final(self).last_seq == old(self).last_seq,
            final(self).last_heartbeat_ms == old(self).last_heartbeat_ms,
    {
        self.status = new_status;
    }

    /// A worker whose event stream was just subscribed to starts
    /// synchronizing, unless its ledger already has a status.
    pub fn begin_sync(&mut self)
        ensures
            final(self).status == (if old(self).status == WorkerSyncStatus::Init {
                WorkerSyncStatus::Syncing
            } else {
                old(self).status
            }),
            final(self).config == old(self).config,
            final(self).active_requests == old(self).active_requests,
            final(self).last_seq == old(self).last_seq,
            final(self).last_heartbeat_ms == old(self).last_heartbeat_ms,
    {
        if self.status == WorkerSyncStatus::Init {
            self.status = WorkerSyncStatus::Syncing;
        }
    }

    /// The status's name.
    pub fn status_name(&self) -> (r: &'static str)
        ensures
            r@ == match self.status {
                WorkerSyncStatus::Init => "init"@,
                WorkerSyncStatus::Syncing => "syncing"@,
                WorkerSyncStatus::Ready => "ready"@,
                WorkerSyncStatus::Stale => "stale"@,
            },
    {
        match self.status {
            WorkerSyncStatus::Init => "init",
            WorkerSyncStatus::Syncing => "syncing",
            WorkerSyncStatus::Ready => "ready",
            WorkerSyncStatus::Stale => "stale",
        }
    }

    /// Records a heartbeat at the current time.
    pub fn update_heartbeat(&mut self)
        ensures
            final(self).config == old(self).config,
            final(self).status == old(self).status,
            final(self).active_requests == old(self).active_requests,
            final(self).last_seq == old(self).last_seq,
    {
        self.last_heartbeat_ms = now_millis();
    }
}

/// Counting a request in and then out gives back the count it started from,
/// below the wrap-around point.
pub proof fn lemma_inc_dec_roundtrip(active: usize)
    requires
        active < usize::MAX,
    ensures
        count_out(count_in(active)) == active,
{
}

} // verus!
