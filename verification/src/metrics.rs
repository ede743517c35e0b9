//! Routing observability counters.

use crate::ids::same_text;
use vstd::prelude::*;

verus! {

/// The counter after one more event; counters wrap around at `u64::MAX`.
pub open spec fn bumped(c: u64) -> u64 {
    if c == u64::MAX {
        0
    } else {
        (c + 1) as u64
    }
}

/// The counter after adding `n`, wrapping around.
pub open spec fn added(c: u64, n: u64) -> u64 {
    ((c as int + n as int) % 0x1_0000_0000_0000_0000) as u64
}

fn bump(c: u64) -> (r: u64)
    ensures
        r == bumped(c),
{
    if c == u64::MAX {
        0
    } else {
        c + 1
    }
}

/// Counts of routing outcomes.
#[derive(Debug, Default, Clone, Copy)]
pub struct RoutingStats {
    pub exact_kv_events: u64,
    pub session_affinity: u64,
    pub load_aware: u64,
    pub fallback_p2c: u64,
    pub fallback_round_robin: u64,
    /// Exact hits whose last matched page ends on a semantic anchor.
    pub anchor_aligned_hits: u64,
    /// Sum of matched pages across exact hits.
    pub exact_matched_pages_total: u64,
}

impl RoutingStats {
    pub fn new() -> (r: Self)
        ensures
            r.exact_kv_events == 0,
            r.session_affinity == 0,
            r.load_aware == 0,
            r.fallback_p2c == 0,
            r.fallback_round_robin == 0,
            r.anchor_aligned_hits == 0,
            r.exact_matched_pages_total == 0,
    {
        RoutingStats {
            exact_kv_events: 0,
            session_affinity: 0,
            load_aware: 0,
            fallback_p2c: 0,
            fallback_round_robin: 0,
            anchor_aligned_hits: 0,
            exact_matched_pages_total: 0,
        }
    }

    /// Counts one route of the named mode; unknown names are ignored.
    pub fn record_mode(&mut self, mode: &str)
        ensures
            final(self).exact_kv_events == (if mode@ == "exact_kv_events"@ {
                bumped(old(self).exact_kv_events)
            } else {
                old(self).exact_kv_events
            }),
            final(self).session_affinity == (if mode@ == "session_affinity"@ {
                bumped(old(self).session_affinity)
            } else {
                old(self).session_affinity
            }),
            final(self).load_aware == (if mode@ == "load_aware"@ {
                bumped(old(self).load_aware)
            } else {
                old(self).load_aware
            }),
            final(self).fallback_p2c == (if mode@ == "fallback_p2c"@ {
                bumped(old(self).fallback_p2c)
            } else {
                old(self).fallback_p2c
            }),
            final(self).fallback_round_robin == (if mode@ == "fallback_round_robin"@ {
                bumped(old(self).fallback_round_robin)
            } else {
                old(self).fallback_round_robin
            }),
            final(self).anchor_aligned_hits == old(self).anchor_aligned_hits,
            final(self).exact_matched_pages_total == old(self).exact_matched_pages_total,
    {
        proof {
            reveal_strlit("exact_kv_events");
            reveal_strlit("session_affinity");
            reveal_strlit("load_aware");
            reveal_strlit("fallback_p2c");
            reveal_strlit("fallback_round_robin");
            assert("exact_kv_events"@.len() == 15);
            assert("session_affinity"@.len() == 16);
            assert("load_aware"@.len() == 10);
            assert("fallback_p2c"@.len() == 12);
            assert("fallback_round_robin"@.len() == 20);
        }
        if same_text(mode, "exact_kv_events") {
            self.exact_kv_events = bump(self.exact_kv_events);
        } else if same_text(mode, "session_affinity") {
            self.session_affinity = bump(self.session_affinity);
        } else if same_text(mode, "load_aware") {
            self.load_aware = bump(self.load_aware);
        } else if same_text(mode, "fallback_p2c") {
            self.fallback_p2c = bump(self.fallback_p2c);
        } else if same_text(mode, "fallback_round_robin") {
            self.fallback_round_robin = bump(self.fallback_round_robin);
        }
    }

    /// Accounts an exact hit of `matched_pages` pages.
    pub fn record_exact_hit(&mut self, matched_pages: usize, anchor_aligned: bool)
        ensures
            final(self).exact_matched_pages_total == added(
                old(self).exact_matched_pages_total,
                matched_pages as u64,
            ),
            final(self).anchor_aligned_hits == (if anchor_aligned {
                bumped(old(self).anchor_aligned_hits)
            } else {
                old(self).anchor_aligned_hits
            }),
            final(self).exact_kv_events == old(self).exact_kv_events,
            final(self).session_affinity == old(self).session_affinity,
            final(self).load_aware == old(self).load_aware,
            final(self).fallback_p2c == old(self).fallback_p2c,
            final(self).fallback_round_robin == old(self).fallback_round_robin,
    {
        let n = matched_pages as u64;
        let t = self.exact_matched_pages_total;
        self.exact_matched_pages_total = if t > u64::MAX - n {
            n - (u64::MAX - t) - 1
        } else {
            t + n
        };
        if anchor_aligned {
            self.anchor_aligned_hits = bump(self.anchor_aligned_hits);
        }
    }
}

} // verus!
