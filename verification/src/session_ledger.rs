//! Agent-declared session state for sticky routing.
//!
//! The agent owns the canonical transcript: it bumps the context epoch when
//! the cacheable prefix changes and publishes the new baseline. The gateway
//! keeps only routing metadata per session (epoch, fingerprint, anchor
//! boundaries and the last worker that served it), so affinity survives
//! while the KV-event ledger is cold.

use crate::clock::now_millis;
use crate::ids::ids_of;
use dashmap::DashMap;
use vstd::prelude::*;

verus! {

/// Sessions idle longer than this many milliseconds are evicted on publish
/// once the ledger is full.
pub const IDLE_TTL_MS: u64 = 86_400_000;

/// Number of sessions from which publishing sweeps idle sessions.
pub const MAX_SESSIONS: usize = 100_000;

/// Routing metadata of one session.
#[derive(Debug, Clone)]
pub struct SessionEntry {
    pub epoch: u64,
    pub prefix_hash: Option<String>,
    /// Message indices of whole-block edit boundaries declared by the agent.
    pub anchor_boundaries: Vec<usize>,
    /// Boundary before which the prefix is pinned stable.
    pub pinned_boundary: usize,
    pub message_count: usize,
    pub last_worker_id: Option<String>,
    /// Milliseconds since the Unix epoch.
    pub last_seen_ms: u64,
}

/// A session entry as plain values.
pub struct SessionView {
    pub epoch: u64,
    pub prefix_hash: Option<Seq<char>>,
    pub anchor_boundaries: Seq<usize>,
    pub pinned_boundary: usize,
    pub message_count: usize,
    pub last_worker_id: Option<Seq<char>>,
    pub last_seen_ms: u64,
}

pub open spec fn opt_text(o: Option<String>) -> Option<Seq<char>> {
    match o {
        Some(s) => Some(s@),
        None => None,
    }
}

impl View for SessionEntry {
    type V = SessionView;

    open spec fn view(&self) -> SessionView {
        SessionView {
            epoch: self.epoch,
            prefix_hash: opt_text(self.prefix_hash),
            anchor_boundaries: self.anchor_boundaries@,
            pinned_boundary: self.pinned_boundary,
            message_count: self.message_count,
            last_worker_id: opt_text(self.last_worker_id),
            last_seen_ms: self.last_seen_ms,
        }
    }
}

/// Payload of an agent's publish call.
#[derive(Debug, Clone)]
pub struct SessionPublishRequest {
    pub epoch: u64,
    pub message_count: usize,
    pub pinned_boundary: Option<usize>,
    pub anchor_boundaries: Option<Vec<usize>>,
    pub fingerprint: Option<SessionFingerprint>,
}

#[derive(Debug, Clone)]
pub struct SessionFingerprint {
    pub algorithm: String,
    pub value: String,
}

/// A fresh session at `epoch`, seen at `now`.
pub open spec fn fresh_session(epoch: u64, now: u64) -> SessionView {
    SessionView {
        epoch,
        prefix_hash: None,
        anchor_boundaries: Seq::empty(),
        pinned_boundary: 0,
        message_count: 0,
        last_worker_id: None,
        last_seen_ms: now,
    }
}

impl SessionEntry {
    /// A session first seen at time `now`, at `epoch`, with no baseline yet.
    pub fn new(epoch: u64, now: u64) -> (r: Self)
        ensures
            r@ == fresh_session(epoch, now),
    {
        SessionEntry {
            epoch,
            prefix_hash: None,
            anchor_boundaries: Vec::new(),
            pinned_boundary: 0,
            message_count: 0,
            last_worker_id: None,
            last_seen_ms: now,
        }
    }
}

/// What a session table holds: session id to its metadata.
pub uninterp spec fn session_table(m: DashMap<String, SessionEntry>) -> Map<Seq<char>, SessionView>;

/// `DashMap::new`: a new map holds nothing.
#[verifier::external_body]
fn session_table_new() -> (r: DashMap<String, SessionEntry>)
    ensures
        session_table(r).dom() == Set::<Seq<char>>::empty(),
{
    DashMap::new()
}

/// `DashMap::get` (cloning the entry out).
#[verifier::external_body]
fn session_table_get(m: &DashMap<String, SessionEntry>, id: &str) -> (r: Option<SessionEntry>)
    ensures
        r is Some <==> session_table(*m).contains_key(id@),
        r matches Some(e) ==> e@ == session_table(*m)[id@],
{
    m.get(id).map(|e| e.value().clone())
}

/// `DashMap::insert`: stores `entry` under `id`, replacing what was there.
#[verifier::external_body]
fn session_table_insert(m: &mut DashMap<String, SessionEntry>, id: String, entry: SessionEntry)
    ensures
        session_table(*final(m)) == session_table(*old(m)).insert(id@, entry@),
{
    m.insert(id, entry);
}

/// `DashMap::remove`: drops the entry under `id`; tells whether there was one.
#[verifier::external_body]
fn session_table_remove(m: &mut DashMap<String, SessionEntry>, id: &str) -> (r: bool)
    ensures
        r == session_table(*old(m)).contains_key(id@),
        session_table(*final(m)) == session_table(*old(m)).remove(id@),
{
    m.remove(id).is_some()
}

/// `DashMap::len`.
#[verifier::external_body]
fn session_table_len(m: &DashMap<String, SessionEntry>) -> (r: usize)
    ensures
        r == session_table(*m).len(),
{
    m.len()
}

/// The (id, last-seen time) pairs of a session table.
pub open spec fn seen_pairs(t: Map<Seq<char>, SessionView>) -> Set<(Seq<char>, u64)> {
    Set::new(|p: (Seq<char>, u64)| t.contains_key(p.0) && t[p.0].last_seen_ms == p.1)
}

/// `DashMap::iter`, keeping each entry's id and last-seen time. The order is
/// left unsaid; each id comes once.
#[verifier::external_body]
fn session_table_seen(m: &DashMap<String, SessionEntry>) -> (r: Vec<(String, u64)>)
    ensures
        r@.map_values(|p: (String, u64)| (p.0@, p.1)).to_set() == seen_pairs(session_table(*m)),
{
    m.iter().map(|e| (e.key().clone(), e.value().last_seen_ms)).collect()
}

/// The ids of the sessions last seen at or before `cutoff`.
fn ids_seen_by(m: &DashMap<String, SessionEntry>, cutoff: u64) -> (r: Vec<String>)
    ensures
        r@.map_values(|s: String| s@).to_set() == session_table(*m).dom().filter(
            |id: Seq<char>| session_table(*m)[id].last_seen_ms <= cutoff,
        ),
{
    let ghost t = session_table(*m);
    let pairs = session_table_seen(m);
    let ghost pv = pairs@.map_values(|p: (String, u64)| (p.0@, p.1));
    let mut out: Vec<String> = Vec::new();
    let mut i: usize = 0;
    while i < pairs.len()
        invariant
            i <= pairs@.len(),
            pv == pairs@.map_values(|p: (String, u64)| (p.0@, p.1)),
            forall|id: Seq<char>|
                #[trigger] ids_of(out@).contains(id) <==> exists|j: int|
                    0 <= j < i && #[trigger] pairs@[j].0@ == id && pairs@[j].1 <= cutoff,
        decreases pairs@.len() - i,
    {
        let ghost before = out@;
        if pairs[i].1 <= cutoff {
            out.push(pairs[i].0.clone());
        }
        proof {
            let ov = ids_of(out@);
            let bv = ids_of(before);
            assert forall|id: Seq<char>| ov.contains(id) <==> exists|j: int|
                0 <= j < i + 1 && #[trigger] pairs@[j].0@ == id && pairs@[j].1 <= cutoff by {
                if ov.contains(id) {
                    let k = choose|k: int| 0 <= k < ov.len() && ov[k] == id;
                    if k < bv.len() {
                        assert(bv[k] == id);
                        assert(bv.contains(id));
                    } else {
                        assert(pairs@[i as int].0@ == id);
                    }
                }
                if exists|j: int| 0 <= j < i + 1 && #[trigger] pairs@[j].0@ == id && pairs@[j].1 <= cutoff {
                    let j = choose|j: int| 0 <= j < i + 1 && #[trigger] pairs@[j].0@ == id && pairs@[j].1 <= cutoff;
                    if j < i {
                        assert(bv.contains(id));
                        let k = choose|k: int| 0 <= k < bv.len() && bv[k] == id;
                        assert(ov[k] == id);
                    } else {
                        assert(ov[ov.len() - 1] == id);
                    }
                }
            }
        }
        i += 1;
    }
    proof {
        let ov = ids_of(out@);
        let f = t.dom().filter(|id: Seq<char>| t[id].last_seen_ms <= cutoff);
        assert forall|id: Seq<char>| ov.to_set().contains(id) <==> f.contains(id) by {
            if ov.contains(id) {
                let j = choose|j: int| 0 <= j < pairs@.len() && #[trigger] pairs@[j].0@ == id && pairs@[j].1 <= cutoff;
                assert(pv[j] == (id, pairs@[j].1));
                assert(pv.contains(pv[j]));
                assert(seen_pairs(t).contains(pv[j]));
            }
            if f.contains(id) {
                let p = (id, t[id].last_seen_ms);
                assert(seen_pairs(t).contains(p));
                assert(pv.to_set().contains(p));
                let j = choose|j: int| 0 <= j < pv.len() && pv[j] == p;
                assert(pairs@[j].0@ == id && pairs@[j].1 <= cutoff);
            }
        }
        assert(ov.to_set() =~= f);
    }
    out
}

/// A session idle for longer than the time-to-live at `now`.
pub open spec fn is_idle(e: SessionView, now: u64) -> bool {
    now > e.last_seen_ms + IDLE_TTL_MS
}

/// The table after the idle sweep that publishing runs: only a full table
/// is swept.
pub open spec fn after_sweep(t: Map<Seq<char>, SessionView>, now: u64) -> Map<Seq<char>, SessionView> {
    if t.len() < MAX_SESSIONS {
        t
    } else {
        Map::new(|id: Seq<char>| t.contains_key(id) && !is_idle(t[id], now), |id: Seq<char>| t[id])
    }
}

/// Whether a publish is accepted: a session held at a newer epoch rejects it.
pub open spec fn publish_accepted(t: Map<Seq<char>, SessionView>, id: Seq<char>, epoch: u64) -> bool {
    !(t.contains_key(id) && epoch < t[id].epoch)
}

/// The entry of a session after an accepted publish.
pub open spec fn published_entry(
    t: Map<Seq<char>, SessionView>,
    id: Seq<char>,
    req: SessionPublishRequest,
    now: u64,
) -> SessionView {
    let e = if t.contains_key(id) {
        t[id]
    } else {
        fresh_session(req.epoch, now)
    };
    SessionView {
        epoch: req.epoch,
        prefix_hash: match req.fingerprint {
            Some(fp) => Some(fp.value@),
            None => e.prefix_hash,
        },
        anchor_boundaries: match req.anchor_boundaries {
            Some(v) => v@,
            None => Seq::empty(),
        },
        pinned_boundary: match req.pinned_boundary {
            Some(p) => p,
            None => 0,
        },
        message_count: req.message_count,
        last_worker_id: if req.epoch > e.epoch || e.message_count == 0 {
            None
        } else {
            e.last_worker_id
        },
        last_seen_ms: now,
    }
}

/// The entry of a session after recording that `worker` served it at `epoch`.
pub open spec fn assigned_entry(
    t: Map<Seq<char>, SessionView>,
    id: Seq<char>,
    epoch: u64,
    worker: Seq<char>,
    now: u64,
) -> SessionView {
    let e = if t.contains_key(id) {
        t[id]
    } else {
        fresh_session(epoch, now)
    };
    SessionView {
        epoch,
        anchor_boundaries: if e.epoch != epoch {
            Seq::empty()
        } else {
            e.anchor_boundaries
        },
        last_worker_id: Some(worker),
        last_seen_ms: now,
        ..e
    }
}

/// The worker a session sticks to for a request at `epoch`.
pub open spec fn sticky_of(t: Map<Seq<char>, SessionView>, id: Seq<char>, epoch: u64) -> Option<Seq<char>> {
    if t.contains_key(id) && t[id].epoch == epoch {
        t[id].last_worker_id
    } else {
        None
    }
}

/// Session ledger.
pub struct SessionLedger {
    sessions: DashMap<String, SessionEntry>,
}

impl View for SessionLedger {
    type V = Map<Seq<char>, SessionView>;

    closed spec fn view(&self) -> Map<Seq<char>, SessionView> {
        session_table(self.sessions)
    }
}

impl SessionLedger {
    /// The table is finite.
    pub closed spec fn wf(&self) -> bool {
        session_table(self.sessions).dom().finite()
    }

    pub fn new() -> (r: Self)
        ensures
            r.wf(),
            r@ == Map::<Seq<char>, SessionView>::empty(),
    {
        let r = SessionLedger { sessions: session_table_new() };
        assert(r@ =~= Map::<Seq<char>, SessionView>::empty());
        r
    }

    /// Records an agent-published baseline at the current time.
    pub fn publish(&mut self, session_id: &str, req: &SessionPublishRequest) -> (r: bool)
        requires
            old(self).wf(),
        ensures
            final(self).wf(),
            exists|now: u64|
                #![trigger after_sweep(old(self)@, now)]
                {
                    let t = after_sweep(old(self)@, now);
                    &&& r == publish_accepted(t, session_id@, req.epoch)
                    &&& final(self)@ == (if r {
                        t.insert(session_id@, published_entry(t, session_id@, *req, now))
                    } else {
                        t
                    })
                },
    {
        let now = now_millis();
        self.publish_at(session_id, req, now)
    }

    /// Records an agent-published baseline at time `now`. When the table is
    /// full, idle sessions are swept first. A baseline older than the
    /// session's epoch is rejected, guarding against reordered deliveries;
    /// a newer epoch (or a first baseline) resets the sticky worker.
    pub fn publish_at(&mut self, session_id: &str, req: &SessionPublishRequest, now: u64) -> (r: bool)
        requires
            old(self).wf(),
        ensures
            final(self).wf(),
            ({
                let t = after_sweep(old(self)@, now);
                &&& r == publish_accepted(t, session_id@, req.epoch)
                &&& final(self)@ == (if r {
                    t.insert(session_id@, published_entry(t, session_id@, *req, now))
                } else {
                    t
                })
            }),
    {
        self.evict_stale(now);
        let ghost t = self@;
        let entry = match session_table_get(&self.sessions, session_id) {
            Some(e) => e,
            None => SessionEntry::new(req.epoch, now),
        };
        if req.epoch < entry.epoch {
            return false;
        }
        let mut entry = entry;
        if req.epoch > entry.epoch || entry.message_count == 0 {
            entry.last_worker_id = None;
        }
        entry.epoch = req.epoch;
        entry.message_count = req.message_count;
        entry.pinned_boundary = match req.pinned_boundary {
            Some(p) => p,
            None => 0,
        };
        entry.anchor_boundaries = match &req.anchor_boundaries {
            Some(v) => v.clone(),
            None => Vec::new(),
        };
        if let Some(fp) = &req.fingerprint {
            entry.prefix_hash = Some(fp.value.clone());
        }
        entry.last_seen_ms = now;
        session_table_insert(&mut self.sessions, session_id.to_owned(), entry);
        proof {
            assert(self@ =~= t.insert(session_id@, published_entry(t, session_id@, *req, now)));
        }
        true
    }

    /// Removes a session; tells whether it was there.
    pub fn close(&mut self, session_id: &str) -> (r: bool)
        requires
            old(self).wf(),
        ensures
            final(self).wf(),
            r == old(self)@.contains_key(session_id@),
            final(self)@ == old(self)@.remove(session_id@),
    {
        session_table_remove(&mut self.sessions, session_id)
    }

    /// Records, at the current time, which worker served the latest turn.
    pub fn record_assignment(&mut self, session_id: &str, epoch: u64, worker_id: &str)
        requires
            old(self).wf(),
        ensures
            final(self).wf(),
            exists|now: u64|
                #![trigger assigned_entry(old(self)@, session_id@, epoch, worker_id@, now)]
                final(self)@ == old(self)@.insert(
                    session_id@,
                    assigned_entry(old(self)@, session_id@, epoch, worker_id@, now),
                ),
    {
        let now = now_millis();
        self.record_assignment_at(session_id, epoch, worker_id, now);
    }

    /// Records which worker served the latest turn, at time `now`. A drifted
    /// epoch re-anchors the session first.
    pub fn record_assignment_at(&mut self, session_id: &str, epoch: u64, worker_id: &str, now: u64)
        requires
            old(self).wf(),
        ensures
            final(self).wf(),
            final(self)@ == old(self)@.insert(
                session_id@,
                assigned_entry(old(self)@, session_id@, epoch, worker_id@, now),
            ),
    {
        let ghost t = self@;
        let mut entry = match session_table_get(&self.sessions, session_id) {
            Some(e) => e,
            None => SessionEntry::new(epoch, now),
        };
        if entry.epoch != epoch {
            entry.epoch = epoch;
            entry.last_worker_id = None;
            entry.anchor_boundaries = Vec::new();
        }
        entry.last_worker_id = Some(worker_id.to_owned());
        entry.last_seen_ms = now;
        session_table_insert(&mut self.sessions, session_id.to_owned(), entry);
        proof {
            assert(self@ =~= t.insert(session_id@, assigned_entry(t, session_id@, epoch, worker_id@, now)));
        }
    }

    /// The worker to stick to, when the caller's epoch matches the session's.
    pub fn sticky_worker(&self, session_id: &str, epoch: u64) -> (r: Option<String>)
        ensures
            opt_text(r) == sticky_of(self@, session_id@, epoch),
    {
        match session_table_get(&self.sessions, session_id) {
            Some(e) => if e.epoch == epoch {
                e.last_worker_id
            } else {
                None
            },
            None => None,
        }
    }

    /// The session's metadata, if known.
    pub fn get(&self, session_id: &str) -> (r: Option<SessionEntry>)
        ensures
            r is Some <==> self@.contains_key(session_id@),
            r matches Some(e) ==> e@ == self@[session_id@],
    {
        session_table_get(&self.sessions, session_id)
    }

    pub fn total_sessions(&self) -> (r: usize)
        ensures
            r == self@.len(),
    {
        session_table_len(&self.sessions)
    }

    /// When the table is full, drops the sessions idle at `now`.
    fn evict_stale(&mut self, now: u64)
        requires
            old(self).wf(),
        ensures
            final(self).wf(),
            final(self)@ == after_sweep(old(self)@, now),
    {
        let ghost t0 = self@;
        if session_table_len(&self.sessions) < MAX_SESSIONS {
            return;
        }
        if now <= IDLE_TTL_MS {
            proof {
                assert(after_sweep(t0, now) =~= t0);
            }
            return;
        }
        let cutoff = now - IDLE_TTL_MS - 1;
        let stale = ids_seen_by(&self.sessions, cutoff);
        let mut i: usize = 0;
        while i < stale.len()
            invariant
                i <= stale@.len(),
                self.wf(),
                t0.dom().finite(),
                stale@.map_values(|s: String| s@).to_set() == t0.dom().filter(
                    |id: Seq<char>| t0[id].last_seen_ms <= cutoff,
                ),
                self@ == Map::new(
                    |id: Seq<char>|
                        t0.contains_key(id) && !(exists|k: int| 0 <= k < i && stale@[k]@ == id),
                    |id: Seq<char>| t0[id],
                ),
            decreases stale@.len() - i,
        {
            let ghost before = self@;
            session_table_remove(&mut self.sessions, stale[i].as_str());
            proof {
                let next = Map::new(
                    |id: Seq<char>|
                        t0.contains_key(id) && !(exists|k: int| 0 <= k < i + 1 && stale@[k]@ == id),
                    |id: Seq<char>| t0[id],
                );
                assert forall|id: Seq<char>| #[trigger] self@.contains_key(id) <==> next.contains_key(id) by {
                    if id == stale@[i as int]@ {
                        assert(exists|k: int| 0 <= k < i + 1 && stale@[k]@ == id);
                    } else {
                        if exists|k: int| 0 <= k < i + 1 && stale@[k]@ == id {
                            let k = choose|k: int| 0 <= k < i + 1 && stale@[k]@ == id;
                            assert(k < i);
                        }
                    }
                }
                assert(self@ =~= next);
            }
            i += 1;
        }
        proof {
            let s = after_sweep(t0, now);
            assert forall|id: Seq<char>| #[trigger] self@.contains_key(id) <==> s.contains_key(id) by {
                if exists|k: int| 0 <= k < stale@.len() && stale@[k]@ == id {
                    let k = choose|k: int| 0 <= k < stale@.len() && stale@[k]@ == id;
                    assert(stale@.map_values(|s: String| s@)[k] == id);
                    assert(stale@.map_values(|s: String| s@).to_set().contains(id));
                }
                if t0.contains_key(id) {
                    if is_idle(t0[id], now) {
                        assert(t0[id].last_seen_ms <= cutoff);
                    }
                    if t0[id].last_seen_ms <= cutoff {
                        assert(t0.dom().filter(|x: Seq<char>| t0[x].last_seen_ms <= cutoff).contains(id));
                        assert(stale@.map_values(|s: String| s@).contains(id));
                        let ss = stale@.map_values(|s: String| s@);
                        let k = choose|k: int| 0 <= k < ss.len() && #[trigger] ss[k] == id;
                        assert(stale@[k]@ == id);
                    }
                }
            }
            assert(self@ =~= s);
        }
    }
}

/// A baseline older than the session's epoch is rejected and leaves the
/// session as it was.
pub proof fn lemma_stale_publish_rejected(
    t: Map<Seq<char>, SessionView>,
    id: Seq<char>,
    epoch: u64,
)
    requires
        t.contains_key(id),
        epoch < t[id].epoch,
    ensures
        !publish_accepted(t, id, epoch),
{
}

/// What a session sticks to is the worker last recorded for it at the same
/// epoch.
pub proof fn lemma_assignment_then_sticky(
    t: Map<Seq<char>, SessionView>,
    id: Seq<char>,
    epoch: u64,
    worker: Seq<char>,
    now: u64,
)
    ensures
        sticky_of(t.insert(id, assigned_entry(t, id, epoch, worker, now)), id, epoch) == Some(worker),
        forall|other: u64|
            other != epoch ==> #[trigger] sticky_of(
                t.insert(id, assigned_entry(t, id, epoch, worker, now)),
                id,
                other,
            ) is None,
{
}

/// A newer epoch (or a first baseline) drops the sticky worker until the
/// next assignment: affinity does not leak across epochs.
pub proof fn lemma_epoch_bump_resets_affinity(
    t: Map<Seq<char>, SessionView>,
    id: Seq<char>,
    req: SessionPublishRequest,
    now: u64,
)
    requires
        t.contains_key(id) ==> req.epoch > t[id].epoch,
    ensures
        publish_accepted(t, id, req.epoch),
        sticky_of(t.insert(id, published_entry(t, id, req, now)), id, req.epoch) is None,
{
}

/// Closing a session forgets it; publishing it again starts afresh.
pub proof fn lemma_close_forgets(t: Map<Seq<char>, SessionView>, id: Seq<char>, epoch: u64)
    ensures
        !t.remove(id).contains_key(id),
        sticky_of(t.remove(id), id, epoch) is None,
        publish_accepted(t.remove(id), id, epoch),
{
}

} // verus!
