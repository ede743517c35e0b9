//! Locality-aware worker selection.
//!
//! Tier 1 routes to the READY worker with the best exact KV-cache match,
//! scored as `kv_weight * matched_pages - load_weight * active_requests` among
//! workers below the overload watermark. Without a usable match, a
//! power-of-two-choices pick (when enabled and at least two workers are
//! eligible) or the least-loaded worker is taken; round robin is the last
//! resort.

use crate::config::{SchedulerConfig, WorkerRole};
use crate::ids::{find_id, ids_of, lemma_ids_push};
use crate::ledger::radix_tree::{lcp_depth, RadixHashTree};
use crate::ledger::worker_state::{WorkerRuntimeState, WorkerSyncStatus};
use vstd::prelude::*;

verus! {

/// How a request was routed.
#[derive(Debug, Clone, Copy, PartialEq, Eq, Structural)]
pub enum RoutingMode {
    ExactKvEvents,
    SessionAffinity,
    LoadAware,
    FallbackP2c,
    FallbackRoundRobin,
}

impl RoutingMode {
    pub open spec fn spec_name(self) -> Seq<char> {
        match self {
            RoutingMode::ExactKvEvents => "exact_kv_events"@,
            RoutingMode::SessionAffinity => "session_affinity"@,
            RoutingMode::LoadAware => "load_aware"@,
            RoutingMode::FallbackP2c => "fallback_p2c"@,
            RoutingMode::FallbackRoundRobin => "fallback_round_robin"@,
        }
    }

    /// Stable wire name of the mode.
    pub fn as_str(&self) -> (r: &'static str)
        ensures
            r@ == self.spec_name(),
    {
        match self {
            RoutingMode::ExactKvEvents => "exact_kv_events",
            RoutingMode::SessionAffinity => "session_affinity",
            RoutingMode::LoadAware => "load_aware",
            RoutingMode::FallbackP2c => "fallback_p2c",
            RoutingMode::FallbackRoundRobin => "fallback_round_robin",
        }
    }
}

/// Where a request goes and why.
#[derive(Debug, Clone)]
pub struct SchedulingDecision {
    pub worker_id: String,
    pub http_endpoint: String,
    pub matched_pages: usize,
    pub mode: RoutingMode,
    /// Whether the last matched page ends on a semantic anchor.
    pub anchor_aligned: bool,
}

impl SchedulingDecision {
    /// Records whether an exact match ends on a semantic anchor: the last
    /// matched page is flagged in `page_is_anchor`. Other routes never are.
    pub fn mark_anchor_alignment(&mut self, page_is_anchor: &[bool])
        ensures
            final(self).anchor_aligned == (old(self).mode == RoutingMode::ExactKvEvents
                && old(self).matched_pages > 0 && old(self).matched_pages <= page_is_anchor@.len()
                && page_is_anchor@[old(self).matched_pages - 1]),
            final(self).worker_id == old(self).worker_id,
            final(self).http_endpoint == old(self).http_endpoint,
            final(self).matched_pages == old(self).matched_pages,
            final(self).mode == old(self).mode,
    {
        let m = self.matched_pages;
        self.anchor_aligned = self.mode == RoutingMode::ExactKvEvents && m > 0 && m
            <= page_is_anchor.len() && page_is_anchor[m - 1];
    }
}

/// A worker serves the request's model, in the requested role or as a
/// standard worker.
pub open spec fn is_eligible(w: WorkerRuntimeState, model: Seq<char>, role: WorkerRole) -> bool {
    w.config.model@ == model && (w.config.role == role || w.config.role == WorkerRole::Standard)
}

/// Positions of the eligible workers among the first `n`, in order.
pub open spec fn eligible_upto(ws: Seq<WorkerRuntimeState>, n: int, model: Seq<char>, role: WorkerRole) -> Seq<
    int,
>
    decreases n,
{
    if n <= 0 {
        Seq::empty()
    } else {
        let p = eligible_upto(ws, n - 1, model, role);
        if is_eligible(ws[n - 1], model, role) {
            p.push(n - 1)
        } else {
            p
        }
    }
}

/// Ids of the eligible READY workers among the first `n`, in order.
pub open spec fn ready_upto(ws: Seq<WorkerRuntimeState>, n: int, model: Seq<char>, role: WorkerRole) -> Seq<
    Seq<char>,
>
    decreases n,
{
    if n <= 0 {
        Seq::empty()
    } else {
        let p = ready_upto(ws, n - 1, model, role);
        if is_eligible(ws[n - 1], model, role) && ws[n - 1].status == WorkerSyncStatus::Ready {
            p.push(ws[n - 1].config.id@)
        } else {
            p
        }
    }
}

/// Tier-1 score, with the weights in thousandths.
pub open spec fn kv_score(cfg: SchedulerConfig, matched: int, active: int) -> int {
    cfg.kv_weight_milli * matched - cfg.load_weight_milli * active
}

/// Pages matched by a worker: its depth on the chain when its id is among
/// the READY ones and the depth is positive.
pub open spec fn matched_pages_of(
    tree: Map<i64, Set<Seq<char>>>,
    ready: Seq<Seq<char>>,
    hs: Seq<i64>,
    w: WorkerRuntimeState,
) -> int {
    if ready.contains(w.config.id@) {
        lcp_depth(tree, w.config.id@, hs)
    } else {
        0
    }
}

/// A worker can take an exact-match route: eligible, matched, not overloaded.
pub open spec fn is_exact_candidate(
    tree: Map<i64, Set<Seq<char>>>,
    ready: Seq<Seq<char>>,
    hs: Seq<i64>,
    cfg: SchedulerConfig,
    w: WorkerRuntimeState,
    model: Seq<char>,
    role: WorkerRole,
) -> bool {
    &&& is_eligible(w, model, role)
    &&& matched_pages_of(tree, ready, hs, w) > 0
    &&& w.active_requests < cfg.max_active_requests_per_worker
}

/// The first best-scoring exact candidate among the first `n` workers.
pub open spec fn best_upto(
    ws: Seq<WorkerRuntimeState>,
    n: int,
    tree: Map<i64, Set<Seq<char>>>,
    ready: Seq<Seq<char>>,
    hs: Seq<i64>,
    cfg: SchedulerConfig,
    model: Seq<char>,
    role: WorkerRole,
) -> Option<int>
    decreases n,
{
    if n <= 0 {
        None
    } else {
        let p = best_upto(ws, n - 1, tree, ready, hs, cfg, model, role);
        let k = n - 1;
        if is_exact_candidate(tree, ready, hs, cfg, ws[k], model, role) {
            match p {
                None => Some(k),
                Some(b) => if kv_score(cfg, matched_pages_of(tree, ready, hs, ws[k]), ws[k].active_requests as int)
                    > kv_score(cfg, matched_pages_of(tree, ready, hs, ws[b]), ws[b].active_requests as int) {
                    Some(k)
                } else {
                    p
                },
            }
        } else {
            p
        }
    }
}

/// The first eligible worker with the fewest in-flight requests (below
/// `usize::MAX`) among the first `n`.
pub open spec fn least_upto(ws: Seq<WorkerRuntimeState>, n: int, model: Seq<char>, role: WorkerRole) -> Option<
    int,
>
    decreases n,
{
    if n <= 0 {
        None
    } else {
        let p = least_upto(ws, n - 1, model, role);
        let k = n - 1;
        let bound: int = match p {
            None => usize::MAX as int,
            Some(b) => ws[b].active_requests as int,
        };
        if is_eligible(ws[k], model, role) && (ws[k].active_requests as int) < bound {
            Some(k)
        } else {
            p
        }
    }
}

/// Of two candidates, the one with fewer in-flight requests (the first on a tie).
pub open spec fn p2c_pick(ws: Seq<WorkerRuntimeState>, a: int, b: int) -> int {
    if ws[b].active_requests < ws[a].active_requests {
        b
    } else {
        a
    }
}

/// The worker the scheduler picks and how, for a given round-robin counter;
/// `None` when no worker is eligible.
pub open spec fn spec_select(
    ws: Seq<WorkerRuntimeState>,
    tree: Map<i64, Set<Seq<char>>>,
    hs: Seq<i64>,
    cfg: SchedulerConfig,
    rr: usize,
    model: Seq<char>,
    role: WorkerRole,
) -> Option<(int, int, RoutingMode)> {
    let e = eligible_upto(ws, ws.len() as int, model, role);
    let ready = ready_upto(ws, ws.len() as int, model, role);
    let best = best_upto(ws, ws.len() as int, tree, ready, hs, cfg, model, role);
    if e.len() == 0 {
        None
    } else if hs.len() > 0 && ready.len() > 0 && best is Some {
        Some((best->0, matched_pages_of(tree, ready, hs, ws[best->0]), RoutingMode::ExactKvEvents))
    } else if cfg.enable_p2c && e.len() >= 2 {
        let a = e[(rr as int) % (e.len() as int)];
        let b = e[((rr as int) + 1) % (e.len() as int)];
        Some((p2c_pick(ws, a, b), 0, RoutingMode::FallbackP2c))
    } else if least_upto(ws, ws.len() as int, model, role) is Some {
        Some((least_upto(ws, ws.len() as int, model, role)->0, 0, RoutingMode::LoadAware))
    } else {
        Some((e[(rr as int) % (e.len() as int)], 0, RoutingMode::FallbackRoundRobin))
    }
}

/// Whether a pick advances the round-robin counter.
pub open spec fn spec_advances_counter(
    ws: Seq<WorkerRuntimeState>,
    tree: Map<i64, Set<Seq<char>>>,
    hs: Seq<i64>,
    cfg: SchedulerConfig,
    rr: usize,
    model: Seq<char>,
    role: WorkerRole,
) -> bool {
    match spec_select(ws, tree, hs, cfg, rr, model, role) {
        Some((_, _, mode)) => mode == RoutingMode::FallbackP2c || mode == RoutingMode::FallbackRoundRobin,
        None => false,
    }
}

/// The best exact candidate is a candidate and scores at least as high as
/// every other candidate.
pub proof fn lemma_best_is_max(
    ws: Seq<WorkerRuntimeState>,
    n: int,
    tree: Map<i64, Set<Seq<char>>>,
    ready: Seq<Seq<char>>,
    hs: Seq<i64>,
    cfg: SchedulerConfig,
    model: Seq<char>,
    role: WorkerRole,
)
    requires
        0 <= n <= ws.len(),
    ensures
        best_upto(ws, n, tree, ready, hs, cfg, model, role) matches Some(b) ==> {
            &&& 0 <= b < n
            &&& is_exact_candidate(tree, ready, hs, cfg, ws[b], model, role)
            &&& forall|k: int|
                0 <= k < n && is_exact_candidate(tree, ready, hs, cfg, #[trigger] ws[k], model, role)
                    ==> kv_score(cfg, matched_pages_of(tree, ready, hs, ws[k]), ws[k].active_requests as int)
                    <= kv_score(cfg, matched_pages_of(tree, ready, hs, ws[b]), ws[b].active_requests as int)
        },
        best_upto(ws, n, tree, ready, hs, cfg, model, role) is None ==> forall|k: int|
            0 <= k < n ==> !is_exact_candidate(tree, ready, hs, cfg, #[trigger] ws[k], model, role),
    decreases n,
{
    if n > 0 {
        lemma_best_is_max(ws, n - 1, tree, ready, hs, cfg, model, role);
    }
}

/// The least-loaded pick is an eligible worker.
proof fn lemma_least_is_eligible(ws: Seq<WorkerRuntimeState>, n: int, model: Seq<char>, role: WorkerRole)
    requires
        0 <= n <= ws.len(),
    ensures
        least_upto(ws, n, model, role) matches Some(k) ==> 0 <= k < n && is_eligible(ws[k], model, role),
    decreases n,
{
    if n > 0 {
        lemma_least_is_eligible(ws, n - 1, model, role);
    }
}

/// Whatever tier routes a request, the chosen worker serves the request's
/// model in an acceptable role; an exact route also avoids overloaded
/// workers and takes a best-scoring one; and a request is refused only when
/// no worker is eligible.
pub proof fn lemma_selection_is_safe(
    ws: Seq<WorkerRuntimeState>,
    tree: Map<i64, Set<Seq<char>>>,
    hs: Seq<i64>,
    cfg: SchedulerConfig,
    rr: usize,
    model: Seq<char>,
    role: WorkerRole,
)
    ensures
        spec_select(ws, tree, hs, cfg, rr, model, role) is None <==> forall|k: int|
            0 <= k < ws.len() ==> !is_eligible(#[trigger] ws[k], model, role),
        spec_select(ws, tree, hs, cfg, rr, model, role) matches Some((i, matched, mode)) ==> {
            &&& 0 <= i < ws.len()
            &&& is_eligible(ws[i], model, role)
            &&& mode == RoutingMode::ExactKvEvents ==> {
                &&& ws[i].active_requests < cfg.max_active_requests_per_worker
                &&& matched > 0
                &&& matched == matched_pages_of(tree, ready_upto(ws, ws.len() as int, model, role), hs, ws[i])
                &&& forall|k: int|
                    0 <= k < ws.len() && is_exact_candidate(
                        tree,
                        ready_upto(ws, ws.len() as int, model, role),
                        hs,
                        cfg,
                        #[trigger] ws[k],
                        model,
                        role,
                    ) ==> {
                        let mk = matched_pages_of(tree, ready_upto(ws, ws.len() as int, model, role), hs, ws[k]);
                        &&& cfg.kv_weight_milli * mk - cfg.load_weight_milli * ws[k].active_requests
                            <= cfg.kv_weight_milli * matched - cfg.load_weight_milli * ws[i].active_requests
                        &&& mk == matched && cfg.load_weight_milli > 0 ==> ws[i].active_requests
                            <= ws[k].active_requests
                    }
            }
            &&& mode != RoutingMode::ExactKvEvents ==> matched == 0
        },
{
    let n = ws.len() as int;
    let e = eligible_upto(ws, n, model, role);
    let ready = ready_upto(ws, n, model, role);
    lemma_eligible_bounds(ws, n, model, role);
    lemma_best_is_max(ws, n, tree, ready, hs, cfg, model, role);
    lemma_least_is_eligible(ws, n, model, role);
    lemma_eligible_complete(ws, n, model, role);
    match spec_select(ws, tree, hs, cfg, rr, model, role) {
        Some((i, matched, mode)) => if mode == RoutingMode::ExactKvEvents {
            assert forall|k: int|
                0 <= k < ws.len() && is_exact_candidate(tree, ready, hs, cfg, #[trigger] ws[k], model, role) implies {
                let mk = matched_pages_of(tree, ready, hs, ws[k]);
                mk == matched && cfg.load_weight_milli > 0 ==> ws[i].active_requests <= ws[k].active_requests
            } by {
                let mk = matched_pages_of(tree, ready, hs, ws[k]);
                let lw = cfg.load_weight_milli as int;
                let ai = ws[i].active_requests as int;
                let ak = ws[k].active_requests as int;
                if mk == matched && lw > 0 {
                    assert(lw * ak >= lw * ai);
                    assert(ai <= ak) by (nonlinear_arith)
                        requires
                            lw > 0,
                            lw * ak >= lw * ai,
                    ;
                }
            }
        },
        None => {},
    }
    if e.len() >= 1 {
        let r = (rr as int) % (e.len() as int);
        let r1 = ((rr as int) + 1) % (e.len() as int);
        assert(0 <= r < e.len());
        assert(0 <= r1 < e.len());
        assert(is_eligible(ws[e[r]], model, role));
        assert(is_eligible(ws[e[r1]], model, role));
    }
}

/// The least-loaded pick has no more in-flight requests than any eligible
/// worker; there is none only when every eligible worker is saturated.
proof fn lemma_least_is_min(ws: Seq<WorkerRuntimeState>, n: int, model: Seq<char>, role: WorkerRole)
    requires
        0 <= n <= ws.len(),
    ensures
        least_upto(ws, n, model, role) matches Some(b) ==> forall|k: int|
            0 <= k < n && is_eligible(#[trigger] ws[k], model, role) ==> ws[b].active_requests
                <= ws[k].active_requests,
        least_upto(ws, n, model, role) is None ==> forall|k: int|
            0 <= k < n && is_eligible(#[trigger] ws[k], model, role) ==> ws[k].active_requests == usize::MAX,
    decreases n,
{
    if n > 0 {
        lemma_least_is_min(ws, n - 1, model, role);
    }
}

/// Eligible positions are listed in increasing order, so each once.
proof fn lemma_eligible_increasing(ws: Seq<WorkerRuntimeState>, n: int, model: Seq<char>, role: WorkerRole)
    ensures
        forall|a: int, b: int|
            0 <= a < b < eligible_upto(ws, n, model, role).len() ==> #[trigger] eligible_upto(ws, n, model, role)[a]
                < #[trigger] eligible_upto(ws, n, model, role)[b],
    decreases n,
{
    if n > 0 {
        lemma_eligible_increasing(ws, n - 1, model, role);
        lemma_eligible_bounds(ws, n - 1, model, role);
        let p = eligible_upto(ws, n - 1, model, role);
        if is_eligible(ws[n - 1], model, role) {
            assert forall|a: int, b: int| 0 <= a < b < p.push(n - 1).len() implies #[trigger] p.push(n - 1)[a]
                < #[trigger] p.push(n - 1)[b] by {
                if b == p.len() {
                    assert(p[a] < n - 1);
                } else {
                    assert(p.push(n - 1)[a] == p[a] && p.push(n - 1)[b] == p[b]);
                }
            }
        }
    }
}

/// What each tier promises. Exact matching routes the request whenever the
/// chain is non-empty and some worker is an exact candidate. A
/// power-of-two-choices pick takes the less loaded of two different eligible
/// workers. A load-aware pick takes an eligible worker with the fewest
/// in-flight requests. Round robin is left only when no other tier applies.
pub proof fn lemma_selection_tiers(
    ws: Seq<WorkerRuntimeState>,
    tree: Map<i64, Set<Seq<char>>>,
    hs: Seq<i64>,
    cfg: SchedulerConfig,
    rr: usize,
    model: Seq<char>,
    role: WorkerRole,
)
    ensures
        hs.len() > 0 && (exists|k: int|
            0 <= k < ws.len() && is_exact_candidate(
                tree,
                ready_upto(ws, ws.len() as int, model, role),
                hs,
                cfg,
                #[trigger] ws[k],
                model,
                role,
            )) ==> (spec_select(ws, tree, hs, cfg, rr, model, role) matches Some((_, _, mode)) && mode
            == RoutingMode::ExactKvEvents),
        spec_select(ws, tree, hs, cfg, rr, model, role) matches Some((i, _, mode)) ==> {
            &&& mode == RoutingMode::FallbackP2c ==> exists|a: int, b: int|
                0 <= a < ws.len() && 0 <= b < ws.len() && a != b && is_eligible(#[trigger] ws[a], model, role)
                    && is_eligible(#[trigger] ws[b], model, role) && (i == a || i == b) && ws[i].active_requests
                    <= ws[a].active_requests && ws[i].active_requests <= ws[b].active_requests
            &&& mode == RoutingMode::LoadAware ==> forall|k: int|
                0 <= k < ws.len() && is_eligible(#[trigger] ws[k], model, role) ==> ws[i].active_requests
                    <= ws[k].active_requests
            &&& mode == RoutingMode::FallbackRoundRobin ==> !(cfg.enable_p2c && (exists|a: int, b: int|
                0 <= a < ws.len() && 0 <= b < ws.len() && a != b && is_eligible(#[trigger] ws[a], model, role)
                    && is_eligible(#[trigger] ws[b], model, role))) && forall|k: int|
                0 <= k < ws.len() && is_eligible(#[trigger] ws[k], model, role) ==> ws[k].active_requests
                    == usize::MAX
        },
{
    let n = ws.len() as int;
    let e = eligible_upto(ws, n, model, role);
    let ready = ready_upto(ws, n, model, role);
    lemma_eligible_bounds(ws, n, model, role);
    lemma_eligible_increasing(ws, n, model, role);
    lemma_best_is_max(ws, n, tree, ready, hs, cfg, model, role);
    lemma_least_is_min(ws, n, model, role);
    lemma_eligible_complete(ws, n, model, role);
    if e.len() >= 2 {
        let r = (rr as int) % (e.len() as int);
        let r1 = ((rr as int) + 1) % (e.len() as int);
        assert(0 <= r < e.len());
        assert(0 <= r1 < e.len());
        assert(r != r1) by (nonlinear_arith)
            requires
                e.len() >= 2,
                r == (rr as int) % (e.len() as int),
                r1 == ((rr as int) + 1) % (e.len() as int),
        ;
        if r < r1 {
            assert(e[r] < e[r1]);
        } else {
            assert(e[r1] < e[r]);
        }
        assert(is_eligible(ws[e[r]], model, role));
        assert(is_eligible(ws[e[r1]], model, role));
    }
    if exists|a: int, b: int|
        0 <= a < ws.len() && 0 <= b < ws.len() && a != b && is_eligible(#[trigger] ws[a], model, role)
            && is_eligible(#[trigger] ws[b], model, role) {
        let (a, b) = choose|a: int, b: int|
            0 <= a < ws.len() && 0 <= b < ws.len() && a != b && is_eligible(#[trigger] ws[a], model, role)
                && is_eligible(#[trigger] ws[b], model, role);
        lemma_eligible_count(ws, n, model, role, a, b);
    }
}

/// Where two different workers are eligible, at least two are listed.
proof fn lemma_eligible_count(ws: Seq<WorkerRuntimeState>, n: int, model: Seq<char>, role: WorkerRole, a: int, b: int)
    requires
        0 <= a < n,
        0 <= b < n,
        a != b,
        n <= ws.len(),
        is_eligible(ws[a], model, role),
        is_eligible(ws[b], model, role),
    ensures
        eligible_upto(ws, n, model, role).len() >= 2,
    decreases n,
{
    let hi = if a < b { b } else { a };
    let lo = if a < b { a } else { b };
    if hi == n - 1 {
        lemma_eligible_nonempty(ws, n - 1, model, role, lo);
    } else {
        lemma_eligible_count(ws, n - 1, model, role, a, b);
    }
}

/// Where a worker among the first `n` is eligible, one is listed.
proof fn lemma_eligible_nonempty(ws: Seq<WorkerRuntimeState>, n: int, model: Seq<char>, role: WorkerRole, a: int)
    requires
        0 <= a < n <= ws.len(),
        is_eligible(ws[a], model, role),
    ensures
        eligible_upto(ws, n, model, role).len() >= 1,
    decreases n,
{
    if a < n - 1 {
        lemma_eligible_nonempty(ws, n - 1, model, role, a);
    }
}

/// Every eligible worker among the first `n` is listed.
proof fn lemma_eligible_complete(ws: Seq<WorkerRuntimeState>, n: int, model: Seq<char>, role: WorkerRole)
    requires
        0 <= n <= ws.len(),
    ensures
        eligible_upto(ws, n, model, role).len() == 0 ==> forall|k: int|
            0 <= k < n ==> !is_eligible(#[trigger] ws[k], model, role),
    decreases n,
{
    if n > 0 {
        lemma_eligible_complete(ws, n - 1, model, role);
    }
}

/// Picks workers for requests.
pub struct LocalityScheduler {
    pub config: SchedulerConfig,
    pub rr_counter: usize,
}

impl LocalityScheduler {
    pub fn new(config: SchedulerConfig) -> (r: Self)
        ensures
            r.config == config,
            r.rr_counter == 0,
    {
        LocalityScheduler { config, rr_counter: 0 }
    }

    /// Selects a worker for a request on `model_id` whose prompt has the
    /// block chain `page_hashes`; `required_role` defaults to standard.
    pub fn select_worker(
        &mut self,
        tree: &RadixHashTree,
        workers: &[WorkerRuntimeState],
        model_id: &str,
        page_hashes: &[i64],
        required_role: Option<WorkerRole>,
    ) -> (r: Option<SchedulingDecision>)
        requires
            tree.wf(),
        ensures
            final(self).config == old(self).config,
            ({
                let role = match required_role {
                    Some(x) => x,
                    None => WorkerRole::Standard,
                };
                let pick = spec_select(
                    workers@,
                    tree@,
                    page_hashes@,
                    old(self).config,
                    old(self).rr_counter,
                    model_id@,
                    role,
                );
                &&& r is Some <==> pick is Some
                &&& r matches Some(d) ==> {
                    let (i, matched, mode) = pick->0;
                    &&& 0 <= i < workers@.len()
                    &&& d.worker_id@ == workers@[i].config.id@
                    &&& d.http_endpoint@ == workers@[i].config.http_endpoint@
                    &&& d.matched_pages == matched
                    &&& d.mode == mode
                    &&& !d.anchor_aligned
                    &&& d.mode == RoutingMode::ExactKvEvents ==> forall|k: int|
                        0 <= k < workers@.len() && is_exact_candidate(
                            tree@,
                            ready_upto(workers@, workers@.len() as int, model_id@, role),
                            page_hashes@,
                            old(self).config,
                            #[trigger] workers@[k],
                            model_id@,
                            role,
                        ) ==> old(self).config.kv_weight_milli * matched_pages_of(
                            tree@,
                            ready_upto(workers@, workers@.len() as int, model_id@, role),
                            page_hashes@,
                            workers@[k],
                        ) - old(self).config.load_weight_milli * workers@[k].active_requests
                            <= old(self).config.kv_weight_milli * d.matched_pages - old(
                            self,
                        ).config.load_weight_milli * workers@[i].active_requests
                }
                &&& final(self).rr_counter == (if spec_advances_counter(
                    workers@,
                    tree@,
                    page_hashes@,
                    old(self).config,
                    old(self).rr_counter,
                    model_id@,
                    role,
                ) {
                    if old(self).rr_counter == usize::MAX {
                        0
                    } else {
                        (old(self).rr_counter + 1) as usize
                    }
                } else {
                    old(self).rr_counter
                })
            }),
    {
        let role = match required_role {
            Some(x) => x,
            None => WorkerRole::Standard,
        };
        proof {
            lemma_selection_is_safe(
                workers@,
                tree@,
                page_hashes@,
                self.config,
                self.rr_counter,
                model_id@,
                role,
            );
        }
        let model = model_id.to_owned();
        let ghost ws = workers@;
        let ghost n = ws.len() as int;
        // Eligible workers and the ids of the READY ones.
        let mut elig: Vec<usize> = Vec::new();
        let mut ready: Vec<String> = Vec::new();
        let mut i: usize = 0;
        while i < workers.len()
            invariant
                i <= workers@.len(),
                ws == workers@,
                model@ == model_id@,
                elig@.len() == eligible_upto(ws, i as int, model@, role).len(),
                forall|k: int|
                    0 <= k < elig@.len() ==> elig@[k] as int == #[trigger] eligible_upto(
                        ws,
                        i as int,
                        model@,
                        role,
                    )[k],
                ids_of(ready@) == ready_upto(ws, i as int, model@, role),
            decreases workers@.len() - i,
        {
            let w = &workers[i];
            let ok = w.config.model == model && (w.config.role == role || w.config.role
                == WorkerRole::Standard);
            proof {
                lemma_ids_push(ready@, w.config.id);
            }
            if ok {
                elig.push(i);
                if w.status == WorkerSyncStatus::Ready {
                    ready.push(w.config.id.clone());
                }
            }
            i += 1;
        }
        let ghost e = eligible_upto(ws, n, model@, role);
        let ghost rd = ready_upto(ws, n, model@, role);
        proof {
            lemma_eligible_bounds(ws, n, model@, role);
            assert(elig@.len() == e.len());
        }
        if elig.len() == 0 {
            return None;
        }
        // Tier 1: exact KV matching among READY workers.
        if page_hashes.len() > 0 && ready.len() > 0 {
            let matches = tree.find_lcp_matches(page_hashes, ready.as_slice());
            let mut best: Option<(usize, usize, i128)> = None;
            let mut j: usize = 0;
            while j < workers.len()
                invariant
                    j <= workers@.len(),
                    ws == workers@,
                    model@ == model_id@,
                    rd == ids_of(ready@),
                    forall|x: Seq<char>|
                        matches@.contains_key(x) <==> rd.contains(x) && lcp_depth(tree@, x, page_hashes@)
                            > 0,
                    forall|x: Seq<char>|
                        matches@.contains_key(x) ==> matches@[x] == lcp_depth(tree@, x, page_hashes@),
                    match best {
                        None => best_upto(ws, j as int, tree@, rd, page_hashes@, self.config, model@, role)
                            is None,
                        Some((b, m, sc)) => best_upto(
                            ws,
                            j as int,
                            tree@,
                            rd,
                            page_hashes@,
                            self.config,
                            model@,
                            role,
                        ) == Some(b as int) && b < workers@.len() && m == matched_pages_of(
                            tree@,
                            rd,
                            page_hashes@,
                            ws[b as int],
                        ) && sc == kv_score(
                            self.config,
                            m as int,
                            ws[b as int].active_requests as int,
                        ),
                    },
                decreases workers@.len() - j,
            {
                let w = &workers[j];
                let ok = w.config.model == model && (w.config.role == role || w.config.role
                    == WorkerRole::Standard);
                if ok {
                    if let Some(matched) = matches.get(w.config.id.as_str()) {
                        let active = w.active_requests;
                        if active < self.config.max_active_requests_per_worker {
                            let kvw = self.config.kv_weight_milli as i128;
                            let ldw = self.config.load_weight_milli as i128;
                            let mi = matched as i128;
                            let ai = active as i128;
                            proof {
                                lemma_weighted_fits(self.config.kv_weight_milli, matched as int);
                                lemma_weighted_fits(self.config.load_weight_milli, active as int);
                            }
                            let score: i128 = kvw * mi - ldw * ai;
                            let better = match best {
                                None => true,
                                Some((_, _, best_score)) => score > best_score,
                            };
                            if better {
                                best = Some((j, matched, score));
                            }
                        }
                    }
                }
                j += 1;
            }
            if let Some((b, matched, _)) = best {
                let w = &workers[b];
                return Some(
                    SchedulingDecision {
                        worker_id: w.config.id.clone(),
                        http_endpoint: w.config.http_endpoint.clone(),
                        matched_pages: matched,
                        mode: RoutingMode::ExactKvEvents,
                        anchor_aligned: false,
                    },
                );
            }
        }
        let len = elig.len();
        // Tier 2a: power of two choices over two rotating candidates.
        if self.config.enable_p2c && len >= 2 {
            let a = elig[self.rr_counter % len];
            let b = elig[((self.rr_counter as u128 + 1) % (len as u128)) as usize];
            let pick = if workers[b].active_requests < workers[a].active_requests {
                b
            } else {
                a
            };
            self.rr_counter = if self.rr_counter == usize::MAX {
                0
            } else {
                self.rr_counter + 1
            };
            let w = &workers[pick];
            return Some(
                SchedulingDecision {
                    worker_id: w.config.id.clone(),
                    http_endpoint: w.config.http_endpoint.clone(),
                    matched_pages: 0,
                    mode: RoutingMode::FallbackP2c,
                    anchor_aligned: false,
                },
            );
        }
        // Tier 2b: least in-flight requests.
        let mut least: Option<usize> = None;
        let mut min_active: usize = usize::MAX;
        let mut j: usize = 0;
        while j < workers.len()
            invariant
                j <= workers@.len(),
                ws == workers@,
                model@ == model_id@,
                least is Some <==> least_upto(ws, j as int, model@, role) is Some,
                least matches Some(k) ==> k as int == least_upto(ws, j as int, model@, role)->0
                    && k < workers@.len() && min_active == workers@[k as int].active_requests,
                least is None ==> min_active == usize::MAX,
            decreases workers@.len() - j,
        {
            let w = &workers[j];
            let ok = w.config.model == model && (w.config.role == role || w.config.role
                == WorkerRole::Standard);
            if ok && w.active_requests < min_active {
                min_active = w.active_requests;
                least = Some(j);
            }
            j += 1;
        }
        if let Some(k) = least {
            let w = &workers[k];
            return Some(
                SchedulingDecision {
                    worker_id: w.config.id.clone(),
                    http_endpoint: w.config.http_endpoint.clone(),
                    matched_pages: 0,
                    mode: RoutingMode::LoadAware,
                    anchor_aligned: false,
                },
            );
        }
        // Tier 3: round robin.
        let idx = elig[self.rr_counter % len];
        self.rr_counter = if self.rr_counter == usize::MAX {
            0
        } else {
            self.rr_counter + 1
        };
        let w = &workers[idx];
        Some(
            SchedulingDecision {
                worker_id: w.config.id.clone(),
                http_endpoint: w.config.http_endpoint.clone(),
                matched_pages: 0,
                mode: RoutingMode::FallbackRoundRobin,
                anchor_aligned: false,
            },
        )
    }
}

/// Eligible positions lie among the first `n` workers and are eligible.
proof fn lemma_eligible_bounds(ws: Seq<WorkerRuntimeState>, n: int, model: Seq<char>, role: WorkerRole)
    ensures
        forall|k: int|
            0 <= k < eligible_upto(ws, n, model, role).len() ==> 0 <= #[trigger] eligible_upto(
                ws,
                n,
                model,
                role,
            )[k] < n && is_eligible(ws[eligible_upto(ws, n, model, role)[k]], model, role),
    decreases n,
{
    if n > 0 {
        lemma_eligible_bounds(ws, n - 1, model, role);
        let p = eligible_upto(ws, n - 1, model, role);
        if is_eligible(ws[n - 1], model, role) {
            assert forall|k: int| 0 <= k < p.len() implies #[trigger] p.push(n - 1)[k] == p[k] by {}
            assert(p.push(n - 1)[p.len() as int] == n - 1);
        }
    }
}

/// A weight in thousandths times a machine-sized count fits an `i128`.
proof fn lemma_weighted_fits(weight: u32, count: int)
    requires
        0 <= count <= usize::MAX,
    ensures
        0 <= weight * count < 0x1_0000_0000_0000_0000_0000_0000,
{
    assert(0 <= weight * count <= 0xffff_ffff * 0xffff_ffff_ffff_ffff) by (nonlinear_arith)
        requires
            0 <= count <= 0xffff_ffff_ffff_ffff,
            0 <= weight <= 0xffff_ffff,
    ;
}

} // verus!
