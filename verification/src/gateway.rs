//! Decisions on the request path of the gateway: session affinity over the
//! scheduler's pick, write-through of served prefixes, cluster summaries and
//! the framing of upstream responses.

use crate::ids::{find_id, ids_of, lemma_ids_push, same_text};
use crate::ledger::radix_tree::after_insert;
use crate::ledger::worker_state::{count_in, count_out, WorkerRuntimeState, WorkerSyncStatus};
use crate::scheduler::{RoutingMode, SchedulingDecision};
use crate::session_ledger::{assigned_entry, sticky_of, SessionLedger};
use crate::json::{
    find_key, is_u64_number, json_decode, json_encode, json_parse, json_print, json_u64, json_view, keys_distinct,
    lemma_key_index_range, lemma_key_index_view, lemma_member_index, lemma_object_view, lemma_replace_value_unique,
    lemma_set_member_unique, lemma_update_member, member_index, members_view, obj_get, set_entry, set_member,
    u64_view, unique_keys, JsonValue, JsonView,
};
use crate::zmq::subscriber::KvEventProcessor;
use vstd::utf8::encode_utf8;
use vstd::prelude::*;
use vstd::string::{StrSliceExecFns, StringExecFns};

verus! {

/// The modes in which exact matching found nothing, and which a session's
/// sticky worker may override.
pub open spec fn is_fallback_mode(m: RoutingMode) -> bool {
    m == RoutingMode::FallbackP2c || m == RoutingMode::FallbackRoundRobin || m == RoutingMode::LoadAware
}

/// The first worker at or after `from` with the given id.
pub open spec fn first_worker_with_id(ws: Seq<WorkerRuntimeState>, id: Seq<char>, from: int) -> Option<int>
    decreases ws.len() - from,
{
    if from < 0 || from >= ws.len() {
        None
    } else if ws[from].config.id@ == id {
        Some(from)
    } else {
        first_worker_with_id(ws, id, from + 1)
    }
}

/// The worker a session's request sticks to: the worker that served the
/// session's last turn at this epoch, when it serves the model and has room.
pub open spec fn sticky_target(
    ws: Seq<WorkerRuntimeState>,
    t: Map<Seq<char>, crate::session_ledger::SessionView>,
    session: Seq<char>,
    epoch: u64,
    model: Seq<char>,
    max_active: usize,
) -> Option<int> {
    match sticky_of(t, session, epoch) {
        Some(sid) => match first_worker_with_id(ws, sid, 0) {
            Some(k) => if ws[k].config.model@ == model && ws[k].active_requests < max_active {
                Some(k)
            } else {
                None
            },
            None => None,
        },
        None => None,
    }
}

/// A session's sticky target is a worker with the sticky id that serves the
/// request's model and is below the in-flight limit: the override never
/// routes across models or onto an overloaded worker.
pub proof fn lemma_sticky_target_is_safe(
    ws: Seq<WorkerRuntimeState>,
    t: Map<Seq<char>, crate::session_ledger::SessionView>,
    session: Seq<char>,
    epoch: u64,
    model: Seq<char>,
    max_active: usize,
)
    ensures
        sticky_target(ws, t, session, epoch, model, max_active) matches Some(k) ==> {
            &&& 0 <= k < ws.len()
            &&& sticky_of(t, session, epoch) == Some(ws[k].config.id@)
            &&& ws[k].config.model@ == model
            &&& ws[k].active_requests < max_active
        },
{
    match sticky_of(t, session, epoch) {
        Some(sid) => lemma_first_worker_with_id(ws, sid, 0),
        None => {},
    }
}

/// A session's sticky worker takes the request whenever it qualifies: when
/// the session's epoch matches, its last worker is registered, serves the
/// request's model and is below the in-flight limit (however busy below it),
/// that worker is the sticky target.
pub proof fn lemma_sticky_target_is_live(
    ws: Seq<WorkerRuntimeState>,
    t: Map<Seq<char>, crate::session_ledger::SessionView>,
    session: Seq<char>,
    epoch: u64,
    model: Seq<char>,
    max_active: usize,
    k: int,
)
    requires
        t.contains_key(session),
        t[session].epoch == epoch,
        t[session].last_worker_id == Some(ws[k].config.id@),
        first_worker_with_id(ws, ws[k].config.id@, 0) == Some(k),
        ws[k].config.model@ == model,
        ws[k].active_requests < max_active,
    ensures
        sticky_target(ws, t, session, epoch, model, max_active) == Some(k),
{
}

proof fn lemma_first_worker_with_id(ws: Seq<WorkerRuntimeState>, id: Seq<char>, from: int)
    requires
        0 <= from,
    ensures
        first_worker_with_id(ws, id, from) matches Some(k) ==> from <= k < ws.len() && ws[k].config.id@ == id,
    decreases ws.len() - from,
{
    if from < ws.len() && ws[from].config.id@ != id {
        lemma_first_worker_with_id(ws, id, from + 1);
    }
}

/// No two workers share an id, as in a map keyed by worker id.
pub open spec fn worker_ids_distinct(ws: Seq<WorkerRuntimeState>) -> bool {
    forall|a: int, b: int| 0 <= a < b < ws.len() ==> #[trigger] ws[a].config.id@ != #[trigger] ws[b].config.id@
}

proof fn lemma_first_worker_from(ws: Seq<WorkerRuntimeState>, k: int, from: int)
    requires
        worker_ids_distinct(ws),
        0 <= from <= k < ws.len(),
    ensures
        first_worker_with_id(ws, ws[k].config.id@, from) == Some(k),
    decreases k - from,
{
    if from < k {
        lemma_first_worker_from(ws, k, from + 1);
    }
}

/// Where worker ids are distinct, looking a worker up by its id finds that
/// worker: a decision names exactly the worker the scheduler picked.
pub proof fn lemma_worker_found_by_id(ws: Seq<WorkerRuntimeState>, k: int)
    requires
        worker_ids_distinct(ws),
        0 <= k < ws.len(),
    ensures
        first_worker_with_id(ws, ws[k].config.id@, 0) == Some(k),
{
    lemma_first_worker_from(ws, k, 0);
}

/// Position of the first worker with the given id.
pub fn find_worker(workers: &[WorkerRuntimeState], id: &str) -> (r: Option<usize>)
    ensures
        match r {
            Some(k) => first_worker_with_id(workers@, id@, 0) == Some(k as int) && k < workers@.len()
                && workers@[k as int].config.id@ == id@,
            None => first_worker_with_id(workers@, id@, 0) is None,
        },
{
    let mut k: usize = 0;
    while k < workers.len()
        invariant
            k <= workers@.len(),
            first_worker_with_id(workers@, id@, k as int) == first_worker_with_id(workers@, id@, 0),
        decreases workers@.len() - k,
    {
        if same_text(workers[k].config.id.as_str(), id) {
            return Some(k);
        }
        k += 1;
    }
    None
}

/// Applies session affinity to the scheduler's decision. For a request that
/// carries a session and epoch: when exact matching found nothing and the
/// session's sticky worker qualifies (see [`sticky_target`]), the request
/// goes there instead; either way the session records the chosen worker.
pub fn apply_session_affinity(
    sessions: &mut SessionLedger,
    workers: &[WorkerRuntimeState],
    decision: SchedulingDecision,
    session: Option<(&str, u64)>,
    model: &str,
    max_active_requests: usize,
) -> (r: SchedulingDecision)
    requires
        old(sessions).wf(),
    ensures
        final(sessions).wf(),
        session is None ==> r == decision,
        session is None ==> final(sessions)@ == old(sessions)@,
        session matches Some((id, epoch)) ==> match (if is_fallback_mode(decision.mode) {
            sticky_target(workers@, old(sessions)@, id@, epoch, model@, max_active_requests)
        } else {
            None
        }) {
            Some(k) => r.worker_id@ == workers@[k].config.id@ && r.http_endpoint@
                == workers@[k].config.http_endpoint@ && r.matched_pages == 0 && r.mode
                == RoutingMode::SessionAffinity && !r.anchor_aligned,
            None => r == decision,
        },
        session matches Some((id, epoch)) ==> forall|k: int|
            is_fallback_mode(decision.mode) && old(sessions)@.contains_key(id@) && old(sessions)@[id@].epoch == epoch
                && old(sessions)@[id@].last_worker_id == Some(workers@[k].config.id@) && first_worker_with_id(
                workers@,
                workers@[k].config.id@,
                0,
            ) == Some(k) && workers@[k].config.model@ == model@ && workers@[k].active_requests
                < max_active_requests ==> r.worker_id@ == #[trigger] workers@[k].config.id@ && r.http_endpoint@
                == workers@[k].config.http_endpoint@ && r.mode == RoutingMode::SessionAffinity,
        session matches Some((id, epoch)) ==> exists|now: u64|
            #![trigger assigned_entry(old(sessions)@, id@, epoch, r.worker_id@, now)]
            final(sessions)@ == old(sessions)@.insert(
                id@,
                assigned_entry(old(sessions)@, id@, epoch, r.worker_id@, now),
            ),
{
    match session {
        None => {
            assert(*sessions == *old(sessions));
            decision
        },
        Some((id, epoch)) => {
            proof {
                assert forall|k: int|
                    is_fallback_mode(decision.mode) && old(sessions)@.contains_key(id@) && old(sessions)@[id@].epoch
                        == epoch && old(sessions)@[id@].last_worker_id == Some(workers@[k].config.id@)
                        && first_worker_with_id(workers@, workers@[k].config.id@, 0) == Some(k)
                        && workers@[k].config.model@ == model@ && workers@[k].active_requests
                        < max_active_requests implies sticky_target(
                    workers@,
                    old(sessions)@,
                    id@,
                    epoch,
                    model@,
                    max_active_requests,
                ) == Some(k) by {
                    lemma_sticky_target_is_live(
                        workers@,
                        old(sessions)@,
                        id@,
                        epoch,
                        model@,
                        max_active_requests,
                        k,
                    );
                }
            }
            let mut chosen = decision;
            let fallback = chosen.mode == RoutingMode::FallbackP2c || chosen.mode
                == RoutingMode::FallbackRoundRobin || chosen.mode == RoutingMode::LoadAware;
            if fallback {
                match sessions.sticky_worker(id, epoch) {
                    Some(sticky_id) => {
                        assert(sticky_of(sessions@, id@, epoch) == Some(sticky_id@));
                        match find_worker(workers, sticky_id.as_str()) {
                            Some(k) => {
                                let w = &workers[k];
                                if same_text(w.config.model.as_str(), model) && w.active_requests
                                    < max_active_requests {
                                    chosen = SchedulingDecision {
                                        worker_id: sticky_id,
                                        http_endpoint: w.config.http_endpoint.clone(),
                                        matched_pages: 0,
                                        mode: RoutingMode::SessionAffinity,
                                        anchor_aligned: false,
                                    };
                                }
                            },
                            None => {},
                        }
                    },
                    None => {},
                }
            }
            sessions.record_assignment(id, epoch, chosen.worker_id.as_str());
            chosen
        },
    }
}

/// After a request was served: when the upstream answered with success, the
/// assigned worker's engine has just prefilled the prompt, so its chain is
/// recorded at once and a worker still synchronizing becomes ready. The
/// engine's removal events stay the authority on eviction.
pub fn record_prefill(
    processor: &mut KvEventProcessor,
    worker: &mut WorkerRuntimeState,
    page_hashes: &[i64],
    upstream_success: bool,
)
    requires
        old(processor).wf(),
    ensures
        final(processor).wf(),
        final(processor).ledger() == (if upstream_success && page_hashes@.len() > 0 {
            after_insert(old(processor).ledger(), old(worker).config.id@, page_hashes@)
        } else {
            old(processor).ledger()
        }),
        final(worker).status == (if upstream_success && page_hashes@.len() > 0 && (old(worker).status
            == WorkerSyncStatus::Syncing || old(worker).status == WorkerSyncStatus::Init) {
            WorkerSyncStatus::Ready
        } else {
            old(worker).status
        }),
        final(worker).config == old(worker).config,
        final(worker).active_requests == old(worker).active_requests,
        final(worker).last_seq == old(worker).last_seq,
{
    if upstream_success && page_hashes.len() > 0 {
        processor.insert_chain(worker.config.id.as_str(), page_hashes);
        if worker.status == WorkerSyncStatus::Syncing || worker.status == WorkerSyncStatus::Init {
            worker.set_status(WorkerSyncStatus::Ready);
        }
    }
}

/// The distinct models among the first `n` workers, in order of first
/// appearance.
pub open spec fn models_upto(ws: Seq<WorkerRuntimeState>, n: int) -> Seq<Seq<char>>
    decreases n,
{
    if n <= 0 {
        Seq::empty()
    } else {
        let p = models_upto(ws, n - 1);
        if p.contains(ws[n - 1].config.model@) {
            p
        } else {
            p.push(ws[n - 1].config.model@)
        }
    }
}

/// The models the cluster serves, each once, in order of first appearance.
pub fn distinct_models(workers: &[WorkerRuntimeState]) -> (r: Vec<String>)
    ensures
        ids_of(r@) == models_upto(workers@, workers@.len() as int),
{
    let mut out: Vec<String> = Vec::new();
    let mut i: usize = 0;
    while i < workers.len()
        invariant
            i <= workers@.len(),
            ids_of(out@) == models_upto(workers@, i as int),
        decreases workers@.len() - i,
    {
        let model = &workers[i].config.model;
        match find_id(&out, model) {
            Some(j) => {
                assert(ids_of(out@)[j as int] == model@);
            },
            None => {
                proof {
                    lemma_ids_push(out@, *model);
                }
                out.push(model.clone());
            },
        }
        i += 1;
    }
    out
}

/// Sum of the in-flight requests of the first `n` workers.
pub open spec fn active_sum(ws: Seq<WorkerRuntimeState>, n: int) -> int
    decreases n,
{
    if n <= 0 {
        0
    } else {
        active_sum(ws, n - 1) + ws[n - 1].active_requests
    }
}

/// Number of READY workers among the first `n`.
pub open spec fn ready_count(ws: Seq<WorkerRuntimeState>, n: int) -> int
    decreases n,
{
    if n <= 0 {
        0
    } else {
        ready_count(ws, n - 1) + if ws[n - 1].status == WorkerSyncStatus::Ready {
            1int
        } else {
            0int
        }
    }
}

proof fn lemma_active_sum_monotone(ws: Seq<WorkerRuntimeState>, a: int, b: int)
    requires
        0 <= a <= b <= ws.len(),
    ensures
        active_sum(ws, a) <= active_sum(ws, b),
    decreases b - a,
{
    if a < b {
        lemma_active_sum_monotone(ws, a, b - 1);
    }
}

proof fn lemma_ready_count_bound(ws: Seq<WorkerRuntimeState>, n: int)
    requires
        0 <= n,
    ensures
        0 <= ready_count(ws, n) <= n,
    decreases n,
{
    if n > 0 {
        lemma_ready_count_bound(ws, n - 1);
    }
}

/// Cluster-wide counts.
#[derive(Debug, Clone, Copy)]
pub struct ClusterTotals {
    pub total_workers: usize,
    pub ready_workers: usize,
    pub total_active_requests: usize,
}

/// Counts the workers, the READY ones, and the in-flight requests.
pub fn cluster_totals(workers: &[WorkerRuntimeState]) -> (r: ClusterTotals)
    requires
        active_sum(workers@, workers@.len() as int) <= usize::MAX,
    ensures
        r.total_workers == workers@.len(),
        r.ready_workers == ready_count(workers@, workers@.len() as int),
        r.total_active_requests == active_sum(workers@, workers@.len() as int),
{
    let mut ready: usize = 0;
    let mut active: usize = 0;
    let mut i: usize = 0;
    while i < workers.len()
        invariant
            i <= workers@.len(),
            active_sum(workers@, workers@.len() as int) <= usize::MAX,
            ready == ready_count(workers@, i as int),
            active == active_sum(workers@, i as int),
        decreases workers@.len() - i,
    {
        proof {
            lemma_active_sum_monotone(workers@, i + 1, workers@.len() as int);
            lemma_ready_count_bound(workers@, i as int);
        }
        if workers[i].status == WorkerSyncStatus::Ready {
            ready = ready + 1;
        }
        active = active + workers[i].active_requests;
        i += 1;
    }
    ClusterTotals { total_workers: workers.len(), ready_workers: ready, total_active_requests: active }
}

/// The endpoint with its trailing slashes removed.
pub open spec fn trim_trailing_slashes(s: Seq<char>) -> Seq<char>
    decreases s.len(),
{
    if s.len() > 0 && s.last() == '/' {
        trim_trailing_slashes(s.drop_last())
    } else {
        s
    }
}

/// The chat-completions URL of a worker's HTTP endpoint.
pub fn upstream_chat_url(endpoint: &str) -> (r: String)
    ensures
        r@ == trim_trailing_slashes(endpoint@) + "/v1/chat/completions"@,
{
    let n = endpoint.unicode_len();
    let mut k: usize = n;
    assert(endpoint@.take(n as int) =~= endpoint@);
    while k > 0 && endpoint.get_char(k - 1) == '/'
        invariant
            k <= n,
            n == endpoint@.len(),
            trim_trailing_slashes(endpoint@.take(k as int)) == trim_trailing_slashes(endpoint@),
        decreases k,
    {
        proof {
            assert(endpoint@.take(k as int).drop_last() =~= endpoint@.take(k - 1));
        }
        k -= 1;
    }
    let base = endpoint.substring_char(0, k);
    proof {
        assert(endpoint@.subrange(0, k as int) =~= endpoint@.take(k as int));
    }
    let mut out = base.to_owned();
    out.append("/v1/chat/completions");
    out
}

/// The JSON text of a server-sent-event line that may carry usage to
/// annotate: what follows `data: `, unless it is the `[DONE]` marker.
pub open spec fn sse_payload(line: Seq<char>) -> Option<Seq<char>> {
    if line.len() >= 6 && line.take(6) == "data: "@ && line.skip(6) != "[DONE]"@ {
        Some(line.skip(6))
    } else {
        None
    }
}

/// See [`sse_payload`].
pub fn sse_data_payload(line: &str) -> (r: Option<&str>)
    ensures
        match r {
            Some(p) => sse_payload(line@) == Some(p@),
            None => sse_payload(line@) is None,
        },
{
    let n = line.unicode_len();
    if n < 6 {
        return None;
    }
    let head = line.substring_char(0, 6);
    if !same_text(head, "data: ") {
        return None;
    }
    let rest = line.substring_char(6, n);
    if same_text(rest, "[DONE]") {
        return None;
    }
    Some(rest)
}

/// The first newline byte at or after `from`.
pub open spec fn first_newline(b: Seq<u8>, from: int) -> Option<int>
    decreases b.len() - from,
{
    if from < 0 || from >= b.len() {
        None
    } else if b[from] == 10 {
        Some(from)
    } else {
        first_newline(b, from + 1)
    }
}

/// A line without its carriage return, if it ends with one.
pub open spec fn strip_cr(l: Seq<u8>) -> Seq<u8> {
    if l.len() > 0 && l.last() == 13 {
        l.drop_last()
    } else {
        l
    }
}

/// The complete lines of `b` from `start` (without their line ends), and
/// what is left after the last newline.
pub open spec fn sse_split(b: Seq<u8>, start: int) -> (Seq<Seq<u8>>, Seq<u8>)
    decreases b.len() - start,
{
    if start < 0 || start > b.len() {
        (Seq::empty(), Seq::empty())
    } else {
        match first_newline(b, start) {
            Some(p) => if start <= p < b.len() {
                let rest = sse_split(b, p + 1);
                (seq![strip_cr(b.subrange(start, p))] + rest.0, rest.1)
            } else {
                (Seq::empty(), b.skip(start))
            },
            None => (Seq::empty(), b.skip(start)),
        }
    }
}

proof fn lemma_first_newline_range(b: Seq<u8>, from: int)
    requires
        0 <= from,
    ensures
        match first_newline(b, from) {
            Some(p) => from <= p < b.len() && b[p] == 10 && forall|q: int| from <= q < p ==> b[q] != 10,
            None => forall|q: int| from <= q < b.len() ==> b[q] != 10,
        },
    decreases b.len() - from,
{
    if from < b.len() && b[from] != 10 {
        lemma_first_newline_range(b, from + 1);
    }
}

fn copy_range(b: &Vec<u8>, lo: usize, hi: usize) -> (r: Vec<u8>)
    requires
        lo <= hi <= b@.len(),
    ensures
        r@ == b@.subrange(lo as int, hi as int),
{
    let mut out: Vec<u8> = Vec::new();
    let mut i: usize = lo;
    while i < hi
        invariant
            lo <= i <= hi <= b@.len(),
            out@ == b@.subrange(lo as int, i as int),
        decreases hi - i,
    {
        out.push(b[i]);
        assert(out@ =~= b@.subrange(lo as int, i + 1));
        i += 1;
    }
    out
}

/// Takes the complete lines off the front of a receive buffer, each without
/// its newline and carriage return, and leaves the unfinished rest in the
/// buffer: see [`sse_split`].
pub fn split_sse_lines(buffer: &mut Vec<u8>) -> (r: Vec<Vec<u8>>)
    ensures
        r@.map_values(|l: Vec<u8>| l@) == sse_split(old(buffer)@, 0).0,
        final(buffer)@ == sse_split(old(buffer)@, 0).1,
{
    let ghost b = buffer@;
    let mut lines: Vec<Vec<u8>> = Vec::new();
    let mut start: usize = 0;
    let mut i: usize = 0;
    while i < buffer.len()
        invariant
            buffer@ == b,
            start <= i <= b.len(),
            forall|q: int| start <= q < i ==> b[q] != 10,
            lines@.map_values(|l: Vec<u8>| l@) + sse_split(b, start as int).0 == sse_split(b, 0).0,
            sse_split(b, start as int).1 == sse_split(b, 0).1,
        decreases b.len() - i,
    {
        if buffer[i] == 10u8 {
            proof {
                lemma_first_newline_range(b, start as int);
                assert(first_newline(b, start as int) == Some(i as int));
            }
            let mut line = copy_range(buffer, start, i);
            if line.len() > 0 && line[line.len() - 1] == 13u8 {
                line.pop();
            }
            let ghost before = lines@;
            lines.push(line);
            proof {
                assert(lines@.map_values(|l: Vec<u8>| l@) =~= before.map_values(|l: Vec<u8>| l@)
                    + seq![strip_cr(b.subrange(start as int, i as int))]);
            }
            start = i + 1;
        }
        i += 1;
    }
    proof {
        lemma_first_newline_range(b, start as int);
        assert(first_newline(b, start as int) is None);
        assert(sse_split(b, start as int).0 =~= Seq::<Seq<u8>>::empty());
        assert(lines@.map_values(|l: Vec<u8>| l@) =~= lines@.map_values(|l: Vec<u8>| l@) + sse_split(
            b,
            start as int,
        ).0);
    }
    let rest = copy_range(buffer, start, buffer.len());
    assert(rest@ =~= b.skip(start as int));
    *buffer = rest;
    lines
}

/// The gateway's `cortex` telemetry object: exactly the members assigned
/// worker, match mode, cache-hit tokens and anchor alignment.
pub open spec fn cortex_view(worker: Seq<char>, mode: Seq<char>, hits: u64, aligned: bool) -> JsonView {
    JsonView::JObj(
        seq![
            ("assigned_worker"@, JsonView::JStr(worker)),
            ("match_mode"@, JsonView::JStr(mode)),
            ("cache_hit_tokens"@, u64_view(hits)),
            ("anchor_aligned"@, JsonView::JBool(aligned)),
        ],
    )
}

/// A `usage` object's members after annotation: the gateway's cache-hit
/// tokens (under two names) and anchor alignment set.
pub open spec fn usage_view(u: Seq<(Seq<char>, JsonView)>, hits: u64, aligned: bool) -> Seq<
    (Seq<char>, JsonView),
> {
    set_member(
        set_member(set_member(u, "gateway_cache_hit_tokens"@, u64_view(hits)), "cache_hit_tokens"@, u64_view(hits)),
        "gateway_anchor_aligned"@,
        JsonView::JBool(aligned),
    )
}

/// A response document after telemetry injection: an object gets the
/// `cortex` member set to [`cortex_view`], then its `usage` member, when that
/// is an object, is annotated by [`usage_view`]; any other document is left
/// alone.
pub open spec fn inject_view(pre: JsonView, worker: Seq<char>, mode: Seq<char>, hits: u64, aligned: bool) -> JsonView {
    match pre {
        JsonView::JObj(es) => {
            let e1 = set_member(es, "cortex"@, cortex_view(worker, mode, hits, aligned));
            JsonView::JObj(
                match member_index(e1, "usage"@, 0) {
                    Some(i) => match e1[i].1 {
                        JsonView::JObj(u) => e1.update(i, ("usage"@, JsonView::JObj(usage_view(u, hits, aligned)))),
                        _ => e1,
                    },
                    None => e1,
                },
            )
        },
        _ => pre,
    }
}

/// The gateway's `cortex` telemetry object read member by member: exactly
/// four members, the assigned worker, match mode, cache-hit tokens and anchor
/// alignment.
pub open spec fn cortex_object_ok(c: JsonValue, worker: Seq<char>, mode: Seq<char>, hits: u64, aligned: bool) -> bool {
    &&& c matches JsonValue::Object(es)
    &&& c->Object_0@.len() == 4
    &&& obj_get(c->Object_0@, "assigned_worker"@) matches Some(JsonValue::Str(w)) && w@ == worker
    &&& obj_get(c->Object_0@, "match_mode"@) matches Some(JsonValue::Str(m)) && m@ == mode
    &&& obj_get(c->Object_0@, "cache_hit_tokens"@) matches Some(n) && is_u64_number(n, hits)
    &&& obj_get(c->Object_0@, "anchor_aligned"@) == Some(JsonValue::Bool(aligned))
}

/// A `usage` object after annotation, read member by member: the gateway's
/// cache-hit tokens (twice, under two names) and anchor alignment set, every
/// other member as before.
pub open spec fn usage_annotated(
    u0: Seq<(String, JsonValue)>,
    u1: Seq<(String, JsonValue)>,
    hits: u64,
    aligned: bool,
) -> bool {
    &&& obj_get(u1, "gateway_cache_hit_tokens"@) matches Some(n) && is_u64_number(n, hits)
    &&& obj_get(u1, "cache_hit_tokens"@) matches Some(n) && is_u64_number(n, hits)
    &&& obj_get(u1, "gateway_anchor_aligned"@) == Some(JsonValue::Bool(aligned))
    &&& forall|k: Seq<char>|
        k != "gateway_cache_hit_tokens"@ && k != "cache_hit_tokens"@ && k != "gateway_anchor_aligned"@
            ==> #[trigger] obj_get(u1, k) == obj_get(u0, k)
}

/// A response document after telemetry injection, read member by member. An
/// object gains the `cortex` object, its `usage` object (when it has one) is
/// annotated, and every other member reads as before; any other document is
/// left alone.
pub open spec fn telemetry_injected(
    pre: JsonValue,
    post: JsonValue,
    worker: Seq<char>,
    mode: Seq<char>,
    hits: u64,
    aligned: bool,
) -> bool {
    match pre {
        JsonValue::Object(e0) => post matches JsonValue::Object(e1) && {
            &&& obj_get(e1@, "cortex"@) matches Some(c) && cortex_object_ok(c, worker, mode, hits, aligned)
            &&& forall|k: Seq<char>|
                k != "cortex"@ && k != "usage"@ ==> #[trigger] obj_get(e1@, k) == obj_get(e0@, k)
            &&& match obj_get(e0@, "usage"@) {
                Some(JsonValue::Object(u0)) => obj_get(e1@, "usage"@) matches Some(JsonValue::Object(u1))
                    && usage_annotated(u0@, u1@, hits, aligned),
                other => obj_get(e1@, "usage"@) == other,
            }
        },
        _ => post == pre,
    }
}

proof fn lemma_telemetry_keys_differ()
    ensures
        "assigned_worker"@ != "match_mode"@,
        "assigned_worker"@ != "cache_hit_tokens"@,
        "assigned_worker"@ != "anchor_aligned"@,
        "match_mode"@ != "cache_hit_tokens"@,
        "match_mode"@ != "anchor_aligned"@,
        "cache_hit_tokens"@ != "anchor_aligned"@,
        "gateway_cache_hit_tokens"@ != "cache_hit_tokens"@,
        "gateway_cache_hit_tokens"@ != "gateway_anchor_aligned"@,
        "cache_hit_tokens"@ != "gateway_anchor_aligned"@,
        "cortex"@ != "usage"@,
{
    reveal_strlit("assigned_worker");
    reveal_strlit("match_mode");
    reveal_strlit("cache_hit_tokens");
    reveal_strlit("anchor_aligned");
    reveal_strlit("gateway_cache_hit_tokens");
    reveal_strlit("gateway_anchor_aligned");
    reveal_strlit("cortex");
    reveal_strlit("usage");
    assert("assigned_worker"@.len() == 15);
    assert("match_mode"@.len() == 10);
    assert("cache_hit_tokens"@.len() == 16);
    assert("anchor_aligned"@.len() == 14);
    assert("gateway_cache_hit_tokens"@.len() == 24);
    assert("gateway_anchor_aligned"@.len() == 22);
    assert("cortex"@.len() == 6);
    assert("usage"@.len() == 5);
}

/// Telemetry injection keeps every object of the document free of repeated
/// keys, as `serde_json` maps are.
pub proof fn lemma_inject_keeps_keys_unique(pre: JsonView, worker: Seq<char>, mode: Seq<char>, hits: u64, aligned: bool)
    requires
        unique_keys(pre),
    ensures
        unique_keys(inject_view(pre, worker, mode, hits, aligned)),
{
    lemma_telemetry_keys_differ();
    match pre {
        JsonView::JObj(es) => {
            let c = cortex_view(worker, mode, hits, aligned);
            let cs = c->JObj_0;
            assert(keys_distinct(cs));
            assert forall|j: int| 0 <= j < cs.len() implies unique_keys(#[trigger] cs[j].1) by {}
            lemma_set_member_unique(es, "cortex"@, c);
            let e1 = set_member(es, "cortex"@, c);
            match member_index(e1, "usage"@, 0) {
                Some(i) => {
                    lemma_member_index(e1, "usage"@, 0);
                    match e1[i].1 {
                        JsonView::JObj(u) => {
                            assert(unique_keys(e1[i].1));
                            let n = u64_view(hits);
                            let b = JsonView::JBool(aligned);
                            lemma_set_member_unique(u, "gateway_cache_hit_tokens"@, n);
                            let u1 = set_member(u, "gateway_cache_hit_tokens"@, n);
                            lemma_set_member_unique(u1, "cache_hit_tokens"@, n);
                            let u2 = set_member(u1, "cache_hit_tokens"@, n);
                            lemma_set_member_unique(u2, "gateway_anchor_aligned"@, b);
                            lemma_replace_value_unique(e1, i, JsonView::JObj(usage_view(u, hits, aligned)));
                        },
                        _ => {},
                    }
                },
                None => {},
            }
        },
        _ => {},
    }
}

/// Setting a key that no member has appends a member.
proof fn lemma_set_new_member(m: Seq<(Seq<char>, JsonView)>, key: Seq<char>, val: JsonView)
    requires
        forall|j: int| 0 <= j < m.len() ==> #[trigger] m[j].0 != key,
    ensures
        set_member(m, key, val) == m.push((key, val)),
{
    lemma_member_index(m, key, 0);
}

fn cortex_object(worker_id: &str, mode: &str, hits: u64, anchor_aligned: bool) -> (r: JsonValue)
    ensures
        cortex_object_ok(r, worker_id@, mode@, hits, anchor_aligned),
        json_view(r) == cortex_view(worker_id@, mode@, hits, anchor_aligned),
{
    proof {
        lemma_telemetry_keys_differ();
    }
    let ghost c = cortex_view(worker_id@, mode@, hits, anchor_aligned)->JObj_0;
    let mut es: Vec<(String, JsonValue)> = Vec::new();
    assert(members_view(es@) =~= c.take(0));
    set_entry(&mut es, "assigned_worker", JsonValue::Str(worker_id.to_owned()));
    proof {
        lemma_set_new_member(c.take(0), c[0].0, c[0].1);
        assert(members_view(es@) =~= c.take(1));
    }
    set_entry(&mut es, "match_mode", JsonValue::Str(mode.to_owned()));
    proof {
        lemma_set_new_member(c.take(1), c[1].0, c[1].1);
        assert(members_view(es@) =~= c.take(2));
    }
    let n = json_u64(hits);
    set_entry(&mut es, "cache_hit_tokens", n);
    proof {
        lemma_set_new_member(c.take(2), c[2].0, c[2].1);
        assert(members_view(es@) =~= c.take(3));
    }
    set_entry(&mut es, "anchor_aligned", JsonValue::Bool(anchor_aligned));
    proof {
        lemma_set_new_member(c.take(3), c[3].0, c[3].1);
        assert(members_view(es@) =~= c);
        lemma_object_view(es);
    }
    JsonValue::Object(es)
}

fn annotate_usage(u: &mut Vec<(String, JsonValue)>, hits: u64, anchor_aligned: bool)
    ensures
        usage_annotated(old(u)@, final(u)@, hits, anchor_aligned),
        members_view(final(u)@) == usage_view(members_view(old(u)@), hits, anchor_aligned),
{
    proof {
        lemma_telemetry_keys_differ();
    }
    set_entry(u, "gateway_cache_hit_tokens", json_u64(hits));
    set_entry(u, "cache_hit_tokens", json_u64(hits));
    set_entry(u, "gateway_anchor_aligned", JsonValue::Bool(anchor_aligned));
}

/// Writes the gateway's routing telemetry into a response document: its
/// view becomes [`inject_view`] of the view before, which reads as
/// [`telemetry_injected`] says; a document without repeated keys keeps none.
pub fn inject_cortex_telemetry(
    payload: &mut JsonValue,
    worker_id: &str,
    mode: &str,
    hit_tokens: usize,
    anchor_aligned: bool,
)
    ensures
        json_view(*final(payload)) == inject_view(
            json_view(*old(payload)),
            worker_id@,
            mode@,
            hit_tokens as u64,
            anchor_aligned,
        ),
        telemetry_injected(*old(payload), *final(payload), worker_id@, mode@, hit_tokens as u64, anchor_aligned),
        unique_keys(json_view(*old(payload))) ==> unique_keys(json_view(*final(payload))),
{
    proof {
        lemma_telemetry_keys_differ();
        if unique_keys(json_view(*old(payload))) {
            lemma_inject_keeps_keys_unique(
                json_view(*old(payload)),
                worker_id@,
                mode@,
                hit_tokens as u64,
                anchor_aligned,
            );
        }
    }
    let mut taken = JsonValue::Null;
    std::mem::swap(&mut taken, payload);
    assert(taken == *old(payload));
    match taken {
        JsonValue::Object(mut entries) => {
            let ghost e0 = entries@;
            proof {
                lemma_object_view(entries);
            }
            let cortex = cortex_object(worker_id, mode, hit_tokens as u64, anchor_aligned);
            set_entry(&mut entries, "cortex", cortex);
            let ghost e_mid = entries@;
            let ghost v1 = members_view(e_mid);
            assert(v1 == set_member(
                members_view(e0),
                "cortex"@,
                cortex_view(worker_id@, mode@, hit_tokens as u64, anchor_aligned),
            ));
            match find_key(&entries, "usage") {
                Some(i) => {
                    let (k, v) = entries.remove(i);
                    proof {
                        lemma_key_index_range(e_mid, "usage"@, 0);
                        lemma_key_index_view(e_mid, "usage"@, 0);
                        assert(v == e_mid[i as int].1);
                        assert(k@ == "usage"@);
                        assert(v1[i as int].1 == json_view(v));
                    }
                    let nv = match v {
                        JsonValue::Object(mut u) => {
                            proof {
                                lemma_object_view(u);
                            }
                            annotate_usage(&mut u, hit_tokens as u64, anchor_aligned);
                            proof {
                                lemma_object_view(u);
                            }
                            JsonValue::Object(u)
                        },
                        other => other,
                    };
                    let ghost p = (k, nv);
                    entries.insert(i, (k, nv));
                    proof {
                        assert(entries@ =~= e_mid.update(i as int, p));
                        lemma_update_member(e_mid, i as int, p);
                        assert(members_view(entries@) =~= v1.update(i as int, ("usage"@, json_view(nv))));
                        if !(v1[i as int].1 is JObj) {
                            assert(!(v is Object));
                            assert(nv == v);
                            assert(v1.update(i as int, ("usage"@, json_view(nv))) =~= v1);
                        }
                    }
                },
                None => {
                    proof {
                        lemma_key_index_view(e_mid, "usage"@, 0);
                    }
                },
            }
            proof {
                assert(obj_get(e0, "usage"@) == obj_get(e_mid, "usage"@));
                assert(obj_get(entries@, "cortex"@) == obj_get(e_mid, "cortex"@));
                assert(forall|k: Seq<char>|
                    k != "cortex"@ && k != "usage"@ ==> #[trigger] obj_get(entries@, k) == obj_get(e_mid, k));
                lemma_object_view(entries);
            }
            *payload = JsonValue::Object(entries);
        },
        other => {
            *payload = other;
        },
    }
}

/// Whether a document is an object with a `usage` object.
pub open spec fn has_usage_object(v: JsonValue) -> bool {
    &&& v matches JsonValue::Object(es)
    &&& obj_get(v->Object_0@, "usage"@) matches Some(JsonValue::Object(u))
}

fn usage_is_object(v: &JsonValue) -> (r: bool)
    ensures
        r == has_usage_object(*v),
{
    match v {
        JsonValue::Object(es) => match find_key(es, "usage") {
            Some(i) => {
                proof {
                    lemma_key_index_range(es@, "usage"@, 0);
                }
                match &es[i].1 {
                    JsonValue::Object(_) => true,
                    _ => false,
                }
            },
            None => false,
        },
        _ => false,
    }
}

/// Rewrites one server-sent-event line: a `data:` line whose JSON payload
/// is an object with a `usage` object gets the gateway's telemetry (see
/// [`inject_view`]) and is printed again; every other line passes through.
pub fn rewrite_sse_data_line(
    line: &str,
    worker_id: &str,
    mode: &str,
    hit_tokens: usize,
    anchor_aligned: bool,
) -> (r: String)
    ensures
        match sse_payload(line@) {
            Some(p) => match json_decode(encode_utf8(p)) {
                Some(v) => if has_usage_object(v) {
                    r@ == "data: "@ + json_encode(
                        inject_view(json_view(v), worker_id@, mode@, hit_tokens as u64, anchor_aligned),
                    )
                } else {
                    r@ == line@
                },
                None => r@ == line@,
            },
            None => r@ == line@,
        },
{
    match sse_data_payload(line) {
        None => line.to_owned(),
        Some(p) => match json_parse(p.as_bytes()) {
            None => line.to_owned(),
            Some(v) => {
                let mut v = v;
                if usage_is_object(&v) {
                    inject_cortex_telemetry(&mut v, worker_id, mode, hit_tokens, anchor_aligned);
                    let mut out = "data: ".to_owned();
                    let text = json_print(&v);
                    out.append(text.as_str());
                    out
                } else {
                    line.to_owned()
                }
            },
        },
    }
}

/// The body of a JSON response with the gateway's telemetry: when the bytes
/// are a JSON object, the annotated object printed again (see
/// [`inject_view`]); `None` for any other body, which is passed on as it
/// came.
pub fn annotate_response_body(
    bytes: &[u8],
    worker_id: &str,
    mode: &str,
    hit_tokens: usize,
    anchor_aligned: bool,
) -> (r: Option<String>)
    ensures
        match json_decode(bytes@) {
            Some(v) => if v is Object {
                r matches Some(s) && s@ == json_encode(
                    inject_view(json_view(v), worker_id@, mode@, hit_tokens as u64, anchor_aligned),
                )
            } else {
                r is None
            },
            None => r is None,
        },
{
    match json_parse(bytes) {
        Some(v) => {
            let mut v = v;
            match v {
                JsonValue::Object(_) => {
                    inject_cortex_telemetry(&mut v, worker_id, mode, hit_tokens, anchor_aligned);
                    let text = json_print(&v);
                    Some(text)
                },
                _ => None,
            }
        },
        None => None,
    }
}

/// How a forwarded request ended.
#[derive(Debug, Clone, Copy, PartialEq, Eq, Structural)]
pub enum RequestOutcome {
    /// The upstream answered with this status, and its body was passed on.
    Answered(u16),
    /// The upstream could not be reached.
    UpstreamUnreachable,
    /// The upstream's body could not be read.
    BodyUnreadable,
}

/// The workers after `k` took one more in-flight request (`count_in`) or
/// gave one back (`count_out`), nothing else changed.
pub open spec fn worker_count_changed(
    pre: Seq<WorkerRuntimeState>,
    post: Seq<WorkerRuntimeState>,
    k: int,
    up: bool,
) -> bool {
    &&& post.len() == pre.len()
    &&& forall|j: int| 0 <= j < pre.len() && j != k ==> #[trigger] post[j] == pre[j]
    &&& post[k].active_requests == (if up {
        count_in(pre[k].active_requests)
    } else {
        count_out(pre[k].active_requests)
    })
    &&& post[k].config == pre[k].config
    &&& post[k].status == pre[k].status
    &&& post[k].last_seq == pre[k].last_seq
    &&& post[k].last_heartbeat_ms == pre[k].last_heartbeat_ms
}

/// Registers a worker under its id: a worker already registered with that id
/// is replaced in place, otherwise the worker is appended. Ids stay
/// distinct.
pub fn register_worker(workers: &mut Vec<WorkerRuntimeState>, w: WorkerRuntimeState)
    ensures
        match first_worker_with_id(old(workers)@, w.config.id@, 0) {
            Some(k) => final(workers)@ == old(workers)@.update(k, w),
            None => final(workers)@ == old(workers)@.push(w),
        },
        worker_ids_distinct(old(workers)@) ==> worker_ids_distinct(final(workers)@),
{
    let ghost pre = workers@;
    let ghost wv = w;
    match find_worker(workers.as_slice(), w.config.id.as_str()) {
        Some(k) => {
            workers.set(k, w);
            proof {
                assert(workers@ =~= pre.update(k as int, wv));
            }
        },
        None => {
            proof {
                lemma_no_worker_with_id(pre, wv.config.id@, 0);
            }
            workers.push(w);
        },
    }
}

proof fn lemma_no_worker_with_id(ws: Seq<WorkerRuntimeState>, id: Seq<char>, from: int)
    requires
        0 <= from,
        first_worker_with_id(ws, id, from) is None,
    ensures
        forall|j: int| from <= j < ws.len() ==> #[trigger] ws[j].config.id@ != id,
    decreases ws.len() - from,
{
    if from < ws.len() {
        lemma_no_worker_with_id(ws, id, from + 1);
    }
}

/// Tokens served from the prefix cache: matched pages times the page size,
/// saturating where the product does not fit.
pub fn hit_tokens(matched_pages: usize, page_size: usize) -> (r: usize)
    ensures
        r == (if matched_pages * page_size <= usize::MAX {
            matched_pages * page_size
        } else {
            usize::MAX as int
        }),
{
    match matched_pages.checked_mul(page_size) {
        Some(t) => t,
        None => usize::MAX,
    }
}

/// Starts forwarding a request that the scheduler routed: with no worker
/// selectable the request is refused as unavailable (503); a decision for a
/// worker that is not registered is an internal error (500); otherwise the
/// chosen worker takes an in-flight slot.
pub fn begin_request(workers: &mut Vec<WorkerRuntimeState>, decision: Option<SchedulingDecision>) -> (r: Result<
    SchedulingDecision,
    u16,
>)
    ensures
        match decision {
            None => r == Err::<SchedulingDecision, u16>(503) && final(workers)@ == old(workers)@,
            Some(d) => match first_worker_with_id(old(workers)@, d.worker_id@, 0) {
                None => r == Err::<SchedulingDecision, u16>(500) && final(workers)@ == old(workers)@,
                Some(k) => r == Ok::<SchedulingDecision, u16>(d) && worker_count_changed(
                    old(workers)@,
                    final(workers)@,
                    k,
                    true,
                ),
            },
        },
        worker_ids_distinct(old(workers)@) ==> worker_ids_distinct(final(workers)@),
{
    match decision {
        None => Err(503),
        Some(d) => match find_worker(workers.as_slice(), d.worker_id.as_str()) {
            None => Err(500),
            Some(k) => {
                let ghost pre = workers@;
                let mut w = workers.remove(k);
                w.inc_active_requests();
                workers.insert(k, w);
                proof {
                    assert(workers@ =~= pre.update(k as int, w));
                }
                Ok(d)
            },
        },
    }
}

/// Ends a forwarded request, on every path: the worker's in-flight slot is
/// given back once, and the client gets the upstream's status, or a bad
/// gateway (502) when the upstream could not be reached or read.
pub fn finish_request(workers: &mut Vec<WorkerRuntimeState>, worker_id: &str, outcome: RequestOutcome) -> (status:
    u16)
    ensures
        status == match outcome {
            RequestOutcome::Answered(s) => s,
            _ => 502u16,
        },
        match first_worker_with_id(old(workers)@, worker_id@, 0) {
            None => final(workers)@ == old(workers)@,
            Some(k) => worker_count_changed(old(workers)@, final(workers)@, k, false),
        },
        worker_ids_distinct(old(workers)@) ==> worker_ids_distinct(final(workers)@),
{
    match find_worker(workers.as_slice(), worker_id) {
        None => {},
        Some(k) => {
            let ghost pre = workers@;
            let mut w = workers.remove(k);
            w.dec_active_requests();
            workers.insert(k, w);
            proof {
                assert(workers@ =~= pre.update(k as int, w));
            }
        },
    }
    match outcome {
        RequestOutcome::Answered(s) => s,
        _ => 502,
    }
}

} // verus!
