//! KV-cache events from the engines: wire decoding, sequence checking and
//! the ledger synchronization gatekeeper.

use crate::bytes::{be_u64, be_value};
use crate::ids::same_text;
use crate::ledger::radix_tree::{
    after_clear, after_insert, after_remove, holds, lemma_clear_forgets_worker,
    lemma_updates_isolate_workers, RadixHashTree,
};
use crate::ledger::worker_state::{WorkerRuntimeState, WorkerSyncStatus};
use crate::json::{find_key, json_decode, json_parse, lemma_key_index_range, obj_get, JsonValue};
use rmpv::Value as RmpValue;
use vstd::prelude::*;

verus! {

/// A MessagePack value, holding what event decoding reads: integers as the
/// signed and unsigned readings they admit, strings as text when they are
/// valid UTF-8, and containers with their items. Floats carry no payload.
#[derive(Debug)]
pub enum MsgValue {
    Nil,
    Boolean(bool),
    Integer { as_i64: Option<i64>, as_u64: Option<u64> },
    Float,
    Text(Option<String>),
    Binary(Vec<u8>),
    Array(Vec<MsgValue>),
    Dict(Vec<(MsgValue, MsgValue)>),
    Ext(i8, Vec<u8>),
}

/// `rmpv::Value`, a decoded MessagePack value; opaque to proofs.
#[verifier::external_type_specification]
#[verifier::external_body]
pub struct ExRmpvValue(rmpv::Value);

/// What `rmp_serde::from_slice::<rmpv::Value>` decodes from a byte string,
/// as a [`MsgValue`]; `None` when decoding fails.
pub uninterp spec fn msgpack_decode(bytes: Seq<u8>) -> Option<MsgValue>;

/// Converts a decoded `rmpv::Value` into a [`MsgValue`], variant by variant;
/// nothing is stated of it, its one caller states the result.
#[verifier::external_body]
fn msg_value_from(v: &RmpValue) -> MsgValue {
    match v {
        RmpValue::Nil => MsgValue::Nil,
        RmpValue::Boolean(b) => MsgValue::Boolean(*b),
        RmpValue::Integer(n) => MsgValue::Integer { as_i64: n.as_i64(), as_u64: n.as_u64() },
        RmpValue::String(s) => MsgValue::Text(s.as_str().map(|t| t.to_string())),
        RmpValue::Binary(b) => MsgValue::Binary(b.clone()),
        RmpValue::Array(items) => MsgValue::Array(items.iter().map(msg_value_from).collect()),
        RmpValue::Map(pairs) => MsgValue::Dict(pairs.iter().map(msg_pair_from).collect()),
        RmpValue::Ext(t, d) => MsgValue::Ext(*t, d.clone()),
        _ => MsgValue::Float,
    }
}

/// Converts a decoded key/value pair, item by item.
#[verifier::external_body]
fn msg_pair_from(p: &(RmpValue, RmpValue)) -> (MsgValue, MsgValue) {
    (msg_value_from(&p.0), msg_value_from(&p.1))
}

/// `rmp_serde::from_slice::<rmpv::Value>`: decodes one MessagePack value
/// from the front of `bytes`. The result is a function of the bytes, named
/// [`msgpack_decode`].
#[verifier::external_body]
fn decode_msgpack(bytes: &[u8]) -> (r: Option<MsgValue>)
    ensures
        r == msgpack_decode(bytes@),
{
    rmp_serde::from_slice::<rmpv::Value>(bytes).ok().map(|v| msg_value_from(&v))
}

/// What a KV event does to a worker's blocks.
pub enum KvEventKind {
    Stored(Seq<i64>),
    Removed(Seq<i64>),
    Cleared,
}

#[derive(Debug, Clone)]
pub enum KvEventPayload {
    BlockStored { page_hashes: Vec<i64> },
    BlockRemoved { page_hashes: Vec<i64> },
    AllBlocksCleared,
}

impl View for KvEventPayload {
    type V = KvEventKind;

    open spec fn view(&self) -> KvEventKind {
        match self {
            KvEventPayload::BlockStored { page_hashes } => KvEventKind::Stored(page_hashes@),
            KvEventPayload::BlockRemoved { page_hashes } => KvEventKind::Removed(page_hashes@),
            KvEventPayload::AllBlocksCleared => KvEventKind::Cleared,
        }
    }
}

/// One KV event with the sequence number it arrived under.
#[derive(Debug, Clone)]
pub struct KvEventMessage {
    pub seq: u64,
    pub payload: KvEventPayload,
}

impl View for KvEventMessage {
    type V = (u64, KvEventKind);

    open spec fn view(&self) -> (u64, KvEventKind) {
        (self.seq, self.payload@)
    }
}

/// A block hash read from a MessagePack item: the signed reading when there
/// is one, else the unsigned reading reinterpreted as signed.
pub open spec fn hash_item(v: MsgValue) -> Option<i64> {
    match v {
        MsgValue::Integer { as_i64, as_u64 } => match as_i64 {
            Some(x) => Some(x),
            None => match as_u64 {
                Some(u) => Some(u as i64),
                None => None,
            },
        },
        _ => None,
    }
}

/// The block hashes of a MessagePack array, skipping items that are not integers.
pub open spec fn hash_items(items: Seq<MsgValue>) -> Seq<i64>
    decreases items.len(),
{
    if items.len() == 0 {
        Seq::empty()
    } else {
        let p = hash_items(items.drop_last());
        match hash_item(items.last()) {
            Some(x) => p.push(x),
            None => p,
        }
    }
}

/// The name of an event record, empty when absent or not valid text.
pub open spec fn event_name(fields: Seq<MsgValue>) -> Seq<char> {
    if fields.len() > 0 {
        match fields[0] {
            MsgValue::Text(Some(t)) => t@,
            _ => Seq::empty(),
        }
    } else {
        Seq::empty()
    }
}

/// The hashes carried by an event record, when its second field is an array.
pub open spec fn event_hashes(fields: Seq<MsgValue>) -> Option<Seq<i64>> {
    if fields.len() > 1 {
        match fields[1] {
            MsgValue::Array(items) => Some(hash_items(items@)),
            _ => None,
        }
    } else {
        None
    }
}

/// The event an engine record `[name, hashes, ...]` stands for, if any.
pub open spec fn event_record(ev: MsgValue) -> Option<KvEventKind> {
    match ev {
        MsgValue::Array(fields) => {
            let name = event_name(fields@);
            if name == "BlockStored"@ {
                match event_hashes(fields@) {
                    Some(hs) => Some(KvEventKind::Stored(hs)),
                    None => None,
                }
            } else if name == "BlockRemoved"@ {
                match event_hashes(fields@) {
                    Some(hs) => Some(KvEventKind::Removed(hs)),
                    None => None,
                }
            } else if name == "AllBlocksCleared"@ {
                Some(KvEventKind::Cleared)
            } else {
                None
            }
        },
        _ => None,
    }
}

/// The events of a list of engine records, in order, each under `seq`.
pub open spec fn event_records(seq: u64, evs: Seq<MsgValue>) -> Seq<(u64, KvEventKind)>
    decreases evs.len(),
{
    if evs.len() == 0 {
        Seq::empty()
    } else {
        let p = event_records(seq, evs.drop_last());
        match event_record(evs.last()) {
            Some(k) => p.push((seq, k)),
            None => p,
        }
    }
}

/// The records of a batch that stand for block events.
pub open spec fn is_block_record(ev: MsgValue) -> bool {
    event_record(ev) is Some
}

/// A batch's events are its block-event records, every one, in order, each
/// read under the frame's sequence number; other records are skipped.
pub proof fn lemma_event_records_are_recognised(seq: u64, evs: Seq<MsgValue>)
    ensures
        event_records(seq, evs) == evs.filter(|ev: MsgValue| is_block_record(ev)).map_values(
            |ev: MsgValue| (seq, event_record(ev)->0),
        ),
    decreases evs.len(),
{
    reveal(Seq::filter);
    if evs.len() > 0 {
        lemma_event_records_are_recognised(seq, evs.drop_last());
        let f = |ev: MsgValue| is_block_record(ev);
        let g = |ev: MsgValue| (seq, event_record(ev)->0);
        let sub = evs.drop_last().filter(f);
        if f(evs.last()) {
            assert(evs.filter(f) == sub.push(evs.last()));
            assert(sub.push(evs.last()).map_values(g) =~= sub.map_values(g).push(g(evs.last())));
        } else {
            assert(evs.filter(f) == sub);
        }
    }
}

/// The events of an engine batch `[timestamp, [records...], ...]`.
pub open spec fn batch_events(seq: u64, v: Option<MsgValue>) -> Seq<(u64, KvEventKind)> {
    match v {
        Some(MsgValue::Array(batch)) => if batch@.len() >= 2 {
            match batch@[1] {
                MsgValue::Array(evs) => event_records(seq, evs@),
                _ => Seq::empty(),
            }
        } else {
            Seq::empty()
        },
        _ => Seq::empty(),
    }
}

/// The sequence number frame: eight big-endian bytes, else 0.
pub open spec fn seq_frame(bytes: Seq<u8>) -> u64 {
    if bytes.len() == 8 {
        be_value(bytes) as u64
    } else {
        0
    }
}

/// A worker's ledger status and blocks after applying an event's payload,
/// starting from status `cur`.
pub open spec fn apply_payload(
    cur: WorkerSyncStatus,
    m: Map<i64, Set<Seq<char>>>,
    id: Seq<char>,
    kind: KvEventKind,
) -> (WorkerSyncStatus, Map<i64, Set<Seq<char>>>) {
    match kind {
        KvEventKind::Stored(hs) => if cur == WorkerSyncStatus::Stale {
            (cur, m)
        } else if cur == WorkerSyncStatus::Syncing || cur == WorkerSyncStatus::Init {
            (WorkerSyncStatus::Ready, after_insert(m, id, hs))
        } else {
            (cur, after_insert(m, id, hs))
        },
        KvEventKind::Removed(hs) => if cur == WorkerSyncStatus::Stale {
            (cur, m)
        } else {
            (cur, after_remove(m, id, hs))
        },
        KvEventKind::Cleared => (WorkerSyncStatus::Ready, after_clear(m, id)),
    }
}

/// The sequence number went backwards: the engine restarted.
pub open spec fn is_regression(last: u64, seq: u64) -> bool {
    last > 0 && seq < last
}

/// The sequence number skipped ahead: events were lost.
pub open spec fn is_gap(last: u64, seq: u64) -> bool {
    !is_regression(last, seq) && last > 0 && seq != last && seq != last + 1
}

/// Status and blocks of a worker after one event. A regression drops the
/// worker's blocks and resynchronizes from the event; a gap drops them and
/// marks the worker stale; otherwise the payload applies.
pub open spec fn event_outcome(
    status: WorkerSyncStatus,
    last: u64,
    m: Map<i64, Set<Seq<char>>>,
    id: Seq<char>,
    seq: u64,
    kind: KvEventKind,
) -> (WorkerSyncStatus, Map<i64, Set<Seq<char>>>) {
    if is_regression(last, seq) {
        apply_payload(WorkerSyncStatus::Syncing, after_clear(m, id), id, kind)
    } else if is_gap(last, seq) {
        (WorkerSyncStatus::Stale, after_clear(m, id))
    } else {
        apply_payload(status, m, id, kind)
    }
}

/// An in-order event that stores blocks, on a worker that is not stale,
/// leaves the worker READY holding every block it held before and every
/// block of the event, and nothing else.
pub proof fn lemma_in_order_store_records_blocks(
    status: WorkerSyncStatus,
    last: u64,
    m: Map<i64, Set<Seq<char>>>,
    id: Seq<char>,
    seq: u64,
    hs: Seq<i64>,
    h: i64,
)
    requires
        last == 0 || seq == last || seq == last + 1,
        status != WorkerSyncStatus::Stale,
    ensures
        event_outcome(status, last, m, id, seq, KvEventKind::Stored(hs)).0 == WorkerSyncStatus::Ready,
        holds(event_outcome(status, last, m, id, seq, KvEventKind::Stored(hs)).1, id, h) == (holds(m, id, h)
            || hs.contains(h)),
{
}

/// An in-order removal on a worker that is not stale drops exactly the
/// event's blocks from the worker and keeps its status; an in-order clear
/// drops all of them and makes the worker READY, whatever its status.
pub proof fn lemma_in_order_remove_and_clear(
    status: WorkerSyncStatus,
    last: u64,
    m: Map<i64, Set<Seq<char>>>,
    id: Seq<char>,
    seq: u64,
    hs: Seq<i64>,
    h: i64,
)
    requires
        last == 0 || seq == last || seq == last + 1,
    ensures
        status != WorkerSyncStatus::Stale ==> event_outcome(status, last, m, id, seq, KvEventKind::Removed(hs)).0
            == status,
        status != WorkerSyncStatus::Stale ==> holds(
            event_outcome(status, last, m, id, seq, KvEventKind::Removed(hs)).1,
            id,
            h,
        ) == (holds(m, id, h) && !hs.contains(h)),
        event_outcome(status, last, m, id, seq, KvEventKind::Cleared).0 == WorkerSyncStatus::Ready,
        !holds(event_outcome(status, last, m, id, seq, KvEventKind::Cleared).1, id, h),
{
    let r = after_remove(m, id, hs);
    if holds(m, id, h) && !hs.contains(h) {
        assert(r.contains_key(h));
    }
    if r.contains_key(h) && hs.contains(h) {
        assert(!r[h].contains(id));
    }
    let c = after_clear(m, id);
    if c.contains_key(h) {
        assert(!c[h].contains(id));
    }
}

/// A forward gap in the sequence numbers marks the worker stale and drops
/// every block recorded for it, whatever the event carried.
pub proof fn lemma_gap_marks_stale(
    status: WorkerSyncStatus,
    last: u64,
    m: Map<i64, Set<Seq<char>>>,
    id: Seq<char>,
    seq: u64,
    kind: KvEventKind,
)
    requires
        is_gap(last, seq),
    ensures
        event_outcome(status, last, m, id, seq, kind).0 == WorkerSyncStatus::Stale,
        forall|h: i64| !holds(#[trigger] event_outcome(status, last, m, id, seq, kind).1, id, h),
{
    lemma_clear_forgets_worker(m, id, Seq::empty());
}

/// A stale worker's in-order incremental events neither change the ledger
/// nor its status: the gatekeeper keeps a known-incomplete ledger from
/// being polluted.
pub proof fn lemma_stale_ignores_increments(
    last: u64,
    m: Map<i64, Set<Seq<char>>>,
    id: Seq<char>,
    seq: u64,
    kind: KvEventKind,
)
    requires
        !is_regression(last, seq),
        !is_gap(last, seq),
        !(kind is Cleared),
    ensures
        event_outcome(WorkerSyncStatus::Stale, last, m, id, seq, kind) == (WorkerSyncStatus::Stale, m),
{
}

/// A stale worker comes back to READY only through a full clear, or
/// through an engine restart whose first event stores blocks.
pub proof fn lemma_stale_recovers_only_by_resync(
    last: u64,
    m: Map<i64, Set<Seq<char>>>,
    id: Seq<char>,
    seq: u64,
    kind: KvEventKind,
)
    requires
        event_outcome(WorkerSyncStatus::Stale, last, m, id, seq, kind).0 == WorkerSyncStatus::Ready,
    ensures
        kind is Cleared || (is_regression(last, seq) && kind is Stored),
{
}

/// After an engine restart, the worker holds exactly the blocks of the
/// event that revealed it (or none).
pub proof fn lemma_restart_resyncs(
    status: WorkerSyncStatus,
    last: u64,
    m: Map<i64, Set<Seq<char>>>,
    id: Seq<char>,
    seq: u64,
    kind: KvEventKind,
    h: i64,
)
    requires
        is_regression(last, seq),
    ensures
        holds(event_outcome(status, last, m, id, seq, kind).1, id, h) == (match kind {
            KvEventKind::Stored(hs) => hs.contains(h),
            _ => false,
        }),
{
    let c = after_clear(m, id);
    assert(!holds(c, id, h));
    match kind {
        KvEventKind::Removed(hs) => {
            if holds(after_remove(c, id, hs), id, h) {
                assert(c[h].contains(id));
            }
        },
        _ => {},
    }
}

/// An event of one worker leaves every other worker's blocks as they were.
pub proof fn lemma_events_isolate_workers(
    status: WorkerSyncStatus,
    last: u64,
    m: Map<i64, Set<Seq<char>>>,
    id: Seq<char>,
    other: Seq<char>,
    seq: u64,
    kind: KvEventKind,
    h: i64,
)
    requires
        id != other,
    ensures
        holds(event_outcome(status, last, m, id, seq, kind).1, other, h) == holds(m, other, h),
{
    let c = after_clear(m, id);
    lemma_updates_isolate_workers(m, id, other, Seq::empty(), h);
    match kind {
        KvEventKind::Stored(hs) => {
            lemma_updates_isolate_workers(m, id, other, hs, h);
            lemma_updates_isolate_workers(c, id, other, hs, h);
        },
        KvEventKind::Removed(hs) => {
            lemma_updates_isolate_workers(m, id, other, hs, h);
            lemma_updates_isolate_workers(c, id, other, hs, h);
        },
        KvEventKind::Cleared => {
            lemma_updates_isolate_workers(c, id, other, Seq::empty(), h);
        },
    }
}

/// The event a JSON-encoded message stands for: the frame's sequence
/// number wins when it is positive; the type selects the payload, and an
/// unknown type reads as a clear.
pub open spec fn json_event(frame_seq: u64, json_seq: u64, event_type: Seq<char>, page_hashes: Seq<i64>) -> (
    u64,
    KvEventKind,
) {
    (
        if frame_seq > 0 {
            frame_seq
        } else {
            json_seq
        },
        if event_type == "block_stored"@ || event_type == "BlockStored"@ {
            KvEventKind::Stored(page_hashes)
        } else if event_type == "block_removed"@ || event_type == "BlockRemoved"@ {
            KvEventKind::Removed(page_hashes)
        } else {
            KvEventKind::Cleared
        },
    )
}

/// A JSON number read as an unsigned 64-bit integer.
pub open spec fn json_as_u64(v: JsonValue) -> Option<u64> {
    match v {
        JsonValue::Number(n) => n.as_u64,
        _ => None,
    }
}

/// A JSON number read as a signed 64-bit integer.
pub open spec fn json_as_i64(v: JsonValue) -> Option<i64> {
    match v {
        JsonValue::Number(n) => n.as_i64,
        _ => None,
    }
}

/// A JSON array's items read as signed 64-bit integers, if all are.
pub open spec fn json_i64_list(items: Seq<JsonValue>) -> Option<Seq<i64>>
    decreases items.len(),
{
    if items.len() == 0 {
        Some(Seq::empty())
    } else {
        match (json_i64_list(items.drop_last()), json_as_i64(items.last())) {
            (Some(p), Some(x)) => Some(p.push(x)),
            _ => None,
        }
    }
}

/// A JSON array of signed 64-bit integers.
pub open spec fn json_hashes(v: JsonValue) -> Option<Seq<i64>> {
    match v {
        JsonValue::Array(a) => json_i64_list(a@),
        _ => None,
    }
}

/// A JSON string.
pub open spec fn json_text(v: JsonValue) -> Option<Seq<char>> {
    match v {
        JsonValue::Str(s) => Some(s@),
        _ => None,
    }
}

/// Sequence number, type and page hashes of a JSON event, read as a typed
/// record: an object with a string `type`, and optionally an unsigned
/// `seq` (else 0) and an integer array `page_hashes` (else empty), other
/// members ignored; or an array `[seq, type]` or `[seq, type, page_hashes]`.
/// `None` when a field is missing or of the wrong kind.
pub open spec fn json_event_fields(v: JsonValue) -> Option<(u64, Seq<char>, Seq<i64>)> {
    match v {
        JsonValue::Object(es) => {
            let seq = match obj_get(es@, "seq"@) {
                Some(x) => json_as_u64(x),
                None => Some(0u64),
            };
            let ty = match obj_get(es@, "type"@) {
                Some(x) => json_text(x),
                None => None,
            };
            let hs = match obj_get(es@, "page_hashes"@) {
                Some(x) => json_hashes(x),
                None => Some(Seq::<i64>::empty()),
            };
            if seq is Some && ty is Some && hs is Some {
                Some((seq->0, ty->0, hs->0))
            } else {
                None
            }
        },
        JsonValue::Array(a) => if a@.len() == 2 || a@.len() == 3 {
            let seq = json_as_u64(a@[0]);
            let ty = json_text(a@[1]);
            let hs = if a@.len() == 3 {
                json_hashes(a@[2])
            } else {
                Some(Seq::<i64>::empty())
            };
            if seq is Some && ty is Some && hs is Some {
                Some((seq->0, ty->0, hs->0))
            } else {
                None
            }
        } else {
            None
        },
        _ => None,
    }
}

fn json_u64_of(v: &JsonValue) -> (r: Option<u64>)
    ensures
        r == json_as_u64(*v),
{
    match v {
        JsonValue::Number(n) => n.as_u64,
        _ => None,
    }
}

fn json_text_of(v: &JsonValue) -> (r: Option<String>)
    ensures
        match r {
            Some(s) => json_text(*v) == Some(s@),
            None => json_text(*v) is None,
        },
{
    match v {
        JsonValue::Str(s) => Some(s.clone()),
        _ => None,
    }
}

fn json_hashes_of(v: &JsonValue) -> (r: Option<Vec<i64>>)
    ensures
        match r {
            Some(h) => json_hashes(*v) == Some(h@),
            None => json_hashes(*v) is None,
        },
{
    match v {
        JsonValue::Array(items) => {
            let mut out: Vec<i64> = Vec::new();
            let mut i: usize = 0;
            while i < items.len()
                invariant
                    i <= items@.len(),
                    json_hashes(*v) == json_i64_list(items@),
                    json_i64_list(items@.take(i as int)) == Some(out@),
                decreases items@.len() - i,
            {
                proof {
                    assert(items@.take(i + 1).drop_last() =~= items@.take(i as int));
                    assert(items@.take(i + 1).last() == items@[i as int]);
                }
                let x = match &items[i] {
                    JsonValue::Number(n) => n.as_i64,
                    _ => None,
                };
                match x {
                    Some(h) => {
                        out.push(h);
                    },
                    None => {
                        proof {
                            assert(json_as_i64(items@[i as int]) is None);
                            assert(json_i64_list(items@.take(i + 1)) is None);
                            lemma_json_i64_list_prefix_none(items@, i + 1);
                            assert(json_hashes(*v) is None);
                        }
                        return None;
                    },
                }
                i += 1;
            }
            assert(items@.take(i as int) =~= items@);
            Some(out)
        },
        _ => None,
    }
}

proof fn lemma_json_i64_list_prefix_none(items: Seq<JsonValue>, k: int)
    requires
        0 <= k <= items.len(),
        json_i64_list(items.take(k)) is None,
    ensures
        json_i64_list(items) is None,
    decreases items.len() - k,
{
    if k < items.len() {
        assert(items.take(k + 1).drop_last() =~= items.take(k));
        lemma_json_i64_list_prefix_none(items, k + 1);
    } else {
        assert(items.take(k) =~= items);
    }
}

fn json_event_of(v: &JsonValue) -> (r: Option<(u64, String, Vec<i64>)>)
    ensures
        match r {
            Some(x) => json_event_fields(*v) == Some((x.0, x.1@, x.2@)),
            None => json_event_fields(*v) is None,
        },
{
    match v {
        JsonValue::Object(es) => {
            let seq = match find_key(es, "seq") {
                Some(i) => {
                    proof { lemma_key_index_range(es@, "seq"@, 0); }
                    json_u64_of(&es[i].1)
                },
                None => Some(0),
            };
            let ty = match find_key(es, "type") {
                Some(i) => {
                    proof { lemma_key_index_range(es@, "type"@, 0); }
                    json_text_of(&es[i].1)
                },
                None => None,
            };
            let hs = match find_key(es, "page_hashes") {
                Some(i) => {
                    proof { lemma_key_index_range(es@, "page_hashes"@, 0); }
                    json_hashes_of(&es[i].1)
                },
                None => Some(Vec::new()),
            };
            match (seq, ty, hs) {
                (Some(s), Some(t), Some(h)) => Some((s, t, h)),
                _ => None,
            }
        },
        JsonValue::Array(a) => {
            if a.len() == 2 || a.len() == 3 {
                let seq = json_u64_of(&a[0]);
                let ty = json_text_of(&a[1]);
                let hs = if a.len() == 3 {
                    json_hashes_of(&a[2])
                } else {
                    Some(Vec::new())
                };
                match (seq, ty, hs) {
                    (Some(s), Some(t), Some(h)) => Some((s, t, h)),
                    _ => None,
                }
            } else {
                None
            }
        },
        _ => None,
    }
}

/// Applies KV events to the ledger.
pub struct KvEventProcessor {
    tree: RadixHashTree,
}

impl KvEventProcessor {
    /// The ledger inside is well formed.
    pub closed spec fn wf(&self) -> bool {
        self.tree.wf()
    }

    /// The ledger's holdings.
    pub closed spec fn ledger(&self) -> Map<i64, Set<Seq<char>>> {
        self.tree@
    }

    pub fn new(tree: RadixHashTree) -> (r: Self)
        requires
            tree.wf(),
        ensures
            r.wf(),
            r.ledger() == tree@,
    {
        KvEventProcessor { tree }
    }

    /// The ledger, for lookups.
    pub fn tree(&self) -> (r: &RadixHashTree)
        requires
            self.wf(),
        ensures
            r.wf(),
            r@ == self.ledger(),
    {
        &self.tree
    }

    /// Number of blocks held by at least one worker.
    pub fn total_cached_blocks(&self) -> (r: usize)
        requires
            self.wf(),
        ensures
            r == self.ledger().len(),
    {
        self.tree.total_cached_blocks()
    }

    /// Records that a worker holds a chain (a write-through after a served
    /// request).
    pub fn insert_chain(&mut self, worker_id: &str, page_hashes: &[i64])
        requires
            old(self).wf(),
        ensures
            final(self).wf(),
            final(self).ledger() == after_insert(old(self).ledger(), worker_id@, page_hashes@),
    {
        self.tree.insert_chain(worker_id, page_hashes);
    }

    fn clear(&mut self, worker_id: &str)
        requires
            old(self).wf(),
        ensures
            final(self).wf(),
            final(self).ledger() == after_clear(old(self).ledger(), worker_id@),
    {
        self.tree.clear_worker(worker_id);
    }

    fn remove(&mut self, worker_id: &str, page_hashes: &[i64])
        requires
            old(self).wf(),
        ensures
            final(self).wf(),
            final(self).ledger() == after_remove(old(self).ledger(), worker_id@, page_hashes@),
    {
        self.tree.remove_chain(worker_id, page_hashes);
    }

    /// The block events of a MessagePack batch
    /// `[timestamp, [[name, hashes, ...], ...], rank]`, under the sequence
    /// number of frame `seq_bytes` (eight big-endian bytes). Records that are
    /// not block events are skipped.
    fn parse_msgpack_batch(seq_bytes: &[u8], payload_bytes: &[u8]) -> (r: Vec<KvEventMessage>)
        ensures
            r@.map_values(|e: KvEventMessage| e@) == batch_events(
                seq_frame(seq_bytes@),
                msgpack_decode(payload_bytes@),
            ),
    {
        let seq: u64 = if seq_bytes.len() == 8 {
            be_u64(seq_bytes)
        } else {
            0
        };
        let mut results: Vec<KvEventMessage> = Vec::new();
        let decoded = decode_msgpack(payload_bytes);
        if let Some(MsgValue::Array(batch)) = &decoded {
            if batch.len() >= 2 {
                if let MsgValue::Array(evs) = &batch[1] {
                    let mut i: usize = 0;
                    while i < evs.len()
                        invariant
                            i <= evs@.len(),
                            results@.map_values(|e: KvEventMessage| e@) == event_records(
                                seq,
                                evs@.take(i as int),
                            ),
                        decreases evs@.len() - i,
                    {
                        let ghost before = results@;
                        let rec = event_from_record(seq, &evs[i]);
                        if let Some(ev) = rec {
                            results.push(ev);
                        }
                        proof {
                            assert(evs@.take(i + 1).drop_last() =~= evs@.take(i as int));
                            assert(evs@.take(i + 1).last() == evs@[i as int]);
                            assert(results@.map_values(|e: KvEventMessage| e@) =~= event_records(
                                seq,
                                evs@.take(i + 1),
                            ));
                        }
                        i += 1;
                    }
                    proof {
                        assert(evs@.take(i as int) =~= evs@);
                    }
                }
            }
        }
        proof {
            assert(results@.map_values(|e: KvEventMessage| e@) =~= batch_events(
                seq,
                msgpack_decode(payload_bytes@),
            ));
        }
        results
    }

    /// The event a JSON-encoded message stands for: see [`json_event`].
    pub fn event_from_json(frame_seq: u64, json_seq: u64, event_type: &str, page_hashes: Vec<i64>) -> (r:
        KvEventMessage)
        ensures
            r@ == json_event(frame_seq, json_seq, event_type@, page_hashes@),
    {
        let seq = if frame_seq > 0 {
            frame_seq
        } else {
            json_seq
        };
        let payload = if same_text(event_type, "block_stored") || same_text(event_type, "BlockStored") {
            KvEventPayload::BlockStored { page_hashes }
        } else if same_text(event_type, "block_removed") || same_text(event_type, "BlockRemoved") {
            KvEventPayload::BlockRemoved { page_hashes }
        } else {
            KvEventPayload::AllBlocksCleared
        };
        KvEventMessage { seq, payload }
    }

    /// Which frames of an engine message carry the sequence number and the
    /// payload: `[topic, seq, payload, ..]` for three frames or more,
    /// `[topic, payload]` for two, a lone payload for one; nothing to decode
    /// in an empty message.
    pub fn message_frames(frame_count: usize) -> (r: Option<(Option<usize>, usize)>)
        ensures
            r == (if frame_count >= 3 {
                Some((Some(1usize), 2usize))
            } else if frame_count == 2 {
                Some((None::<usize>, 1usize))
            } else if frame_count == 1 {
                Some((None::<usize>, 0usize))
            } else {
                None::<(Option<usize>, usize)>
            }),
    {
        if frame_count >= 3 {
            Some((Some(1), 2))
        } else if frame_count == 2 {
            Some((None, 1))
        } else if frame_count == 1 {
            Some((None, 0))
        } else {
            None
        }
    }

    /// Decodes one engine message: frame `seq_bytes` carries the sequence
    /// number (eight big-endian bytes), `payload_bytes` a MessagePack batch
    /// (see [`batch_events`]). When that yields no event, the payload is read
    /// as one JSON event (see [`json_event_fields`] and [`json_event`]).
    pub fn parse_sglang_multipart(seq_bytes: &[u8], payload_bytes: &[u8]) -> (r: Vec<KvEventMessage>)
        ensures
            ({
                let msgs = batch_events(seq_frame(seq_bytes@), msgpack_decode(payload_bytes@));
                if msgs.len() > 0 {
                    r@.map_values(|e: KvEventMessage| e@) == msgs
                } else {
                    match json_decode(payload_bytes@) {
                        Some(v) => match json_event_fields(v) {
                            Some((js, ty, hs)) => r@.map_values(|e: KvEventMessage| e@) == seq![
                                json_event(seq_frame(seq_bytes@), js, ty, hs),
                            ],
                            None => r@.len() == 0,
                        },
                        None => r@.len() == 0,
                    }
                }
            }),
            ({
                let recs = match msgpack_decode(payload_bytes@) {
                    Some(MsgValue::Array(batch)) => if batch@.len() >= 2 {
                        match batch@[1] {
                            MsgValue::Array(evs) => evs@.filter(|ev: MsgValue| is_block_record(ev)),
                            _ => Seq::empty(),
                        }
                    } else {
                        Seq::empty()
                    },
                    _ => Seq::empty(),
                };
                recs.len() > 0 ==> r@.map_values(|e: KvEventMessage| e@) == recs.map_values(
                    |ev: MsgValue| (seq_frame(seq_bytes@), event_record(ev)->0),
                )
            }),
    {
        proof {
            match msgpack_decode(payload_bytes@) {
                Some(MsgValue::Array(batch)) => if batch@.len() >= 2 {
                    match batch@[1] {
                        MsgValue::Array(evs) => lemma_event_records_are_recognised(seq_frame(seq_bytes@), evs@),
                        _ => {},
                    }
                },
                _ => {},
            }
        }
        let events = Self::parse_msgpack_batch(seq_bytes, payload_bytes);
        if events.len() > 0 {
            return events;
        }
        let fields = match json_parse(payload_bytes) {
            Some(v) => json_event_of(&v),
            None => None,
        };
        match fields {
            Some((js, ty, hs)) => {
                let frame_seq: u64 = if seq_bytes.len() == 8 {
                    be_u64(seq_bytes)
                } else {
                    0
                };
                let ev = Self::event_from_json(frame_seq, js, ty.as_str(), hs);
                let mut out: Vec<KvEventMessage> = Vec::new();
                out.push(ev);
                assert(out@.map_values(|e: KvEventMessage| e@) =~= seq![
                    json_event(seq_frame(seq_bytes@), js, ty@, hs@),
                ]);
                out
            },
            None => events,
        }
    }

    /// Applies one event of `worker`: checks the sequence number against the
    /// last one seen, then lets the payload through the synchronization
    /// gatekeeper.
    pub fn process_event(&mut self, worker: &mut WorkerRuntimeState, event: KvEventMessage)
        requires
            old(self).wf(),
        ensures
            final(self).wf(),
            ({
                let (status, m) = event_outcome(
                    old(worker).status,
                    old(worker).last_seq,
                    old(self).ledger(),
                    old(worker).config.id@,
                    event.seq,
                    event.payload@,
                );
                &&& final(worker).status == status
                &&& final(self).ledger() == m
            }),
            final(worker).last_seq == event.seq,
            is_gap(old(worker).last_seq, event.seq) ==> final(worker).last_heartbeat_ms == old(
                worker,
            ).last_heartbeat_ms,
            final(worker).config == old(worker).config,
            final(worker).active_requests == old(worker).active_requests,
            (old(worker).last_seq == 0 || event.seq == old(worker).last_seq || event.seq == old(worker).last_seq
                + 1) ==> match event.payload@ {
                KvEventKind::Stored(hs) => old(worker).status != WorkerSyncStatus::Stale ==> final(worker).status
                    == WorkerSyncStatus::Ready && forall|h: i64|
                    #[trigger] holds(final(self).ledger(), old(worker).config.id@, h) == (holds(
                        old(self).ledger(),
                        old(worker).config.id@,
                        h,
                    ) || hs.contains(h)),
                KvEventKind::Removed(hs) => old(worker).status != WorkerSyncStatus::Stale ==> final(worker).status
                    == old(worker).status && forall|h: i64|
                    #[trigger] holds(final(self).ledger(), old(worker).config.id@, h) == (holds(
                        old(self).ledger(),
                        old(worker).config.id@,
                        h,
                    ) && !hs.contains(h)),
                KvEventKind::Cleared => final(worker).status == WorkerSyncStatus::Ready && forall|h: i64|
                    !#[trigger] holds(final(self).ledger(), old(worker).config.id@, h),
            },
    {
        proof {
            let st = old(worker).status;
            let ls = old(worker).last_seq;
            let m0 = old(self).ledger();
            let wid = old(worker).config.id@;
            if ls == 0 || event.seq == ls || event.seq == ls + 1 {
                match event.payload@ {
                    KvEventKind::Stored(hs) => {
                        assert forall|h: i64| #[trigger]
                            holds(event_outcome(st, ls, m0, wid, event.seq, event.payload@).1, wid, h) == (holds(
                                m0,
                                wid,
                                h,
                            ) || hs.contains(h)) || st == WorkerSyncStatus::Stale by {
                            if st != WorkerSyncStatus::Stale {
                                lemma_in_order_store_records_blocks(st, ls, m0, wid, event.seq, hs, h);
                            }
                        }
                        if st != WorkerSyncStatus::Stale {
                            lemma_in_order_store_records_blocks(st, ls, m0, wid, event.seq, hs, 0);
                        }
                    },
                    KvEventKind::Removed(hs) => {
                        assert forall|h: i64| #[trigger]
                            holds(event_outcome(st, ls, m0, wid, event.seq, event.payload@).1, wid, h) == (holds(
                                m0,
                                wid,
                                h,
                            ) && !hs.contains(h)) || st == WorkerSyncStatus::Stale by {
                            lemma_in_order_remove_and_clear(st, ls, m0, wid, event.seq, hs, h);
                        }
                    },
                    KvEventKind::Cleared => {
                        assert forall|h: i64|
                            !#[trigger] holds(event_outcome(st, ls, m0, wid, event.seq, event.payload@).1, wid, h) by {
                            lemma_in_order_remove_and_clear(st, ls, m0, wid, event.seq, Seq::empty(), h);
                        }
                    },
                }
            }
        }
        let last = worker.last_seq;
        let mut current = worker.status;
        if last > 0 && event.seq < last {
            // The engine restarted: its cache starts from scratch.
            self.clear(worker.config.id.as_str());
            worker.last_seq = event.seq;
            worker.set_status(WorkerSyncStatus::Syncing);
            current = WorkerSyncStatus::Syncing;
        } else if last > 0 && event.seq != last && (last == u64::MAX || event.seq != last + 1) {
            // Events were lost: the ledger is incomplete until a resync.
            worker.set_status(WorkerSyncStatus::Stale);
            self.clear(worker.config.id.as_str());
            worker.last_seq = event.seq;
            return;
        }
        worker.last_seq = event.seq;
        worker.update_heartbeat();
        match event.payload {
            KvEventPayload::BlockStored { page_hashes } => {
                if current == WorkerSyncStatus::Stale {
                    return;
                }
                self.insert_chain(worker.config.id.as_str(), page_hashes.as_slice());
                if current == WorkerSyncStatus::Syncing || current == WorkerSyncStatus::Init {
                    worker.set_status(WorkerSyncStatus::Ready);
                }
            },
            KvEventPayload::BlockRemoved { page_hashes } => {
                if current == WorkerSyncStatus::Stale {
                    return;
                }
                self.remove(worker.config.id.as_str(), page_hashes.as_slice());
            },
            KvEventPayload::AllBlocksCleared => {
                self.clear(worker.config.id.as_str());
                worker.set_status(WorkerSyncStatus::Ready);
            },
        }
    }
}

/// The hashes of a MessagePack array.
fn hashes_from_items(items: &Vec<MsgValue>) -> (r: Vec<i64>)
    ensures
        r@ == hash_items(items@),
{
    let mut out: Vec<i64> = Vec::new();
    let mut i: usize = 0;
    while i < items.len()
        invariant
            i <= items@.len(),
            out@ == hash_items(items@.take(i as int)),
        decreases items@.len() - i,
    {
        let h: Option<i64> = match &items[i] {
            MsgValue::Integer { as_i64, as_u64 } => match as_i64 {
                Some(x) => Some(*x),
                None => match as_u64 {
                    Some(u) => Some(*u as i64),
                    None => None,
                },
            },
            _ => None,
        };
        if let Some(x) = h {
            out.push(x);
        }
        proof {
            assert(items@.take(i + 1).drop_last() =~= items@.take(i as int));
            assert(items@.take(i + 1).last() == items@[i as int]);
        }
        i += 1;
    }
    proof {
        assert(items@.take(i as int) =~= items@);
    }
    out
}

/// The event an engine record stands for.
fn event_from_record(seq: u64, ev: &MsgValue) -> (r: Option<KvEventMessage>)
    ensures
        match r {
            Some(m) => event_record(*ev) == Some(m.payload@) && m.seq == seq,
            None => event_record(*ev) is None,
        },
{
    if let MsgValue::Array(fields) = ev {
        let name: &str = if fields.len() > 0 {
            match &fields[0] {
                MsgValue::Text(Some(t)) => t.as_str(),
                _ => "",
            }
        } else {
            ""
        };
        proof {
            reveal_strlit("");
            assert(name@ == event_name(fields@));
        }
        let hashes: Option<Vec<i64>> = if fields.len() > 1 {
            match &fields[1] {
                MsgValue::Array(items) => Some(hashes_from_items(items)),
                _ => None,
            }
        } else {
            None
        };
        if same_text(name, "BlockStored") {
            match hashes {
                Some(page_hashes) => Some(
                    KvEventMessage { seq, payload: KvEventPayload::BlockStored { page_hashes } },
                ),
                None => None,
            }
        } else if same_text(name, "BlockRemoved") {
            match hashes {
                Some(page_hashes) => Some(
                    KvEventMessage { seq, payload: KvEventPayload::BlockRemoved { page_hashes } },
                ),
                None => None,
            }
        } else if same_text(name, "AllBlocksCleared") {
            Some(KvEventMessage { seq, payload: KvEventPayload::AllBlocksCleared })
        } else {
            None
        }
    } else {
        None
    }
}

} // verus!
