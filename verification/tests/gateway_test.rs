use cortex::config::{EngineType, WorkerConfig, WorkerRole};
use cortex::gateway::{
    annotate_response_body, apply_session_affinity, begin_request, cluster_totals, distinct_models, finish_request,
    hit_tokens, inject_cortex_telemetry, record_prefill, register_worker, rewrite_sse_data_line, split_sse_lines,
    sse_data_payload, upstream_chat_url, RequestOutcome,
};
use cortex::json::{JsonNumber, JsonValue};
use cortex::hasher::tokenizer::chat_template_from_config;
use cortex::ledger::{RadixHashTree, WorkerRuntimeState, WorkerSyncStatus};
use cortex::scheduler::{RoutingMode, SchedulingDecision};
use cortex::session_ledger::SessionLedger;
use cortex::zmq::{KvEventPayload, KvEventProcessor};

fn worker(id: &str, model: &str) -> WorkerRuntimeState {
    WorkerRuntimeState::new(WorkerConfig {
        id: id.to_string(),
        model: model.to_string(),
        engine: EngineType::Sglang,
        http_endpoint: format!("http://{id}"),
        zmq_endpoint: None,
        tokenizer_path: None,
        role: WorkerRole::Standard,
        page_size: 16,
        weight: 100,
    })
}

fn decision(id: &str, mode: RoutingMode) -> SchedulingDecision {
    SchedulingDecision {
        worker_id: id.to_string(),
        http_endpoint: format!("http://{id}"),
        matched_pages: 0,
        mode,
        anchor_aligned: false,
    }
}

#[test]
fn session_affinity_overrides_fallback_and_records_assignment() {
    let mut sessions = SessionLedger::new();
    let workers = vec![worker("a", "m"), worker("b", "m")];
    sessions.record_assignment("s", 1, "b");
    let d = apply_session_affinity(&mut sessions, &workers, decision("a", RoutingMode::FallbackP2c), Some(("s", 1)), "m", 64);
    assert_eq!(d.worker_id, "b");
    assert_eq!(d.http_endpoint, "http://b");
    assert_eq!(d.mode, RoutingMode::SessionAffinity);
    assert_eq!(sessions.sticky_worker("s", 1).as_deref(), Some("b"));
}

#[test]
fn session_affinity_keeps_exact_matches_and_full_workers() {
    let mut sessions = SessionLedger::new();
    let mut workers = vec![worker("a", "m"), worker("b", "m")];
    sessions.record_assignment("s", 1, "b");
    let exact = SchedulingDecision { matched_pages: 2, ..decision("a", RoutingMode::ExactKvEvents) };
    let d = apply_session_affinity(&mut sessions, &workers, exact, Some(("s", 1)), "m", 64);
    assert_eq!(d.worker_id, "a");
    assert_eq!(d.mode, RoutingMode::ExactKvEvents);
    assert_eq!(sessions.sticky_worker("s", 1).as_deref(), Some("a"));

    sessions.record_assignment("s", 1, "b");
    workers[1].inc_active_requests();
    let d2 = apply_session_affinity(&mut sessions, &workers, decision("a", RoutingMode::LoadAware), Some(("s", 1)), "m", 1);
    assert_eq!(d2.worker_id, "a");
    assert_eq!(d2.mode, RoutingMode::LoadAware);

    // Another epoch: no affinity.
    let d3 = apply_session_affinity(&mut sessions, &workers, decision("a", RoutingMode::FallbackRoundRobin), Some(("s", 2)), "m", 64);
    assert_eq!(d3.worker_id, "a");
    // No session: nothing recorded.
    let d4 = apply_session_affinity(&mut sessions, &workers, decision("a", RoutingMode::FallbackP2c), None, "m", 64);
    assert_eq!(d4.worker_id, "a");
    assert_eq!(sessions.total_sessions(), 1);
}

#[test]
fn prefill_write_through_records_chain_and_readies_worker() {
    let mut processor = KvEventProcessor::new(RadixHashTree::new());
    let mut w = worker("a", "m");
    record_prefill(&mut processor, &mut w, &[1, 2, 3], false);
    assert_eq!(processor.total_cached_blocks(), 0);
    assert_eq!(w.status, WorkerSyncStatus::Init);
    record_prefill(&mut processor, &mut w, &[], true);
    assert_eq!(w.status, WorkerSyncStatus::Init);
    record_prefill(&mut processor, &mut w, &[1, 2, 3], true);
    assert_eq!(processor.total_cached_blocks(), 3);
    assert_eq!(w.status, WorkerSyncStatus::Ready);
    let mut stale = worker("b", "m");
    stale.set_status(WorkerSyncStatus::Stale);
    record_prefill(&mut processor, &mut stale, &[4], true);
    assert_eq!(stale.status, WorkerSyncStatus::Stale);
    assert_eq!(processor.total_cached_blocks(), 4);
}

#[test]
fn models_listed_once_in_order() {
    let workers = vec![worker("a", "m1"), worker("b", "m2"), worker("c", "m1")];
    assert_eq!(distinct_models(&workers), vec!["m1".to_string(), "m2".to_string()]);
    assert!(distinct_models(&[]).is_empty());
}

#[test]
fn cluster_totals_count_ready_and_active() {
    let mut workers = vec![worker("a", "m"), worker("b", "m"), worker("c", "m")];
    workers[0].set_status(WorkerSyncStatus::Ready);
    workers[2].set_status(WorkerSyncStatus::Ready);
    workers[1].inc_active_requests();
    workers[1].inc_active_requests();
    workers[2].inc_active_requests();
    let t = cluster_totals(&workers);
    assert_eq!(t.total_workers, 3);
    assert_eq!(t.ready_workers, 2);
    assert_eq!(t.total_active_requests, 3);
    assert_eq!(workers[1].status_name(), "init");
    assert_eq!(workers[0].status_name(), "ready");
}

#[test]
fn upstream_url_trims_trailing_slashes() {
    assert_eq!(upstream_chat_url("http://h:1//"), "http://h:1/v1/chat/completions");
    assert_eq!(upstream_chat_url("http://h:1"), "http://h:1/v1/chat/completions");
    assert_eq!(upstream_chat_url(""), "/v1/chat/completions");
}

#[test]
fn sse_payload_extraction() {
    assert_eq!(sse_data_payload("data: {\"a\":1}"), Some("{\"a\":1}"));
    assert_eq!(sse_data_payload("data: [DONE]"), None);
    assert_eq!(sse_data_payload("event: x"), None);
    assert_eq!(sse_data_payload("data:"), None);
    assert_eq!(sse_data_payload("data: "), Some(""));
}

#[test]
fn sse_lines_split_and_keep_rest() {
    let mut buf = b"data: a\r\n\ndata: b\npartial".to_vec();
    let lines = split_sse_lines(&mut buf);
    assert_eq!(lines, vec![b"data: a".to_vec(), b"".to_vec(), b"data: b".to_vec()]);
    assert_eq!(buf, b"partial".to_vec());
    let mut none = b"no newline".to_vec();
    assert!(split_sse_lines(&mut none).is_empty());
    assert_eq!(none, b"no newline".to_vec());
}

#[test]
fn zmq_frames_and_json_fallback() {
    assert_eq!(KvEventProcessor::message_frames(4), Some((Some(1), 2)));
    assert_eq!(KvEventProcessor::message_frames(2), Some((None, 1)));
    assert_eq!(KvEventProcessor::message_frames(1), Some((None, 0)));
    assert_eq!(KvEventProcessor::message_frames(0), None);

    let seq = 5u64.to_be_bytes();
    let json = br#"{"seq": 3, "type": "block_stored", "page_hashes": [7]}"#;
    let evs = KvEventProcessor::parse_sglang_multipart(&seq, json);
    assert_eq!(evs.len(), 1);
    assert_eq!(evs[0].seq, 5);
    assert!(matches!(&evs[0].payload, KvEventPayload::BlockStored { page_hashes } if page_hashes == &vec![7]));
    assert!(KvEventProcessor::parse_sglang_multipart(&[], b"junk").is_empty());

    let msgpack = hex::decode("93cb40fe240c7ae147ae9197ab426c6f636b53746f726564927bcd01c8c09301020310c0c000").unwrap();
    let evs2 = KvEventProcessor::parse_sglang_multipart(&seq, &msgpack);
    assert_eq!(evs2.len(), 1);
    assert!(matches!(&evs2[0].payload, KvEventPayload::BlockStored { .. }));
}

#[test]
fn json_events_read_as_typed_records() {
    // No sequence frame: the JSON seq is used; missing hashes default to empty.
    let evs = KvEventProcessor::parse_sglang_multipart(&[], br#"{"type":"BlockRemoved","seq":9,"extra":1}"#);
    assert_eq!(evs.len(), 1);
    assert_eq!(evs[0].seq, 9);
    assert!(matches!(&evs[0].payload, KvEventPayload::BlockRemoved { page_hashes } if page_hashes.is_empty()));
    // Unknown types read as a clear; seq defaults to 0.
    let evs = KvEventProcessor::parse_sglang_multipart(&[], br#"{"type":"other"}"#);
    assert_eq!(evs[0].seq, 0);
    assert!(matches!(evs[0].payload, KvEventPayload::AllBlocksCleared));
    // Array form.
    let evs = KvEventProcessor::parse_sglang_multipart(&[], br#"[4, "block_stored", [1, -2]]"#);
    assert_eq!(evs[0].seq, 4);
    assert!(matches!(&evs[0].payload, KvEventPayload::BlockStored { page_hashes } if page_hashes == &vec![1, -2]));
    // Wrong kinds or a missing type: no event.
    assert!(KvEventProcessor::parse_sglang_multipart(&[], br#"{"seq":1}"#).is_empty());
    assert!(KvEventProcessor::parse_sglang_multipart(&[], br#"{"type":"block_stored","seq":-1}"#).is_empty());
    assert!(KvEventProcessor::parse_sglang_multipart(&[], br#"{"type":"block_stored","page_hashes":[1.5]}"#).is_empty());
    assert!(KvEventProcessor::parse_sglang_multipart(&[], br#"[1]"#).is_empty());
}

#[test]
fn telemetry_is_injected_into_objects_and_usage() {
    let body = br#"{"id":"x","usage":{"prompt_tokens":3}}"#;
    let out = annotate_response_body(body, "w1", "exact_kv_events", 32, true).unwrap();
    let v: serde_json::Value = serde_json::from_str(&out).unwrap();
    assert_eq!(v["id"], "x");
    assert_eq!(v["cortex"]["assigned_worker"], "w1");
    assert_eq!(v["cortex"]["match_mode"], "exact_kv_events");
    assert_eq!(v["cortex"]["cache_hit_tokens"], 32);
    assert_eq!(v["cortex"]["anchor_aligned"], true);
    assert_eq!(v["usage"]["prompt_tokens"], 3);
    assert_eq!(v["usage"]["gateway_cache_hit_tokens"], 32);
    assert_eq!(v["usage"]["cache_hit_tokens"], 32);
    assert_eq!(v["usage"]["gateway_anchor_aligned"], true);
    assert!(annotate_response_body(b"[1,2]", "w1", "m", 0, false).is_none());
    assert!(annotate_response_body(b"not json", "w1", "m", 0, false).is_none());
    let plain = annotate_response_body(br#"{"a":1.5}"#, "w", "m", 0, false).unwrap();
    let pv: serde_json::Value = serde_json::from_str(&plain).unwrap();
    assert_eq!(pv["a"], 1.5);
    assert!(pv.get("usage").is_none());
}

#[test]
fn sse_lines_with_usage_are_rewritten() {
    let line = r#"data: {"usage":{"total_tokens":5}}"#;
    let out = rewrite_sse_data_line(line, "w", "load_aware", 0, false);
    let v: serde_json::Value = serde_json::from_str(out.strip_prefix("data: ").unwrap()).unwrap();
    assert_eq!(v["cortex"]["match_mode"], "load_aware");
    assert_eq!(v["usage"]["gateway_cache_hit_tokens"], 0);
    assert_eq!(v["usage"]["total_tokens"], 5);
    assert_eq!(rewrite_sse_data_line("data: [DONE]", "w", "m", 0, false), "data: [DONE]");
    assert_eq!(rewrite_sse_data_line(r#"data: {"x":1}"#, "w", "m", 0, false), r#"data: {"x":1}"#);
    assert_eq!(rewrite_sse_data_line("data: {oops", "w", "m", 0, false), "data: {oops");
    assert_eq!(rewrite_sse_data_line(": ping", "w", "m", 0, false), ": ping");
}

#[test]
fn chat_template_from_tokenizer_config() {
    let raw = r#"{"chat_template": "{{ messages }}", "bos_token": "<s>"}"#;
    assert_eq!(chat_template_from_config(raw, None).as_deref(), Some("{{ messages }}"));
    assert_eq!(chat_template_from_config(raw, Some("mine".into())).as_deref(), Some("mine"));
    assert_eq!(chat_template_from_config("", None), None);
    assert_eq!(chat_template_from_config(r#"{"chat_template": 3}"#, None), None);
}

#[test]
fn request_lifecycle_statuses_and_slots() {
    let mut workers = vec![worker("a", "m"), worker("b", "m")];
    assert_eq!(begin_request(&mut workers, None).unwrap_err(), 503);
    assert_eq!(begin_request(&mut workers, Some(decision("zzz", RoutingMode::LoadAware))).unwrap_err(), 500);
    let d = begin_request(&mut workers, Some(decision("b", RoutingMode::LoadAware))).unwrap();
    assert_eq!(d.worker_id, "b");
    assert_eq!(workers[1].active_requests, 1);
    assert_eq!(workers[0].active_requests, 0);
    assert_eq!(finish_request(&mut workers, "b", RequestOutcome::UpstreamUnreachable), 502);
    assert_eq!(workers[1].active_requests, 0);
    begin_request(&mut workers, Some(decision("a", RoutingMode::LoadAware))).unwrap();
    assert_eq!(finish_request(&mut workers, "a", RequestOutcome::Answered(429)), 429);
    assert_eq!(workers[0].active_requests, 0);
    assert_eq!(finish_request(&mut workers, "a", RequestOutcome::BodyUnreadable), 502);
    assert_eq!(workers[0].active_requests, 0);
}

#[test]
fn begin_sync_only_moves_init() {
    let mut w = worker("a", "m");
    w.begin_sync();
    assert_eq!(w.status, WorkerSyncStatus::Syncing);
    w.set_status(WorkerSyncStatus::Ready);
    w.begin_sync();
    assert_eq!(w.status, WorkerSyncStatus::Ready);
}

fn member<'a>(es: &'a [(String, JsonValue)], key: &str) -> Vec<&'a JsonValue> {
    es.iter().filter(|(k, _)| k == key).map(|(_, v)| v).collect()
}

#[test]
fn cortex_object_has_exactly_four_members_and_replaces_an_old_one() {
    let mut doc = JsonValue::Object(vec![
        ("cortex".to_string(), JsonValue::Null),
        ("usage".to_string(), JsonValue::Object(vec![("cache_hit_tokens".to_string(), JsonValue::Bool(false))])),
    ]);
    inject_cortex_telemetry(&mut doc, "w9", "fallback_p2c", 48, false);
    let es = match &doc {
        JsonValue::Object(es) => es,
        _ => panic!("object expected"),
    };
    assert_eq!(es.len(), 2);
    let cortex = member(es, "cortex");
    assert_eq!(cortex.len(), 1);
    let c = match cortex[0] {
        JsonValue::Object(c) => c,
        _ => panic!("cortex object expected"),
    };
    let keys: Vec<&str> = c.iter().map(|(k, _)| k.as_str()).collect();
    assert_eq!(keys, vec!["assigned_worker", "match_mode", "cache_hit_tokens", "anchor_aligned"]);
    assert!(matches!(&c[0].1, JsonValue::Str(w) if w == "w9"));
    assert!(matches!(&c[2].1, JsonValue::Number(JsonNumber { text, as_u64: Some(48), .. }) if text == "48"));
    assert!(matches!(&c[3].1, JsonValue::Bool(false)));
    let u = match member(es, "usage")[0] {
        JsonValue::Object(u) => u,
        _ => panic!("usage object expected"),
    };
    assert_eq!(u.len(), 3);
    assert_eq!(member(u, "cache_hit_tokens").len(), 1);
    let mut other = JsonValue::Str("x".to_string());
    inject_cortex_telemetry(&mut other, "w", "m", 1, true);
    assert!(matches!(other, JsonValue::Str(s) if s == "x"));
}

#[test]
fn printed_telemetry_has_one_cortex_member() {
    let out = annotate_response_body(br#"{"cortex":"old","n":1}"#, "w2", "exact_kv_events", 16, true).unwrap();
    assert_eq!(out.matches("\"cortex\"").count(), 1);
    let v: serde_json::Value = serde_json::from_str(&out).unwrap();
    assert_eq!(v["cortex"].as_object().unwrap().len(), 4);
    assert_eq!(v["n"], 1);
}

#[test]
fn registering_a_worker_twice_replaces_it() {
    let mut workers = Vec::new();
    register_worker(&mut workers, worker("a", "m1"));
    register_worker(&mut workers, worker("b", "m1"));
    register_worker(&mut workers, worker("a", "m2"));
    assert_eq!(workers.len(), 2);
    assert_eq!(workers[0].config.id, "a");
    assert_eq!(workers[0].config.model, "m2");
    assert_eq!(workers[1].config.id, "b");
}

#[test]
fn hit_tokens_multiply_pages_by_page_size() {
    assert_eq!(hit_tokens(3, 16), 48);
    assert_eq!(hit_tokens(0, 16), 0);
    assert_eq!(hit_tokens(usize::MAX, 2), usize::MAX);
}
