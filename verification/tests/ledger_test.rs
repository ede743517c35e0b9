use cortex::config::{EngineType, SchedulerConfig, WorkerConfig, WorkerRole};
use cortex::hasher::compute_sglang_page_hashes;
use cortex::ledger::{RadixHashTree, WorkerRuntimeState, WorkerSyncStatus};
use cortex::scheduler::{LocalityScheduler, RoutingMode};
use cortex::zmq::{KvEventMessage, KvEventPayload, KvEventProcessor};

fn worker(id: &str, model: &str, endpoint: &str) -> WorkerRuntimeState {
    WorkerRuntimeState::new(WorkerConfig {
        id: id.to_string(),
        model: model.to_string(),
        engine: EngineType::Sglang,
        http_endpoint: endpoint.to_string(),
        zmq_endpoint: None,
        tokenizer_path: None,
        role: WorkerRole::Standard,
        page_size: 16,
        weight: 100,
    })
}

fn eligible(ids: &[&str]) -> Vec<String> {
    ids.iter().map(|s| s.to_string()).collect()
}

#[test]
fn test_radix_tree_insert_remove_and_match() {
    let mut tree = RadixHashTree::new();
    let hashes = vec![1001, 1002, 1003, 1004];

    tree.insert_chain("worker-1", &hashes[0..3]);
    tree.insert_chain("worker-2", &hashes[0..4]);

    let eligible = eligible(&["worker-1", "worker-2"]);

    let matches = tree.find_lcp_matches(&hashes, &eligible);
    assert_eq!(matches.get("worker-1"), Some(3));
    assert_eq!(matches.get("worker-2"), Some(4));
    assert_eq!(tree.total_cached_blocks(), 4);

    tree.remove_chain("worker-2", &hashes[3..4]);
    let matches_after_remove = tree.find_lcp_matches(&hashes, &eligible);
    assert_eq!(matches_after_remove.get("worker-2"), Some(3));

    tree.clear_worker("worker-1");
    let matches_after_clear = tree.find_lcp_matches(&hashes, &eligible);
    assert_eq!(matches_after_clear.get("worker-1"), None);
    assert_eq!(matches_after_clear.get("worker-2"), Some(3));
    assert_eq!(tree.total_cached_blocks(), 3);

    tree.clear_worker("worker-2");
    assert_eq!(tree.total_cached_blocks(), 0);
}

#[test]
fn test_lcp_stops_at_first_divergence() {
    let mut tree = RadixHashTree::new();
    tree.insert_chain("worker-a", &[11, 22, 33]);
    tree.insert_chain("worker-b", &[11, 22, 99]);

    let eligible = eligible(&["worker-a", "worker-b"]);

    let matches = tree.find_lcp_matches(&[11, 22, 33], &eligible);
    assert_eq!(matches.get("worker-a"), Some(3));
    assert_eq!(matches.get("worker-b"), Some(2));
}

#[test]
fn lcp_only_reports_eligible_workers_with_a_match() {
    let mut tree = RadixHashTree::new();
    tree.insert_chain("a", &[1, 2]);
    tree.insert_chain("b", &[2, 3]);
    let m = tree.find_lcp_matches(&[1, 2], &eligible(&["b"]));
    assert!(m.is_empty());
    assert_eq!(m.get("a"), None);
    let m2 = tree.find_lcp_matches(&[1, 2], &eligible(&["a", "b"]));
    assert_eq!(m2.len(), 1);
    assert_eq!(m2.get("a"), Some(2));
}

#[test]
fn remove_undoes_insert_and_updates_isolate_workers() {
    let mut tree = RadixHashTree::new();
    tree.insert_chain("a", &[5, 6]);
    tree.insert_chain("b", &[5]);
    tree.remove_chain("a", &[5, 6]);
    let m = tree.find_lcp_matches(&[5, 6], &eligible(&["a", "b"]));
    assert_eq!(m.get("a"), None);
    assert_eq!(m.get("b"), Some(1));
    assert_eq!(tree.total_cached_blocks(), 1);
}

#[test]
fn evicting_a_middle_block_caps_the_match() {
    let mut tree = RadixHashTree::new();
    tree.insert_chain("a", &[1, 2, 3, 4]);
    tree.remove_chain("a", &[2]);
    let m = tree.find_lcp_matches(&[1, 2, 3, 4], &eligible(&["a"]));
    assert_eq!(m.get("a"), Some(1));
}

#[test]
fn worker_active_request_counters() {
    let mut w = worker("w", "m", "http://x");
    assert_eq!(w.get_active_requests(), 0);
    assert_eq!(w.dec_active_requests(), 0);
    assert_eq!(w.inc_active_requests(), 1);
    assert_eq!(w.inc_active_requests(), 2);
    assert_eq!(w.dec_active_requests(), 1);
    assert!(!w.is_ready_for_exact_kv());
    w.set_status(WorkerSyncStatus::Ready);
    assert!(w.is_ready_for_exact_kv());
}

#[test]
fn test_scheduler_exact_kv_and_load_fallback() {
    let mut tree = RadixHashTree::new();
    let mut w1 = worker("worker-1", "test-model", "http://127.0.0.1:8001");
    let mut w2 = worker("worker-2", "test-model", "http://127.0.0.1:8002");
    w1.set_status(WorkerSyncStatus::Ready);
    w2.set_status(WorkerSyncStatus::Ready);
    let workers = vec![w1, w2];

    let mut scheduler = LocalityScheduler::new(SchedulerConfig::default());

    let hashes = vec![111, 222, 333];
    tree.insert_chain("worker-1", &hashes);

    let decision = scheduler.select_worker(&tree, &workers, "test-model", &hashes, None).unwrap();
    assert_eq!(decision.worker_id, "worker-1");
    assert_eq!(decision.mode, RoutingMode::ExactKvEvents);
    assert_eq!(decision.matched_pages, 3);
}

#[test]
fn scheduler_without_workers_for_model_gives_none() {
    let tree = RadixHashTree::new();
    let workers = vec![worker("w", "other", "http://x")];
    let mut scheduler = LocalityScheduler::new(SchedulerConfig::default());
    assert!(scheduler.select_worker(&tree, &workers, "m", &[1], None).is_none());
    // A standard worker also serves requests for a specific role.
    let d = scheduler.select_worker(&tree, &workers, "other", &[1], Some(WorkerRole::Prefill)).unwrap();
    assert_eq!(d.worker_id, "w");
}

#[test]
fn scheduler_prefers_less_loaded_worker_when_no_match() {
    let tree = RadixHashTree::new();
    let mut w1 = worker("w1", "m", "http://1");
    let mut w2 = worker("w2", "m", "http://2");
    w1.set_status(WorkerSyncStatus::Ready);
    w2.set_status(WorkerSyncStatus::Ready);
    w1.inc_active_requests();
    w1.inc_active_requests();
    let workers = vec![w1, w2];
    let mut scheduler = LocalityScheduler::new(SchedulerConfig::default());
    let d = scheduler.select_worker(&tree, &workers, "m", &[7, 8], None).unwrap();
    assert_eq!(d.worker_id, "w2");
    assert_eq!(d.matched_pages, 0);
    assert_eq!(d.http_endpoint, "http://2");
}

#[test]
fn routing_mode_names() {
    assert_eq!(RoutingMode::ExactKvEvents.as_str(), "exact_kv_events");
    assert_eq!(RoutingMode::FallbackP2c.as_str(), "fallback_p2c");
}

#[test]
fn test_end_to_end_zmq_event_to_exact_kv_routing() {
    let model = "meta-llama/Llama-3.1-8B-Instruct";
    let mut workers = vec![
        worker("sgl-gpu-01", model, "http://127.0.0.1:8001"),
        worker("sgl-gpu-02", model, "http://127.0.0.1:8002"),
    ];
    let mut processor = KvEventProcessor::new(RadixHashTree::new());
    let mut scheduler = LocalityScheduler::new(SchedulerConfig::default());

    let tokens: Vec<u32> = (100..164).collect();
    let page_hashes = compute_sglang_page_hashes(&tokens, 16);
    assert_eq!(page_hashes.len(), 4);

    let init_decision = scheduler.select_worker(processor.tree(), &workers, model, &page_hashes, None).unwrap();
    assert_eq!(init_decision.mode, RoutingMode::FallbackP2c);
    assert_eq!(init_decision.matched_pages, 0);

    processor.process_event(
        &mut workers[0],
        KvEventMessage { seq: 1, payload: KvEventPayload::BlockStored { page_hashes: page_hashes.clone() } },
    );
    assert_eq!(workers[0].status, WorkerSyncStatus::Ready);

    let matched_decision = scheduler.select_worker(processor.tree(), &workers, model, &page_hashes, None).unwrap();
    assert_eq!(matched_decision.worker_id, "sgl-gpu-01");
    assert_eq!(matched_decision.mode, RoutingMode::ExactKvEvents);
    assert_eq!(matched_decision.matched_pages, 4);

    processor.process_event(&mut workers[0], KvEventMessage { seq: 2, payload: KvEventPayload::AllBlocksCleared });

    let after_evict_decision = scheduler.select_worker(processor.tree(), &workers, model, &page_hashes, None).unwrap();
    assert_eq!(after_evict_decision.matched_pages, 0);
    assert_eq!(after_evict_decision.mode, RoutingMode::FallbackP2c);
}
