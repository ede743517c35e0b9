use cortex::config::{EngineType, WorkerConfig, WorkerRole};
use cortex::ledger::{RadixHashTree, WorkerRuntimeState, WorkerSyncStatus};
use cortex::zmq::{KvEventMessage, KvEventPayload, KvEventProcessor};

fn worker(id: &str) -> WorkerRuntimeState {
    WorkerRuntimeState::new(WorkerConfig {
        id: id.to_string(),
        model: "llama-3".to_string(),
        engine: EngineType::Sglang,
        http_endpoint: "http://127.0.0.1:8001".to_string(),
        zmq_endpoint: Some("tcp://127.0.0.1:5557".to_string()),
        tokenizer_path: None,
        role: WorkerRole::Standard,
        page_size: 16,
        weight: 100,
    })
}

#[test]
fn test_sglang_native_msgpack_multipart_decoding() {
    let payload_hex = "93cb40fe240c7ae147ae9197ab426c6f636b53746f726564927bcd01c8c09301020310c0c000";
    let payload_bytes = hex::decode(payload_hex).unwrap();
    let seq_bytes: [u8; 8] = 42u64.to_be_bytes();

    let events = KvEventProcessor::parse_sglang_multipart(&seq_bytes, &payload_bytes);
    assert_eq!(events.len(), 1);
    assert_eq!(events[0].seq, 42);
    match &events[0].payload {
        KvEventPayload::BlockStored { page_hashes } => {
            assert_eq!(page_hashes, &vec![123, 456]);
        }
        _ => panic!("Expected BlockStored event"),
    }
}

#[test]
fn test_sglang_msgpack_event_processing_and_lru_removal() {
    let mut processor = KvEventProcessor::new(RadixHashTree::new());
    let mut w = worker("sgl-gpu-test-01");

    let seq1_bytes = 1u64.to_be_bytes();
    let stored = hex::decode("93cb3ff00000000000009197ab426c6f636b53746f72656493cd03e9cd03eacd03ebc09301020310c0c000").unwrap();
    let events1 = KvEventProcessor::parse_sglang_multipart(&seq1_bytes, &stored);
    assert_eq!(events1.len(), 1);
    assert_eq!(events1[0].seq, 1);
    processor.process_event(&mut w, events1[0].clone());
    assert_eq!(w.status, WorkerSyncStatus::Ready);
    assert_eq!(processor.total_cached_blocks(), 3);

    let seq2_bytes = 2u64.to_be_bytes();
    let removed = hex::decode("93cb40000000000000009193ac426c6f636b52656d6f76656491cd03ebc000").unwrap();
    let events2 = KvEventProcessor::parse_sglang_multipart(&seq2_bytes, &removed);
    assert_eq!(events2.len(), 1);
    assert_eq!(events2[0].seq, 2);
    processor.process_event(&mut w, events2[0].clone());
    assert_eq!(processor.total_cached_blocks(), 2);
}

#[test]
fn malformed_payload_and_short_seq_frame() {
    assert!(KvEventProcessor::parse_sglang_multipart(&[0, 1], &[0xc1]).is_empty());
    let payload = hex::decode("93cb40fe240c7ae147ae9197ab426c6f636b53746f726564927bcd01c8c09301020310c0c000").unwrap();
    let events = KvEventProcessor::parse_sglang_multipart(&[0, 1], &payload);
    assert_eq!(events.len(), 1);
    assert_eq!(events[0].seq, 0);
}

#[test]
fn sequence_gap_marks_stale_until_resync() {
    let mut processor = KvEventProcessor::new(RadixHashTree::new());
    let mut w = worker("w");
    processor.process_event(&mut w, KvEventMessage { seq: 1, payload: KvEventPayload::BlockStored { page_hashes: vec![1, 2] } });
    assert_eq!(w.status, WorkerSyncStatus::Ready);
    // seq 3 skips 2: stale, the worker's blocks are dropped and the event is not applied.
    processor.process_event(&mut w, KvEventMessage { seq: 3, payload: KvEventPayload::BlockStored { page_hashes: vec![9] } });
    assert_eq!(w.status, WorkerSyncStatus::Stale);
    assert_eq!(processor.total_cached_blocks(), 0);
    // In-order increments while stale are ignored.
    processor.process_event(&mut w, KvEventMessage { seq: 4, payload: KvEventPayload::BlockStored { page_hashes: vec![8] } });
    assert_eq!(w.status, WorkerSyncStatus::Stale);
    assert_eq!(processor.total_cached_blocks(), 0);
    // A clear resynchronizes.
    processor.process_event(&mut w, KvEventMessage { seq: 5, payload: KvEventPayload::AllBlocksCleared });
    assert_eq!(w.status, WorkerSyncStatus::Ready);
    assert_eq!(processor.total_cached_blocks(), 0);
}

#[test]
fn json_event_fields() {
    let e = KvEventProcessor::event_from_json(0, 7, "block_removed", vec![5]);
    assert_eq!(e.seq, 7);
    assert!(matches!(e.payload, KvEventPayload::BlockRemoved { .. }));
    let e2 = KvEventProcessor::event_from_json(9, 7, "whatever", vec![]);
    assert_eq!(e2.seq, 9);
    assert!(matches!(e2.payload, KvEventPayload::AllBlocksCleared));
}

#[test]
fn engine_restart_resynchronizes_from_the_new_stream() {
    let mut processor = KvEventProcessor::new(RadixHashTree::new());
    let mut w = worker("w");
    processor.process_event(&mut w, KvEventMessage { seq: 10, payload: KvEventPayload::BlockStored { page_hashes: vec![1, 2] } });
    assert_eq!(w.status, WorkerSyncStatus::Ready);
    // The sequence number went back: the engine restarted. Old blocks go,
    // the event applies on a fresh baseline.
    processor.process_event(&mut w, KvEventMessage { seq: 1, payload: KvEventPayload::BlockStored { page_hashes: vec![3] } });
    assert_eq!(w.status, WorkerSyncStatus::Ready);
    assert_eq!(w.last_seq, 1);
    assert_eq!(processor.total_cached_blocks(), 1);
}

#[test]
fn events_of_one_worker_leave_others_alone() {
    let mut processor = KvEventProcessor::new(RadixHashTree::new());
    let mut a = worker("a");
    let mut b = worker("b");
    processor.process_event(&mut a, KvEventMessage { seq: 1, payload: KvEventPayload::BlockStored { page_hashes: vec![1, 2] } });
    processor.process_event(&mut b, KvEventMessage { seq: 1, payload: KvEventPayload::BlockStored { page_hashes: vec![1] } });
    // A gap on a drops a's blocks only.
    processor.process_event(&mut a, KvEventMessage { seq: 5, payload: KvEventPayload::AllBlocksCleared });
    assert_eq!(a.status, WorkerSyncStatus::Stale);
    assert_eq!(b.status, WorkerSyncStatus::Ready);
    let m = processor.tree().find_lcp_matches(&[1, 2], &["a".to_string(), "b".to_string()]);
    assert_eq!(m.get("a"), None);
    assert_eq!(m.get("b"), Some(1));
}
