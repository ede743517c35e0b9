use cortex::config::{CortexConfig, SchedulerConfig, WorkerRole};
use cortex::metrics::RoutingStats;
use cortex::pd::{PdSession, PdSessionState};

#[test]
fn scheduler_config_defaults() {
    let c = SchedulerConfig::default();
    assert!(c.enable_p2c);
    assert!(c.kv_weight_milli > c.load_weight_milli);
    let cfg = CortexConfig::default();
    assert!(cfg.workers.is_empty());
    assert_eq!(WorkerRole::default(), WorkerRole::Standard);
}

#[test]
fn routing_stats_count_modes() {
    let mut s = RoutingStats::new();
    s.record_mode("exact_kv_events");
    s.record_mode("fallback_p2c");
    s.record_mode("unknown");
    s.record_exact_hit(4, true);
    s.record_exact_hit(2, false);
    assert_eq!(s.exact_kv_events, 1);
    assert_eq!(s.fallback_p2c, 1);
    assert_eq!(s.exact_matched_pages_total, 6);
    assert_eq!(s.anchor_aligned_hits, 1);
}

#[test]
fn pd_session_starts_pending() {
    let p = PdSession::new("s", "m");
    assert_eq!(p.session_id, "s");
    assert!(matches!(p.state, PdSessionState::Init));
    assert!(p.prefill_worker_id.is_none());
}
