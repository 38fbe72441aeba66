use taba::common::{DualClockEvent, LogicalClock, NodeId, Ppm, UnitId, WallTime};
use taba::model::Capability;
use taba::observe::alert::{AlertPayload, DefaultAlertDispatcher};
use taba::observe::error::{DecisionTrailId, ObserveError};
use taba::observe::events::{DefaultEventEmitter, EventEmitter, EventType};
use taba::observe::health::{DefaultHealthAggregator, HealthStatus};
use taba::observe::prometheus::{DefaultPrometheusExporter, NodeMetrics, PrometheusExporter};
use taba::observe::replay::DefaultSolverReplayer;
use taba::observe::trail::DefaultDecisionTrailRecorder;
use taba::solver::membership::MembershipSnapshot;
use taba::solver::placement::{Conflict, ConflictStatus, Placement, SolverResult};
use taba::solver::solve::DefaultSolver;

fn unit_id() -> UnitId {
    UnitId(uuid::Uuid::new_v4().as_u128())
}

fn node_id() -> NodeId {
    NodeId(uuid::Uuid::new_v4().as_u128())
}

fn dual_clock(lc: u64) -> DualClockEvent {
    DualClockEvent { logical_clock: LogicalClock(lc), wall_time: WallTime { millis: 0 }, timezone: "UTC".to_string() }
}

// -- error -------------------------------------------------------------------

#[test]
fn test_trail_not_found_display() {
    let err = ObserveError::TrailNotFound { trail_id: DecisionTrailId(42) };
    assert!(err.message().contains("decision trail not found"));
    assert!(err.message().contains("42"));
}

#[test]
fn test_replay_failed_display() {
    let err = ObserveError::ReplayFailed { reason: "snapshot not available".to_string() };
    assert!(err.message().contains("solver replay failed"));
    assert!(err.message().contains("snapshot not available"));
}

#[test]
fn test_export_failed_display() {
    let err = ObserveError::ExportFailed { target: "prometheus".to_string(), reason: "connection refused".to_string() };
    assert!(err.message().contains("export to prometheus failed"));
    assert!(err.message().contains("connection refused"));
}

#[test]
fn test_trail_compacted_display() {
    let err = ObserveError::TrailCompacted { trail_id: DecisionTrailId(7) };
    assert!(err.message().contains("compacted"));
    assert!(err.message().contains('7'));
}

#[test]
fn test_observe_error_implements_std_error() {
    // The error's text comes from `message`, the library's rendering.
    let err = ObserveError::TrailNotFound { trail_id: DecisionTrailId(1) };
    assert_eq!(err.message(), "decision trail not found: DecisionTrailId(1)");
}

#[test]
fn test_observe_error_equality() {
    let a = ObserveError::ReplayFailed { reason: "test".to_string() };
    let b = ObserveError::ReplayFailed { reason: "test".to_string() };
    assert_eq!(a, b);
    let c = ObserveError::TrailNotFound { trail_id: DecisionTrailId(1) };
    assert_ne!(a, c);
}

// -- alert -------------------------------------------------------------------

fn sample_payload() -> AlertPayload {
    AlertPayload {
        node_id: node_id(),
        event_type: "degraded_mode".to_string(),
        reason: "memory limit exceeded".to_string(),
        timestamp: dual_clock(42),
        detail: "graph memory usage exceeded configured limit".to_string(),
    }
}

#[test]
fn test_dispatch_succeeds() {
    let mut dispatcher = DefaultAlertDispatcher::new();
    let payload = sample_payload();
    let result = dispatcher.dispatch("https://hooks.example.com/alert", &payload);
    assert!(result.is_ok(), "M3 dispatch should always succeed");
    assert_eq!(dispatcher.dispatched_count(), 1);
}

#[test]
fn test_dispatched_count() {
    let mut dispatcher = DefaultAlertDispatcher::new();
    let payload = sample_payload();
    assert_eq!(dispatcher.dispatched_count(), 0);
    dispatcher.dispatch("https://example.com/hook1", &payload).unwrap();
    assert_eq!(dispatcher.dispatched_count(), 1);
    dispatcher.dispatch("https://example.com/hook2", &payload).unwrap();
    assert_eq!(dispatcher.dispatched_count(), 2);
    dispatcher.dispatch("https://example.com/hook3", &payload).unwrap();
    assert_eq!(dispatcher.dispatched_count(), 3);
}

#[test]
fn test_dispatch_with_different_payloads() {
    let mut dispatcher = DefaultAlertDispatcher::new();
    let payload1 = AlertPayload {
        node_id: node_id(),
        event_type: "policy_conflict".to_string(),
        reason: "two policies for same conflict".to_string(),
        timestamp: dual_clock(10),
        detail: "involved units: [a, b]".to_string(),
    };
    let payload2 = AlertPayload {
        node_id: node_id(),
        event_type: "promotion_failed".to_string(),
        reason: "human approval required".to_string(),
        timestamp: dual_clock(20),
        detail: "unit xyz requires promotion gate approval".to_string(),
    };
    dispatcher.dispatch("https://hooks.example.com", &payload1).unwrap();
    dispatcher.dispatch("https://hooks.example.com", &payload2).unwrap();
    assert_eq!(dispatcher.dispatched_count(), 2);
}

// -- events ------------------------------------------------------------------

#[test]
fn test_emit_creates_event() {
    let mut emitter = DefaultEventEmitter::new(node_id());
    assert_eq!(emitter.buffered_count(), 0);
    emitter.emit("unit_inserted", "unit abc123 was inserted").expect("emit should succeed");
    assert_eq!(emitter.buffered_count(), 1);
    let events = emitter.drain();
    assert_eq!(events.len(), 1);
    assert_eq!(events[0].detail, "unit abc123 was inserted");
    assert_eq!(events[0].event_type, EventType::Custom { name: "unit_inserted".to_string() });
}

#[test]
fn test_emit_many_events() {
    let mut emitter = DefaultEventEmitter::new(node_id());
    for i in 0..100 {
        emitter.emit(&format!("event_{i}"), &format!("detail {i}")).expect("emit should succeed");
    }
    assert_eq!(emitter.buffered_count(), 100);
    let events = emitter.drain();
    assert_eq!(events.len(), 100);
    for (i, event) in events.iter().enumerate() {
        assert_eq!(event.timestamp.logical_clock, LogicalClock((i + 1) as u64));
    }
}

#[test]
fn test_drain_returns_and_clears() {
    let mut emitter = DefaultEventEmitter::new(node_id());
    emitter.emit("a", "detail a").expect("emit");
    emitter.emit("b", "detail b").expect("emit");
    emitter.emit("c", "detail c").expect("emit");
    assert_eq!(emitter.buffered_count(), 3);
    let events = emitter.drain();
    assert_eq!(events.len(), 3);
    assert_eq!(events[0].detail, "detail a");
    assert_eq!(events[1].detail, "detail b");
    assert_eq!(events[2].detail, "detail c");
    assert_eq!(emitter.buffered_count(), 0);
    emitter.emit("d", "detail d").expect("emit");
    assert_eq!(emitter.buffered_count(), 1);
}

#[test]
fn test_emit_typed_preserves_structured_data() {
    let mut emitter = DefaultEventEmitter::new(node_id());
    let u = unit_id();
    let n = node_id();
    emitter
        .emit_typed(EventType::PlacementDecided { unit_id: u, node_id: n }, "placed on highest-scoring node")
        .expect("emit_typed should succeed");
    let events = emitter.drain();
    assert_eq!(events.len(), 1);
    assert_eq!(events[0].event_type, EventType::PlacementDecided { unit_id: u, node_id: n });
}

#[test]
fn events_carry_node_and_clock() {
    let n = node_id();
    let mut emitter = DefaultEventEmitter::new(n);
    emitter.emit("x", "y").unwrap();
    emitter.drain();
    emitter.emit("z", "w").unwrap();
    let events = emitter.drain();
    assert_eq!(events[0].node_id, n);
    // The clock keeps counting across drains.
    assert_eq!(events[0].timestamp.logical_clock, LogicalClock(2));
    assert_eq!(events[0].timestamp.wall_time, WallTime { millis: 0 });
    assert_eq!(events[0].timestamp.timezone, "UTC");
}

// -- health ------------------------------------------------------------------

fn healthy_status(unit_id: UnitId, node_id: NodeId) -> HealthStatus {
    HealthStatus {
        unit_id,
        node_id,
        healthy: true,
        last_check: dual_clock(1),
        consecutive_failures: 0,
        check_type: "http".to_string(),
        detail: Some("200 OK".to_string()),
    }
}

fn unhealthy_status(unit_id: UnitId, node_id: NodeId) -> HealthStatus {
    HealthStatus {
        unit_id,
        node_id,
        healthy: false,
        last_check: dual_clock(2),
        consecutive_failures: 3,
        check_type: "tcp".to_string(),
        detail: Some("connection refused".to_string()),
    }
}

#[test]
fn test_report_and_query() {
    let mut aggregator = DefaultHealthAggregator::new();
    let u = unit_id();
    let n = node_id();
    let status = healthy_status(u, n);
    aggregator.report(&u, &status);
    let queried = aggregator.query(&u).expect("status should exist after report");
    assert_eq!(queried, status);
    assert!(queried.healthy);
    assert_eq!(queried.unit_id, u);
    assert_eq!(queried.node_id, n);
    assert_eq!(queried.check_type, "http");
}

#[test]
fn test_query_missing() {
    let aggregator = DefaultHealthAggregator::new();
    assert!(aggregator.query(&unit_id()).is_none(), "no status should exist for unreported unit");
}

#[test]
fn test_unhealthy_filters() {
    let mut aggregator = DefaultHealthAggregator::new();
    let n = node_id();
    let healthy_unit = unit_id();
    let unhealthy_unit = unit_id();
    let another_unhealthy = unit_id();
    aggregator.report(&healthy_unit, &healthy_status(healthy_unit, n));
    aggregator.report(&unhealthy_unit, &unhealthy_status(unhealthy_unit, n));
    aggregator.report(&another_unhealthy, &unhealthy_status(another_unhealthy, n));
    let unhealthy = aggregator.unhealthy();
    assert_eq!(unhealthy.len(), 2, "should return only unhealthy units");
    for status in &unhealthy {
        assert!(!status.healthy, "unhealthy() should only return unhealthy statuses");
    }
    assert!(!unhealthy.iter().any(|s| s.unit_id == healthy_unit), "healthy unit should not appear in unhealthy()");
}

#[test]
fn test_report_overwrites() {
    let mut aggregator = DefaultHealthAggregator::new();
    let u = unit_id();
    let n = node_id();
    aggregator.report(&u, &healthy_status(u, n));
    assert!(aggregator.query(&u).expect("should exist").healthy);
    aggregator.report(&u, &unhealthy_status(u, n));
    let queried = aggregator.query(&u).expect("should exist");
    assert!(!queried.healthy, "second report should overwrite the first");
    assert_eq!(queried.consecutive_failures, 3);
    assert_eq!(aggregator.count(), 1, "overwrite should not add a new entry");
}

// -- prometheus --------------------------------------------------------------

fn sample_metrics() -> NodeMetrics {
    NodeMetrics {
        memory_available_bytes: 1_073_741_824,
        cpu_load_ppm: Ppm(500_000),
        workloads_running: 7,
        solver_runs_total: 142,
        gossip_messages_total: 9_999,
        artifact_cache_size_bytes: 67_108_864,
        decision_trails_stored: 87,
        compactions_total: 3,
    }
}

const NAMES: [&str; 8] = [
    "taba_memory_available_bytes",
    "taba_cpu_load_ppm",
    "taba_workloads_running",
    "taba_solver_runs_total",
    "taba_gossip_messages_total",
    "taba_artifact_cache_size_bytes",
    "taba_decision_trails_stored",
    "taba_compactions_total",
];

#[test]
fn test_render_metrics_contains_all() {
    let output = DefaultPrometheusExporter::new(sample_metrics()).render_metrics();
    for name in &NAMES {
        assert!(output.contains(name), "output should contain metric name: {name}");
    }
}

#[test]
fn test_render_metrics_format() {
    let output = DefaultPrometheusExporter::new(sample_metrics()).render_metrics();
    for name in &NAMES {
        assert!(output.contains(&format!("# HELP {name}")), "output should have # HELP line for {name}");
        assert!(output.contains(&format!("# TYPE {name}")), "output should have # TYPE line for {name}");
    }
    for g in [
        "taba_memory_available_bytes",
        "taba_cpu_load_ppm",
        "taba_workloads_running",
        "taba_artifact_cache_size_bytes",
        "taba_decision_trails_stored",
    ] {
        assert!(output.contains(&format!("# TYPE {g} gauge")), "{g} should be type gauge");
    }
    for c in ["taba_solver_runs_total", "taba_gossip_messages_total", "taba_compactions_total"] {
        assert!(output.contains(&format!("# TYPE {c} counter")), "{c} should be type counter");
    }
}

#[test]
fn test_render_metrics_values() {
    let metrics = sample_metrics();
    let output = DefaultPrometheusExporter::new(metrics).render_metrics();
    assert!(output.contains(&format!("taba_memory_available_bytes {}", metrics.memory_available_bytes)));
    assert!(output.contains(&format!("taba_cpu_load_ppm {}", metrics.cpu_load_ppm.0)));
    assert!(output.contains(&format!("taba_workloads_running {}", metrics.workloads_running)));
    assert!(output.contains(&format!("taba_solver_runs_total {}", metrics.solver_runs_total)));
    assert!(output.contains(&format!("taba_gossip_messages_total {}", metrics.gossip_messages_total)));
    assert!(output.contains(&format!("taba_artifact_cache_size_bytes {}", metrics.artifact_cache_size_bytes)));
    assert!(output.contains(&format!("taba_decision_trails_stored {}", metrics.decision_trails_stored)));
    assert!(output.contains(&format!("taba_compactions_total {}", metrics.compactions_total)));
}

#[test]
fn test_render_metrics_zero_values() {
    let metrics = NodeMetrics {
        memory_available_bytes: 0,
        cpu_load_ppm: Ppm(0),
        workloads_running: 0,
        solver_runs_total: 0,
        gossip_messages_total: 0,
        artifact_cache_size_bytes: 0,
        decision_trails_stored: 0,
        compactions_total: 0,
    };
    let output = DefaultPrometheusExporter::new(metrics).render_metrics();
    for name in &NAMES {
        assert!(output.contains(&format!("{name} 0\n")));
    }
}

#[test]
fn render_metrics_first_block_exactly() {
    let output = DefaultPrometheusExporter::new(sample_metrics()).render_metrics();
    assert!(output.starts_with(
        "# HELP taba_memory_available_bytes Memory available in bytes\n# TYPE taba_memory_available_bytes gauge\ntaba_memory_available_bytes 1073741824\n# HELP taba_cpu_load_ppm"
    ));
    assert!(output.ends_with("taba_compactions_total 3\n"));
    assert_eq!(output.lines().count(), 24);
}

// -- trail -------------------------------------------------------------------

fn with_placement(u: UnitId, n: NodeId) -> SolverResult {
    let mut r = SolverResult::empty();
    r.placements.push(Placement { unit: u, node: n, score: Ppm(750_000) });
    r
}

#[test]
fn test_record_creates_trail() {
    let mut recorder = DefaultDecisionTrailRecorder::new();
    let result = SolverResult::empty();
    let trail_id = recorder.record("snapshot-1", &MembershipSnapshot::empty(1), &result, "0.1.0").expect("record");
    assert_eq!(trail_id, DecisionTrailId(1));
    let trail_id2 = recorder.record("snapshot-2", &MembershipSnapshot::empty(1), &result, "0.1.0").expect("record");
    assert_eq!(trail_id2, DecisionTrailId(2));
}

#[test]
fn test_record_stores_full_trail() {
    let mut recorder = DefaultDecisionTrailRecorder::new();
    let u = unit_id();
    let n = node_id();
    let trail_id =
        recorder.record("snap-abc", &MembershipSnapshot::empty(1), &with_placement(u, n), "0.2.0").expect("record");
    let trail = recorder.query_by_id(&trail_id).expect("trail should exist");
    assert_eq!(trail.trail_id, trail_id);
    assert_eq!(trail.graph_snapshot_id, "snap-abc");
    assert_eq!(trail.solver_version, "0.2.0");
    assert_eq!(trail.placements.len(), 1);
    assert_eq!(trail.placements[0].unit_id, u);
    assert_eq!(trail.placements[0].placed_on, n);
}

#[test]
fn test_query_by_unit_finds_trail() {
    let mut recorder = DefaultDecisionTrailRecorder::new();
    let u = unit_id();
    recorder.record("snap-1", &MembershipSnapshot::empty(1), &with_placement(u, node_id()), "0.1.0").expect("record");
    let trails = recorder.query_by_unit(&u).expect("query should succeed");
    assert_eq!(trails.len(), 1, "should find one trail for this unit");
    assert_eq!(trails[0].placements[0].unit_id, u);
}

#[test]
fn test_query_by_unit_no_match() {
    let mut recorder = DefaultDecisionTrailRecorder::new();
    recorder
        .record("snap-1", &MembershipSnapshot::empty(1), &with_placement(unit_id(), node_id()), "0.1.0")
        .expect("record");
    let trails = recorder.query_by_unit(&unit_id()).expect("query should succeed");
    assert!(trails.is_empty(), "should find no trails for unknown unit");
}

#[test]
fn test_query_by_range() {
    let mut recorder = DefaultDecisionTrailRecorder::new();
    let result = SolverResult::empty();
    let id1 = recorder.record("s1", &MembershipSnapshot::empty(1), &result, "v1").expect("record");
    let _id2 = recorder.record("s2", &MembershipSnapshot::empty(1), &result, "v1").expect("record");
    let id3 = recorder.record("s3", &MembershipSnapshot::empty(1), &result, "v1").expect("record");
    let trails = recorder.query_by_range(&LogicalClock(2), &LogicalClock(3)).expect("query");
    assert_eq!(trails.len(), 2, "should find 2 trails in range [2,3]");
    assert_eq!(trails[0].trail_id, DecisionTrailId(2));
    assert_eq!(trails[1].trail_id, id3);
    assert!(!trails.iter().any(|t| t.trail_id == id1), "trail 1 should be outside range [2,3]");
    let all = recorder.query_by_range(&LogicalClock(1), &LogicalClock(3)).expect("query");
    assert_eq!(all.len(), 3, "should find all 3 trails in range [1,3]");
    let none = recorder.query_by_range(&LogicalClock(4), &LogicalClock(10)).expect("query");
    assert!(none.is_empty(), "should find no trails in range [4,10]");
}

#[test]
fn test_query_by_id_not_found() {
    let recorder = DefaultDecisionTrailRecorder::new();
    let result = recorder.query_by_id(&DecisionTrailId(999));
    assert!(matches!(result, Err(ObserveError::TrailNotFound { trail_id }) if trail_id == DecisionTrailId(999)));
}

#[test]
fn trail_records_membership_and_conflicts() {
    let mut recorder = DefaultDecisionTrailRecorder::new();
    let n = NodeId(5);
    let mut membership = MembershipSnapshot::empty(9);
    membership.add_node(n, taba::harness::builder::NodeCapabilitySetBuilder::new().build(), taba::solver::membership::NodeHealth::Active);
    let mut result = SolverResult::empty();
    result.placements.push(Placement { unit: UnitId(1), node: n, score: Ppm(42) });
    result.conflicts.push(Conflict {
        units: vec![UnitId(2), UnitId(3)],
        capability: Capability::new("storage", "pg"),
        status: ConflictStatus::Revoked,
    });
    let id = recorder.record("g", &membership, &result, "v").expect("record");
    let t = recorder.query_by_id(&id).expect("trail");
    assert_eq!(t.node_membership, vec![n]);
    assert_eq!(t.resource_snapshots.len(), 1);
    assert_eq!(t.resource_snapshots[0].snapshot_lc, LogicalClock(9));
    assert_eq!(t.placements[0].rationale, "placed with score 42");
    assert_eq!(t.placements[0].resource_scores, vec![(n, Ppm(42))]);
    assert!(t.placements[0].capability_filter.is_empty());
    assert_eq!(
        t.conflicts[0].conflict_type,
        "Capability { cap_type: \"storage\", name: \"pg\", purpose: None }"
    );
    assert_eq!(t.conflicts[0].detail, "Revoked");
    assert_eq!(t.conflicts[0].involved_units, vec![UnitId(2), UnitId(3)]);
    assert_eq!(t.timestamp.logical_clock, LogicalClock(1));
}

// -- replay ------------------------------------------------------------------

#[test]
fn test_replay_not_found() {
    let recorder = DefaultDecisionTrailRecorder::new();
    let solver = DefaultSolver::new();
    let replayer = DefaultSolverReplayer::new(&recorder, &solver);
    let result = replayer.replay(&DecisionTrailId(999));
    assert!(matches!(result, Err(ObserveError::TrailNotFound { trail_id }) if trail_id == DecisionTrailId(999)));
}

#[test]
fn test_replay_no_snapshot() {
    let mut recorder = DefaultDecisionTrailRecorder::new();
    let solver = DefaultSolver::new();
    let trail_id =
        recorder.record("snap-1", &MembershipSnapshot::empty(1), &SolverResult::empty(), "0.1.0").expect("record");
    let replayer = DefaultSolverReplayer::new(&recorder, &solver);
    let err = replayer.replay(&trail_id).expect_err("replay should fail");
    assert!(
        matches!(err, ObserveError::ReplayFailed { ref reason } if reason.contains("snapshot not available in M3")),
        "expected ReplayFailed, got: {err:?}"
    );
}

#[test]
fn test_replay_with_stored_solver_result() {
    let mut recorder = DefaultDecisionTrailRecorder::new();
    let solver = DefaultSolver::new();
    let u = unit_id();
    let n = node_id();
    let trail_id = recorder.record("snap-stored", &MembershipSnapshot::empty(1), &with_placement(u, n), "0.3.0").expect("record");
    let trail = recorder.query_by_id(&trail_id).expect("trail should exist");
    assert_eq!(trail.placements.len(), 1);
    assert_eq!(trail.placements[0].unit_id, u);
    assert_eq!(trail.placements[0].placed_on, n);
    let replayer = DefaultSolverReplayer::new(&recorder, &solver);
    let replay_result = replayer.replay(&trail_id);
    assert!(!matches!(replay_result, Err(ObserveError::TrailNotFound { .. })));
    assert!(matches!(replay_result, Err(ObserveError::ReplayFailed { .. })));
}

#[test]
fn trails_are_numbered_in_recording_order() {
    let mut recorder = DefaultDecisionTrailRecorder::new();
    let result = SolverResult { placements: Vec::new(), unplaceable: Vec::new(), conflicts: Vec::new() };
    for k in 1..=4u64 {
        let id = recorder.record(&format!("snap-{k}"), &MembershipSnapshot::empty(k), &result, "v").expect("record");
        assert_eq!(id, DecisionTrailId(k));
    }
    for k in 1..=4u64 {
        let t = recorder.query_by_id(&DecisionTrailId(k)).expect("query");
        assert_eq!(t.trail_id, DecisionTrailId(k));
        assert_eq!(t.timestamp.logical_clock, LogicalClock(k));
        assert_eq!(t.graph_snapshot_id, format!("snap-{k}"));
    }
    assert!(recorder.query_by_id(&DecisionTrailId(5)).is_err());
}

fn emit_through<E: EventEmitter>(emitter: &mut E, kind: &str, detail: &str) {
    emitter.emit(kind, detail).expect("emit");
}

fn render_through<P: PrometheusExporter>(exporter: &P) -> String {
    exporter.render_metrics()
}

#[test]
fn default_components_serve_through_their_traits() {
    let mut emitter = DefaultEventEmitter::new(node_id());
    emit_through(&mut emitter, "custom.kind", "detail");
    assert_eq!(emitter.buffered_count(), 1);
    let exporter = DefaultPrometheusExporter::new(sample_metrics());
    assert_eq!(render_through(&exporter), exporter.render_metrics());
}
