use taba::common::UnitId;
use taba::harness::builder::WorkloadUnitBuilder;
use taba::model::{GraphEntry, GraphSnapshot, RecoveryRelationship, Unit};
use taba::solver::cycle::{normalize_cycle, CycleDetector, DefaultCycleDetector};

fn test_unit_id() -> UnitId {
    UnitId(uuid::Uuid::new_v4().as_u128())
}

fn workload_with_recovery(id: UnitId, recovery: Vec<RecoveryRelationship>) -> Unit {
    let mut w = WorkloadUnitBuilder::new().with_id(id).build();
    w.recovery_relationships = recovery;
    Unit::Workload(w)
}

fn empty_graph() -> GraphSnapshot {
    GraphSnapshot { entries: Vec::new(), policy_chains: Vec::new() }
}

fn graph_with_units(units: Vec<Unit>) -> GraphSnapshot {
    let mut entries: Vec<GraphEntry> = units.into_iter().map(|unit| GraphEntry { unit, archived: false }).collect();
    entries.sort_by_key(|e| e.unit.id());
    GraphSnapshot { entries, policy_chains: Vec::new() }
}

fn rr(depends_on: UnitId) -> RecoveryRelationship {
    RecoveryRelationship { depends_on }
}

#[test]
fn test_detect_cycles_none() {
    let graph = graph_with_units(vec![workload_with_recovery(test_unit_id(), vec![])]);
    let cycles = DefaultCycleDetector::new().detect_cycles(&graph);
    assert!(cycles.is_empty(), "no recovery relationships should yield no cycles");
}

#[test]
fn test_detect_cycles_empty_graph() {
    let cycles = DefaultCycleDetector::new().detect_cycles(&empty_graph());
    assert!(cycles.is_empty(), "empty graph should yield no cycles");
}

#[test]
fn test_detect_cycles_simple() {
    let id_a = UnitId(1);
    let id_b = UnitId(2);
    let graph = graph_with_units(vec![workload_with_recovery(id_a, vec![rr(id_b)]), workload_with_recovery(id_b, vec![rr(id_a)])]);
    let cycles = DefaultCycleDetector::new().detect_cycles(&graph);
    assert_eq!(cycles.len(), 1, "should detect exactly one cycle");
    assert_eq!(cycles[0].chain.len(), 2);
    assert_eq!(cycles[0].chain[0], id_a);
    assert_eq!(cycles[0].chain[1], id_b);
}

#[test]
fn test_detect_cycles_multi() {
    let (a, b, c, d) = (UnitId(1), UnitId(2), UnitId(3), UnitId(4));
    let graph = graph_with_units(vec![
        workload_with_recovery(a, vec![rr(b)]),
        workload_with_recovery(b, vec![rr(a)]),
        workload_with_recovery(c, vec![rr(d)]),
        workload_with_recovery(d, vec![rr(c)]),
    ]);
    let cycles = DefaultCycleDetector::new().detect_cycles(&graph);
    assert_eq!(cycles.len(), 2, "should detect two independent cycles");
    for cycle in &cycles {
        assert_eq!(cycle.chain.len(), 2);
    }
}

#[test]
fn test_detect_cycles_self_loop() {
    let id_a = test_unit_id();
    let graph = graph_with_units(vec![workload_with_recovery(id_a, vec![rr(id_a)])]);
    let cycles = DefaultCycleDetector::new().detect_cycles(&graph);
    assert_eq!(cycles.len(), 1, "self-loop should be detected as a cycle");
    assert_eq!(cycles[0].chain.len(), 1);
    assert_eq!(cycles[0].chain[0], id_a);
}

#[test]
fn test_detect_cycles_longer() {
    let (a, b, c) = (UnitId(1), UnitId(2), UnitId(3));
    let graph = graph_with_units(vec![
        workload_with_recovery(a, vec![rr(b)]),
        workload_with_recovery(b, vec![rr(c)]),
        workload_with_recovery(c, vec![rr(a)]),
    ]);
    let cycles = DefaultCycleDetector::new().detect_cycles(&graph);
    assert_eq!(cycles.len(), 1, "should detect one 3-unit cycle");
    assert_eq!(cycles[0].chain.len(), 3);
    assert_eq!(cycles[0].chain[0], a, "normalized to start with smallest");
}

#[test]
fn test_detect_cycles_no_cycle_with_chain() {
    let (a, b, c) = (test_unit_id(), test_unit_id(), test_unit_id());
    let graph = graph_with_units(vec![
        workload_with_recovery(a, vec![rr(b)]),
        workload_with_recovery(b, vec![rr(c)]),
        workload_with_recovery(c, vec![]),
    ]);
    let cycles = DefaultCycleDetector::new().detect_cycles(&graph);
    assert!(cycles.is_empty(), "linear chain should have no cycles");
}

#[test]
fn test_would_cycle_no_cycle() {
    let id_a = test_unit_id();
    let graph = graph_with_units(vec![workload_with_recovery(id_a, vec![])]);
    let unit_b = workload_with_recovery(test_unit_id(), vec![rr(id_a)]);
    let result = DefaultCycleDetector::new().would_cycle(&graph, &unit_b);
    assert!(result.is_ok(), "adding B->A should not create a cycle");
}

#[test]
fn test_would_cycle_creates_cycle() {
    let id_a = test_unit_id();
    let id_b = test_unit_id();
    let graph = graph_with_units(vec![workload_with_recovery(id_a, vec![rr(id_b)]), workload_with_recovery(id_b, vec![])]);
    let id_c = test_unit_id();
    let unit_c_self = workload_with_recovery(id_c, vec![rr(id_c)]);
    let result = DefaultCycleDetector::new().would_cycle(&graph, &unit_c_self);
    assert!(result.is_err(), "self-loop should be detected as a cycle by would_cycle");
    let cycle = result.unwrap_err();
    assert!(cycle.chain.contains(&id_c));
}

#[test]
fn test_would_cycle_creates_cycle_with_existing() {
    let (a, b, c) = (UnitId(1), UnitId(2), UnitId(3));
    let graph = graph_with_units(vec![
        workload_with_recovery(a, vec![rr(b)]),
        workload_with_recovery(b, vec![rr(c)]),
        workload_with_recovery(c, vec![]),
    ]);
    let unit_d = workload_with_recovery(UnitId(4), vec![rr(a)]);
    let result = DefaultCycleDetector::new().would_cycle(&graph, &unit_d);
    assert!(result.is_ok(), "D->A with no path from A to D should not create a cycle");
}

#[test]
fn test_normalize_cycle() {
    let id_a = UnitId(1);
    let id_b = UnitId(2);
    assert_eq!(normalize_cycle(vec![id_b, id_a]).chain, vec![id_a, id_b]);
    assert_eq!(normalize_cycle(vec![id_a, id_b]).chain, vec![id_a, id_b]);
    let id_c = UnitId(3);
    assert_eq!(normalize_cycle(vec![id_c, id_a, id_b]).chain, vec![id_a, id_b, id_c]);
}

// -- Additional cases --------------------------------------------------------

#[test]
fn would_cycle_closing_an_existing_path() {
    let (a, b) = (UnitId(1), UnitId(2));
    let graph = graph_with_units(vec![workload_with_recovery(a, vec![rr(b)])]);
    // A new B depending on A closes A -> B -> A.
    let unit_b = workload_with_recovery(b, vec![rr(a)]);
    let result = DefaultCycleDetector::new().would_cycle(&graph, &unit_b);
    let cycle = result.expect_err("cycle");
    assert_eq!(cycle.chain, vec![a, b]);
}

#[test]
fn dependencies_on_missing_units_are_ignored() {
    let graph = graph_with_units(vec![workload_with_recovery(UnitId(1), vec![rr(UnitId(99))])]);
    assert!(DefaultCycleDetector::new().detect_cycles(&graph).is_empty());
}

#[test]
fn every_unit_on_a_cycle_is_reported() {
    // 1 -> 2 -> 1 is closed by a back edge; 3 lies on 1 -> 3 -> 2 -> 1,
    // reached by the search only through a unit it has already finished.
    let (a, b, c) = (UnitId(1), UnitId(2), UnitId(3));
    let graph = graph_with_units(vec![
        workload_with_recovery(a, vec![rr(b), rr(c)]),
        workload_with_recovery(b, vec![rr(a)]),
        workload_with_recovery(c, vec![rr(b)]),
    ]);
    let cycles = DefaultCycleDetector::new().detect_cycles(&graph);
    assert_eq!(cycles.len(), 2);
    assert_eq!(cycles[0].chain, vec![a, b]);
    assert_eq!(cycles[1].chain, vec![a, c, b]);
    for id in [a, b, c] {
        assert!(cycles.iter().any(|cy| cy.chain.contains(&id)));
    }
}

#[test]
fn cycle_through_a_unit() {
    let (a, b, c, d) = (UnitId(1), UnitId(2), UnitId(3), UnitId(4));
    let graph = graph_with_units(vec![
        workload_with_recovery(a, vec![rr(b), rr(c)]),
        workload_with_recovery(b, vec![rr(a)]),
        workload_with_recovery(c, vec![rr(b)]),
        workload_with_recovery(d, vec![rr(a)]),
    ]);
    let detector = DefaultCycleDetector::new();
    assert_eq!(detector.cycle_through(&graph, c).expect("c is on a cycle").chain, vec![a, c, b]);
    assert_eq!(detector.cycle_through(&graph, b).expect("b is on a cycle").chain, vec![a, b]);
    assert!(detector.cycle_through(&graph, d).is_none());
    assert!(detector.cycle_through(&graph, UnitId(99)).is_none());
}

fn cycles_through<D: CycleDetector>(detector: &D, graph: &GraphSnapshot) -> usize {
    detector.detect_cycles(graph).len()
}

#[test]
fn default_detector_serves_through_the_trait() {
    let (a, b) = (UnitId(1), UnitId(2));
    let graph = graph_with_units(vec![workload_with_recovery(a, vec![rr(b)]), workload_with_recovery(b, vec![rr(a)])]);
    assert_eq!(cycles_through(&DefaultCycleDetector::new(), &graph), 1);
    let w = workload_with_recovery(UnitId(3), vec![rr(a)]);
    assert!(CycleDetector::would_cycle(&DefaultCycleDetector::new(), &graph, &w).is_ok());
}
