use taba::common::{NodeId, UnitId};
use taba::harness::builder::{NodeCapabilitySetBuilder, WorkloadUnitBuilder};
use taba::model::{Capability, GraphEntry, GraphSnapshot, NodeCapabilitySet, RecoveryRelationship, RuntimeCapability, Unit};
use taba::solver::error::SolverError;
use taba::solver::membership::{MembershipSnapshot, NodeHealth};
use taba::solver::solve::{DefaultSolver, Solver};

fn id() -> u128 {
    uuid::Uuid::new_v4().as_u128()
}

fn test_node_id() -> NodeId {
    NodeId(id())
}

fn test_unit_id() -> UnitId {
    UnitId(id())
}

fn empty_graph() -> GraphSnapshot {
    GraphSnapshot { entries: Vec::new(), policy_chains: Vec::new() }
}

fn empty_membership() -> MembershipSnapshot {
    MembershipSnapshot::empty(0)
}

fn single_node_membership(caps: NodeCapabilitySet) -> (NodeId, MembershipSnapshot) {
    let node_id = test_node_id();
    (node_id, MembershipSnapshot::single_node(node_id, caps))
}

fn workload_with(unit_id: UnitId) -> Unit {
    Unit::Workload(WorkloadUnitBuilder::new().with_id(unit_id).build())
}

fn graph_with_units(units: Vec<Unit>) -> GraphSnapshot {
    let mut entries: Vec<GraphEntry> = units.into_iter().map(|unit| GraphEntry { unit, archived: false }).collect();
    entries.sort_by_key(|e| e.unit.id());
    GraphSnapshot { entries, policy_chains: Vec::new() }
}

#[test]
fn test_solve_empty_graph() {
    let solver = DefaultSolver::new();
    let result = solver.solve(&empty_graph(), &empty_membership());
    assert!(result.is_clean(), "empty graph should produce clean result");
}

#[test]
fn test_solve_single_unit_single_node() {
    let unit_id = test_unit_id();
    let unit = workload_with(unit_id);
    let (node_id, membership) = single_node_membership(NodeCapabilitySetBuilder::new().build());
    let graph = graph_with_units(vec![unit]);
    let result = DefaultSolver::new().solve(&graph, &membership);
    assert_eq!(result.placements.len(), 1);
    assert_eq!(result.placements[0].unit, unit_id);
    assert_eq!(result.placements[0].node, node_id);
    assert!(result.unplaceable.is_empty());
    assert!(result.conflicts.is_empty());
}

#[test]
fn test_solve_no_capable_node() {
    let unit_id = test_unit_id();
    let unit = workload_with(unit_id);
    let caps = NodeCapabilitySetBuilder::new().with_runtimes(vec![RuntimeCapability::Wasm]).build();
    let (_node_id, membership) = single_node_membership(caps);
    let graph = graph_with_units(vec![unit]);
    let result = DefaultSolver::new().solve(&graph, &membership);
    assert!(result.placements.is_empty(), "no capable node should produce no placements");
    assert_eq!(result.unplaceable.len(), 1);
    assert_eq!(result.unplaceable[0].0, unit_id);
    assert!(
        matches!(result.unplaceable[0].1, SolverError::NoCapableNode { .. }),
        "should be NoCapableNode, got: {:?}",
        result.unplaceable[0].1
    );
}

#[test]
fn test_solve_deterministic_tiebreak() {
    let id_low = NodeId(1);
    let id_high = NodeId(2);
    let caps_low = NodeCapabilitySetBuilder::new().with_runtimes(vec![RuntimeCapability::Oci]).build();
    let caps_high = NodeCapabilitySetBuilder::new().with_runtimes(vec![RuntimeCapability::Oci]).build();
    let membership = MembershipSnapshot {
        nodes: vec![(id_high, caps_high, NodeHealth::Active), (id_low, caps_low, NodeHealth::Active)],
        generation: 1,
    };
    let graph = graph_with_units(vec![workload_with(test_unit_id())]);
    let result = DefaultSolver::new().solve(&graph, &membership);
    assert_eq!(result.placements.len(), 1);
    assert_eq!(result.placements[0].node, id_low, "lowest NodeId should win");
}

#[test]
fn test_solve_order_independent() {
    let id_a = UnitId(1);
    let id_b = UnitId(2);
    let unit_a = workload_with(id_a);
    let unit_b = workload_with(id_b);
    let graph_ab = graph_with_units(vec![unit_a.clone(), unit_b.clone()]);
    let graph_ba = graph_with_units(vec![unit_b, unit_a]);
    let membership = MembershipSnapshot::single_node(test_node_id(), NodeCapabilitySetBuilder::new().build());
    let solver = DefaultSolver::new();
    let result_ab = solver.solve(&graph_ab, &membership);
    let result_ba = solver.solve(&graph_ba, &membership);
    assert_eq!(result_ab, result_ba, "same units in different order should produce identical results");
}

#[test]
fn solve_entry_order_does_not_change_result() {
    let unit_a = workload_with(UnitId(7));
    let unit_b = workload_with(UnitId(3));
    let graph_ab = GraphSnapshot {
        entries: vec![GraphEntry { unit: unit_a.clone(), archived: false }, GraphEntry { unit: unit_b.clone(), archived: false }],
        policy_chains: Vec::new(),
    };
    let graph_ba = GraphSnapshot {
        entries: vec![GraphEntry { unit: unit_b, archived: false }, GraphEntry { unit: unit_a, archived: false }],
        policy_chains: Vec::new(),
    };
    let membership = MembershipSnapshot::single_node(NodeId(5), NodeCapabilitySetBuilder::new().build());
    let solver = DefaultSolver::new();
    let r1 = solver.solve(&graph_ab, &membership);
    let r2 = solver.solve(&graph_ba, &membership);
    assert_eq!(r1, r2);
    assert_eq!(r1.placements[0].unit, UnitId(3));
    assert_eq!(r1.placements[1].unit, UnitId(7));
}

#[test]
fn test_solve_incremental_matches_full() {
    let unit_id = test_unit_id();
    let (_node_id, membership) = single_node_membership(NodeCapabilitySetBuilder::new().build());
    let graph = graph_with_units(vec![workload_with(unit_id)]);
    let solver = DefaultSolver::new();
    let full = solver.solve(&graph, &membership);
    let incremental = solver.solve_incremental(&graph, &membership, &vec![unit_id]);
    assert_eq!(incremental.placements.len(), 1);
    assert_eq!(incremental.placements[0], full.placements[0]);
}

#[test]
fn test_solve_incremental_filters() {
    let id_a = test_unit_id();
    let id_b = test_unit_id();
    let (_node_id, membership) = single_node_membership(NodeCapabilitySetBuilder::new().build());
    let graph = graph_with_units(vec![workload_with(id_a), workload_with(id_b)]);
    let incremental = DefaultSolver::new().solve_incremental(&graph, &membership, &vec![id_a]);
    assert_eq!(incremental.placements.len(), 1);
    assert_eq!(incremental.placements[0].unit, id_a);
}

#[test]
fn test_solve_multiple_units() {
    let id_a = test_unit_id();
    let id_b = test_unit_id();
    let (_node_id, membership) = single_node_membership(NodeCapabilitySetBuilder::new().build());
    let graph = graph_with_units(vec![workload_with(id_a), workload_with(id_b)]);
    let result = DefaultSolver::new().solve(&graph, &membership);
    assert_eq!(result.placements.len(), 2, "both units should be placed");
    let mut sorted_ids = [id_a, id_b];
    sorted_ids.sort();
    assert_eq!(result.placements[0].unit, sorted_ids[0]);
    assert_eq!(result.placements[1].unit, sorted_ids[1]);
}

#[test]
fn test_solve_never_panics_on_empty_membership() {
    let graph = graph_with_units(vec![workload_with(test_unit_id())]);
    let result = DefaultSolver::new().solve(&graph, &empty_membership());
    assert!(result.placements.is_empty());
    assert_eq!(result.unplaceable.len(), 1);
}

#[test]
fn test_solve_cyclic_dependency() {
    let id_a = UnitId(1);
    let id_b = UnitId(2);
    let mut w_a = WorkloadUnitBuilder::new().with_id(id_a).build();
    w_a.recovery_relationships = vec![RecoveryRelationship { depends_on: id_b }];
    let mut w_b = WorkloadUnitBuilder::new().with_id(id_b).build();
    w_b.recovery_relationships = vec![RecoveryRelationship { depends_on: id_a }];
    let (_node_id, membership) = single_node_membership(NodeCapabilitySetBuilder::new().build());
    let graph = graph_with_units(vec![Unit::Workload(w_a), Unit::Workload(w_b)]);
    let result = DefaultSolver::new().solve(&graph, &membership);
    assert!(
        result.unplaceable.len() >= 2,
        "cyclic units should be unplaceable, got {} unplaceable",
        result.unplaceable.len()
    );
    for (_, err) in &result.unplaceable {
        assert!(matches!(err, SolverError::CyclicDependency { .. }), "should be CyclicDependency, got: {err:?}");
    }
}

#[test]
fn test_solve_unresolved_conflict() {
    let id_a = test_unit_id();
    let unit_a = Unit::Workload(
        WorkloadUnitBuilder::new().with_id(id_a).with_needs(vec![Capability::new("storage", "redis")]).build(),
    );
    let (_node_id, membership) = single_node_membership(NodeCapabilitySetBuilder::new().build());
    let graph = graph_with_units(vec![unit_a]);
    let result = DefaultSolver::new().solve(&graph, &membership);
    assert!(result.placements.is_empty(), "conflicted unit should not be placed");
    assert!(!result.conflicts.is_empty(), "conflicts should be reported");
    assert!(matches!(result.unplaceable[0].1, SolverError::UnresolvedConflict { .. }));
}

#[test]
fn solve_archived_entries_are_ignored() {
    let unit = workload_with(UnitId(9));
    let graph = GraphSnapshot { entries: vec![GraphEntry { unit, archived: true }], policy_chains: Vec::new() };
    let (_n, membership) = single_node_membership(NodeCapabilitySetBuilder::new().build());
    let result = DefaultSolver::new().solve(&graph, &membership);
    assert!(result.is_clean());
}

#[test]
fn solve_never_places_on_a_node_the_filter_excludes() {
    let u7 = UnitId(7);
    let graph = graph_with_units(vec![workload_with(u7)]);
    let n1 = NodeId(1);
    let n2 = NodeId(2);
    let membership = MembershipSnapshot {
        nodes: vec![
            (n1, NodeCapabilitySetBuilder::new().with_runtimes(vec![RuntimeCapability::OciRootless]).build(), NodeHealth::Active),
            (n2, NodeCapabilitySetBuilder::new().with_environment(Some("env:prod".to_string())).build(), NodeHealth::Active),
        ],
        generation: 1,
    };
    let result = DefaultSolver::new().solve(&graph, &membership);
    assert_eq!(result.placements.len(), 1);
    assert_eq!(result.placements[0].unit, u7);
    assert_eq!(result.placements[0].node, n1);
}

#[test]
fn solve_refuses_units_in_any_conflict() {
    let a = UnitId(11);
    let unit = Unit::Workload(WorkloadUnitBuilder::new().with_id(a).with_needs(vec![Capability::new("storage", "redis")]).build());
    let graph = graph_with_units(vec![unit]);
    let (_n, membership) = single_node_membership(NodeCapabilitySetBuilder::new().build());
    let result = DefaultSolver::new().solve(&graph, &membership);
    for c in &result.conflicts {
        for u in &c.units {
            assert!(result.placements.iter().all(|p| p.unit != *u));
        }
    }
    assert_eq!(result.unplaceable.len(), 1);
}

#[test]
fn solve_fails_closed_for_every_unit_on_a_cycle() {
    let (a, b, c) = (UnitId(1), UnitId(2), UnitId(3));
    let mut wa = WorkloadUnitBuilder::new().with_id(a).build();
    wa.recovery_relationships = vec![RecoveryRelationship { depends_on: b }, RecoveryRelationship { depends_on: c }];
    let mut wb = WorkloadUnitBuilder::new().with_id(b).build();
    wb.recovery_relationships = vec![RecoveryRelationship { depends_on: a }];
    let mut wc = WorkloadUnitBuilder::new().with_id(c).build();
    wc.recovery_relationships = vec![RecoveryRelationship { depends_on: b }];
    let graph = graph_with_units(vec![Unit::Workload(wa), Unit::Workload(wb), Unit::Workload(wc)]);
    let (_n, membership) = single_node_membership(NodeCapabilitySetBuilder::new().build());
    let result = DefaultSolver::new().solve(&graph, &membership);
    assert!(result.placements.is_empty(), "{result:?}");
    assert_eq!(result.unplaceable.len(), 3);
    for (u, err) in &result.unplaceable {
        match err {
            SolverError::CyclicDependency { cycle } => assert!(cycle.chain.contains(u)),
            other => panic!("unexpected {other:?}"),
        }
    }
}

#[test]
fn solving_twice_decides_the_same() {
    let (a, b, c) = (UnitId(1), UnitId(2), UnitId(3));
    let mut wb = WorkloadUnitBuilder::new().with_id(b).build();
    wb.recovery_relationships = vec![RecoveryRelationship { depends_on: c }];
    let mut wc = WorkloadUnitBuilder::new().with_id(c).build();
    wc.recovery_relationships = vec![RecoveryRelationship { depends_on: b }];
    let graph = graph_with_units(vec![workload_with(a), Unit::Workload(wb), Unit::Workload(wc)]);
    let (n, membership) = single_node_membership(NodeCapabilitySetBuilder::new().build());
    let solver = DefaultSolver::new();
    let first = solver.solve(&graph, &membership);
    let second = solver.solve(&graph, &membership);
    assert_eq!(format!("{first:?}"), format!("{second:?}"));
    assert_eq!(first.placements.len(), 1);
    assert_eq!((first.placements[0].unit, first.placements[0].node), (a, n));
    let failed: Vec<UnitId> = first.unplaceable.iter().map(|f| f.0).collect();
    assert_eq!(failed, vec![b, c]);
    let incremental = solver.solve_incremental(&graph, &membership, &vec![c]);
    assert!(incremental.placements.is_empty());
    assert_eq!(incremental.unplaceable.len(), 1);
    assert_eq!(format!("{:?}", incremental.unplaceable[0]), format!("{:?}", first.unplaceable[1]));
    assert_eq!(format!("{:?}", incremental.conflicts), format!("{:?}", first.conflicts));
}

#[test]
fn solve_node_order_does_not_change_result() {
    let graph = graph_with_units(vec![workload_with(UnitId(5)), workload_with(UnitId(6))]);
    let caps = NodeCapabilitySetBuilder::new().build();
    let (n1, n2) = (NodeId(11), NodeId(10));
    let forward = MembershipSnapshot {
        nodes: vec![(n1, caps.clone(), NodeHealth::Active), (n2, caps.clone(), NodeHealth::Active)],
        generation: 1,
    };
    let backward = MembershipSnapshot {
        nodes: vec![(n2, caps.clone(), NodeHealth::Active), (n1, caps, NodeHealth::Active)],
        generation: 1,
    };
    let solver = DefaultSolver::new();
    let a = solver.solve(&graph, &forward);
    let b = solver.solve(&graph, &backward);
    assert_eq!(a, b);
    assert!(a.placements.iter().all(|p| p.node == n2), "{a:?}");
}

fn solve_through<S: Solver>(solver: &S, graph: &GraphSnapshot, membership: &MembershipSnapshot) -> taba::solver::placement::SolverResult {
    solver.solve(graph, membership)
}

#[test]
fn default_solver_serves_through_the_trait() {
    let graph = graph_with_units(vec![workload_with(UnitId(8))]);
    let (_n, membership) = single_node_membership(NodeCapabilitySetBuilder::new().build());
    let solver = DefaultSolver::new();
    assert_eq!(solve_through(&solver, &graph, &membership), solver.solve(&graph, &membership));
    let inc = Solver::solve_incremental(&solver, &graph, &membership, &vec![UnitId(8)]);
    assert_eq!(inc, solver.solve(&graph, &membership));
}
