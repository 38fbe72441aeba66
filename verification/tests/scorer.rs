use taba::common::{AuthorId, NodeId, Ppm, TrustDomainId, UnitId};
use taba::harness::builder::{NodeCapabilitySetBuilder, WorkloadUnitBuilder};
use taba::model::{ArtifactType, GraphSnapshot, NodeCapabilitySet, PlainUnit, RuntimeCapability, Tolerances, Unit, UnitHeader};
use taba::solver::error::SolverError;
use taba::solver::membership::{MembershipSnapshot, NodeHealth};
use taba::solver::scorer::DefaultPlacementScorer;

fn id() -> u128 {
    uuid::Uuid::new_v4().as_u128()
}

fn test_node_id() -> NodeId {
    NodeId(id())
}

fn empty_graph() -> GraphSnapshot {
    GraphSnapshot { entries: Vec::new(), policy_chains: Vec::new() }
}

fn membership_with(node_id: NodeId, caps: NodeCapabilitySet, health: NodeHealth) -> MembershipSnapshot {
    MembershipSnapshot { nodes: vec![(node_id, caps, health)], generation: 1 }
}

fn oci_workload() -> Unit {
    Unit::Workload(WorkloadUnitBuilder::new().build())
}

fn oci_caps() -> NodeCapabilitySet {
    NodeCapabilitySetBuilder::new().with_runtimes(vec![RuntimeCapability::Oci]).build()
}

#[test]
fn test_score_exact_capability_match() {
    let node = test_node_id();
    let caps_compatible = NodeCapabilitySetBuilder::new().with_runtimes(vec![RuntimeCapability::OciRootless]).build();
    let mem_exact = membership_with(node, oci_caps(), NodeHealth::Active);
    let mem_compat = membership_with(node, caps_compatible, NodeHealth::Active);
    let scorer = DefaultPlacementScorer::new();
    let unit = oci_workload();
    let graph = empty_graph();
    let score_exact = scorer.score(&unit, &node, &graph, &mem_exact).expect("exact match should score");
    let score_compat = scorer.score(&unit, &node, &graph, &mem_compat).expect("compatible match should score");
    assert!(score_exact > score_compat, "exact match ({score_exact:?}) should score higher than compatible ({score_compat:?})");
}

#[test]
fn test_score_suspected_penalty() {
    let node = test_node_id();
    let mem_active = membership_with(node, oci_caps(), NodeHealth::Active);
    let mem_suspected = membership_with(node, oci_caps(), NodeHealth::Suspected);
    let scorer = DefaultPlacementScorer::new();
    let unit = oci_workload();
    let graph = empty_graph();
    let score_active = scorer.score(&unit, &node, &graph, &mem_active).expect("active should score");
    let score_suspected = scorer.score(&unit, &node, &graph, &mem_suspected).expect("suspected should score");
    assert!(score_active > score_suspected, "active ({score_active:?}) should score higher than suspected ({score_suspected:?})");
}

#[test]
fn test_score_no_capability_match() {
    let node = test_node_id();
    let caps = NodeCapabilitySetBuilder::new().with_runtimes(vec![RuntimeCapability::Wasm]).build();
    let membership = membership_with(node, caps, NodeHealth::Active);
    let result = DefaultPlacementScorer::new().score(&oci_workload(), &node, &empty_graph(), &membership);
    assert!(result.is_err(), "node without Oci runtime should return Err");
    assert!(matches!(result, Err(SolverError::NoCapableNode { .. })), "should be NoCapableNode, got: {result:?}");
}

#[test]
fn test_score_node_not_in_membership() {
    let node = test_node_id();
    let other = test_node_id();
    let membership = membership_with(other, oci_caps(), NodeHealth::Active);
    let result = DefaultPlacementScorer::new().score(&oci_workload(), &node, &empty_graph(), &membership);
    assert!(matches!(result, Err(SolverError::InternalError { .. })), "got: {result:?}");
}

#[test]
fn test_rank_nodes_sorted_descending() {
    let oci_node = test_node_id();
    let wasm_node = test_node_id();
    let oci_rootless_caps = NodeCapabilitySetBuilder::new().with_runtimes(vec![RuntimeCapability::OciRootless]).build();
    let membership = MembershipSnapshot {
        nodes: vec![(oci_node, oci_caps(), NodeHealth::Active), (wasm_node, oci_rootless_caps, NodeHealth::Active)],
        generation: 1,
    };
    let ranked = DefaultPlacementScorer::new().rank_nodes(&oci_workload(), &empty_graph(), &membership);
    assert_eq!(ranked.len(), 2);
    assert_eq!(ranked[0].0, oci_node, "exact match should be first");
    assert_eq!(ranked[1].0, wasm_node, "compatible match should be second");
    assert!(ranked[0].1 > ranked[1].1);
}

#[test]
fn test_rank_nodes_tiebreak() {
    let id_low = NodeId(1);
    let id_high = NodeId(2);
    let membership = MembershipSnapshot {
        nodes: vec![(id_high, oci_caps(), NodeHealth::Active), (id_low, oci_caps(), NodeHealth::Active)],
        generation: 1,
    };
    let ranked = DefaultPlacementScorer::new().rank_nodes(&oci_workload(), &empty_graph(), &membership);
    assert_eq!(ranked.len(), 2);
    assert_eq!(ranked[0].1, ranked[1].1, "scores should be equal");
    assert_eq!(ranked[0].0, id_low, "lower NodeId should come first");
    assert_eq!(ranked[1].0, id_high);
}

#[test]
fn test_rank_nodes_excludes_unable() {
    let oci_node = test_node_id();
    let wasm_node = test_node_id();
    let wasm_caps = NodeCapabilitySetBuilder::new().with_runtimes(vec![RuntimeCapability::Wasm]).build();
    let membership = MembershipSnapshot {
        nodes: vec![(oci_node, oci_caps(), NodeHealth::Active), (wasm_node, wasm_caps, NodeHealth::Active)],
        generation: 1,
    };
    let ranked = DefaultPlacementScorer::new().rank_nodes(&oci_workload(), &empty_graph(), &membership);
    assert_eq!(ranked.len(), 1, "only Oci node should be ranked");
    assert_eq!(ranked[0].0, oci_node);
}

#[test]
fn test_score_non_workload_unit() {
    let node = test_node_id();
    let membership = membership_with(node, NodeCapabilitySetBuilder::new().build(), NodeHealth::Active);
    let policy = PlainUnit {
        header: UnitHeader { id: UnitId(id()), author: AuthorId(id()), trust_domain: TrustDomainId(id()) },
        needs: vec![],
        provides: vec![],
    };
    let result = DefaultPlacementScorer::new().score(&Unit::Policy(policy), &node, &empty_graph(), &membership);
    assert!(result.is_ok(), "non-workload should score on any node");
}

#[test]
fn scenario_latency_meets_tolerance_scores_higher() {
    let node_good = test_node_id();
    let node_bad = test_node_id();
    let caps_good = NodeCapabilitySetBuilder::new()
        .with_runtimes(vec![RuntimeCapability::Oci])
        .with_custom_tags(vec![("latency".to_string(), "30ms".to_string())])
        .build();
    let caps_bad = NodeCapabilitySetBuilder::new()
        .with_runtimes(vec![RuntimeCapability::Oci])
        .with_custom_tags(vec![("latency".to_string(), "100ms".to_string())])
        .build();
    let mut workload = WorkloadUnitBuilder::new().build();
    workload.tolerates = Tolerances { max_latency_ms: Some(50), failure_modes: Vec::new() };
    let unit = Unit::Workload(workload);
    let membership = MembershipSnapshot {
        nodes: vec![(node_good, caps_good, NodeHealth::Active), (node_bad, caps_bad, NodeHealth::Active)],
        generation: 1,
    };
    let scorer = DefaultPlacementScorer::new();
    let graph = empty_graph();
    let score_good = scorer.score(&unit, &node_good, &graph, &membership).expect("good node should score");
    let score_bad = scorer.score(&unit, &node_bad, &graph, &membership).expect("bad node should score");
    assert!(score_good > score_bad, "{score_good:?} vs {score_bad:?}");
}

#[test]
fn scenario_failure_mode_supported_scores_higher() {
    let node_good = test_node_id();
    let node_bad = test_node_id();
    let caps_good = NodeCapabilitySetBuilder::new()
        .with_runtimes(vec![RuntimeCapability::Oci])
        .with_custom_tags(vec![("supports_failure".to_string(), "restart".to_string())])
        .build();
    let caps_bad = NodeCapabilitySetBuilder::new()
        .with_runtimes(vec![RuntimeCapability::Oci])
        .with_custom_tags(vec![("supports_failure".to_string(), "crash".to_string())])
        .build();
    let mut workload = WorkloadUnitBuilder::new().build();
    workload.tolerates = Tolerances { max_latency_ms: None, failure_modes: vec!["restart".to_string()] };
    let unit = Unit::Workload(workload);
    let membership = MembershipSnapshot {
        nodes: vec![(node_good, caps_good, NodeHealth::Active), (node_bad, caps_bad, NodeHealth::Active)],
        generation: 1,
    };
    let scorer = DefaultPlacementScorer::new();
    let graph = empty_graph();
    let score_good = scorer.score(&unit, &node_good, &graph, &membership).expect("good node should score");
    let score_bad = scorer.score(&unit, &node_bad, &graph, &membership).expect("bad node should score");
    assert!(score_good > score_bad, "{score_good:?} vs {score_bad:?}");
}

#[test]
fn scenario_no_tolerance_info_uses_neutral_score() {
    let node = test_node_id();
    let mut workload = WorkloadUnitBuilder::new().build();
    workload.tolerates = Tolerances { max_latency_ms: None, failure_modes: Vec::new() };
    let unit = Unit::Workload(workload);
    let membership = membership_with(node, oci_caps(), NodeHealth::Active);
    let score = DefaultPlacementScorer::new().score(&unit, &node, &empty_graph(), &membership).expect("should score");
    assert_eq!(score, Ppm(1_200_000), "neutral tolerance (no info) should produce score 1,200,000, got {score:?}");
}

#[test]
fn test_score_microvm_exact_match() {
    let node_id = test_node_id();
    let caps = NodeCapabilitySetBuilder::new().with_runtimes(vec![RuntimeCapability::MicroVm]).build();
    let mut unit = WorkloadUnitBuilder::new().build();
    unit.artifact.artifact_type = ArtifactType::MicroVm;
    let score = DefaultPlacementScorer.score(
        &Unit::Workload(unit),
        &node_id,
        &empty_graph(),
        &membership_with(node_id, caps, NodeHealth::Active),
    );
    assert!(score.expect("score should succeed").0 > 0, "exact MicroVm match should produce non-zero score");
}

#[test]
fn test_score_wasm_exact_match() {
    let node_id = test_node_id();
    let caps = NodeCapabilitySetBuilder::new().with_runtimes(vec![RuntimeCapability::Wasm]).build();
    let mut unit = WorkloadUnitBuilder::new().build();
    unit.artifact.artifact_type = ArtifactType::Wasm;
    let score = DefaultPlacementScorer.score(
        &Unit::Workload(unit),
        &node_id,
        &empty_graph(),
        &membership_with(node_id, caps, NodeHealth::Active),
    );
    assert!(score.expect("score should succeed").0 > 0, "exact Wasm match should produce non-zero score");
}

#[test]
fn test_score_native_exact_match() {
    let node_id = test_node_id();
    let caps = NodeCapabilitySetBuilder::new().with_runtimes(vec![RuntimeCapability::Native]).build();
    let mut unit = WorkloadUnitBuilder::new().build();
    unit.artifact.artifact_type = ArtifactType::Native;
    let score = DefaultPlacementScorer.score(
        &Unit::Workload(unit),
        &node_id,
        &empty_graph(),
        &membership_with(node_id, caps, NodeHealth::Active),
    );
    assert!(score.expect("score should succeed").0 > 0, "exact Native match should produce non-zero score");
}

// -- Additional cases --------------------------------------------------------

#[test]
fn parse_latency_values() {
    assert_eq!(DefaultPlacementScorer::parse_latency_ms("30ms"), Some(30));
    assert_eq!(DefaultPlacementScorer::parse_latency_ms("2s"), Some(2000));
    assert_eq!(DefaultPlacementScorer::parse_latency_ms("abc"), None);
    assert_eq!(DefaultPlacementScorer::parse_latency_ms(""), None);
}

#[test]
fn missing_node_reason_names_the_node() {
    let membership = MembershipSnapshot::empty(1);
    match DefaultPlacementScorer::new().score(&oci_workload(), &NodeId(1), &empty_graph(), &membership) {
        Err(SolverError::InternalError { reason }) => {
            assert_eq!(reason, "node NodeId(00000000-0000-0000-0000-000000000001) not in membership snapshot")
        }
        other => panic!("unexpected {other:?}"),
    }
}
