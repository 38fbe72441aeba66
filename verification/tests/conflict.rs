use taba::common::{TrustDomainId, UnitId};
use taba::harness::builder::WorkloadUnitBuilder;
use taba::model::{Capability, ConflictTuple, GraphEntry, GraphSnapshot, PolicyChain, PolicyVersion, Unit};
use taba::solver::conflict::{ConflictDetector, DefaultConflictDetector};
use taba::solver::error::SolverError;
use taba::solver::placement::ConflictStatus;

fn test_unit_id() -> UnitId {
    UnitId(uuid::Uuid::new_v4().as_u128())
}

fn workload_with_needs(id: UnitId, needs: Vec<Capability>) -> Unit {
    Unit::Workload(WorkloadUnitBuilder::new().with_id(id).with_needs(needs).build())
}

fn workload_with_provides(id: UnitId, provides: Vec<Capability>) -> Unit {
    Unit::Workload(WorkloadUnitBuilder::new().with_id(id).with_provides(provides).build())
}

fn entries(units: Vec<Unit>) -> Vec<GraphEntry> {
    let mut e: Vec<GraphEntry> = units.into_iter().map(|unit| GraphEntry { unit, archived: false }).collect();
    e.sort_by_key(|g| g.unit.id());
    e
}

fn graph_with_units(units: Vec<Unit>) -> GraphSnapshot {
    GraphSnapshot { entries: entries(units), policy_chains: Vec::new() }
}

fn tuple(units: &[UnitId], cap: &Capability) -> ConflictTuple {
    let mut ids = units.to_vec();
    ids.sort();
    ids.dedup();
    ConflictTuple { unit_ids: ids, capability_name: cap.cap_type.clone() }
}

fn policy_version(policy_id: UnitId, revoked: bool) -> PolicyVersion {
    PolicyVersion { policy_id, revoked }
}

fn empty_graph() -> GraphSnapshot {
    GraphSnapshot { entries: Vec::new(), policy_chains: Vec::new() }
}

#[test]
fn test_detect_conflicts_none() {
    let unit = workload_with_provides(test_unit_id(), vec![Capability::new("compute", "http")]);
    let conflicts = DefaultConflictDetector::new().detect_conflicts(&graph_with_units(vec![unit]));
    assert!(conflicts.is_empty(), "clean graph should have no conflicts");
}

#[test]
fn test_detect_conflicts_satisfied_need() {
    let id_a = test_unit_id();
    let id_b = test_unit_id();
    let td = TrustDomainId(uuid::Uuid::new_v4().as_u128());
    let unit_a = Unit::Workload(
        WorkloadUnitBuilder::new().with_id(id_a).with_trust_domain(td).with_needs(vec![Capability::new("storage", "redis")]).build(),
    );
    let unit_b = Unit::Workload(
        WorkloadUnitBuilder::new()
            .with_id(id_b)
            .with_trust_domain(td)
            .with_provides(vec![Capability::new("storage", "redis")])
            .build(),
    );
    let conflicts = DefaultConflictDetector::new().detect_conflicts(&graph_with_units(vec![unit_a, unit_b]));
    assert!(conflicts.is_empty(), "satisfied need should not produce a conflict");
}

#[test]
fn test_detect_conflicts_missing_capability() {
    let id_a = test_unit_id();
    let unit_a = workload_with_needs(id_a, vec![Capability::new("storage", "redis")]);
    let conflicts = DefaultConflictDetector::new().detect_conflicts(&graph_with_units(vec![unit_a]));
    assert_eq!(conflicts.len(), 1);
    assert_eq!(conflicts[0].units, vec![id_a]);
    assert_eq!(conflicts[0].capability, Capability::new("storage", "redis"));
    assert_eq!(conflicts[0].status, ConflictStatus::Unresolved);
}

#[test]
fn test_detect_conflicts_purpose_mismatch() {
    let id_a = test_unit_id();
    let id_b = test_unit_id();
    let need = Capability::with_purpose("storage", "redis", "analytics");
    let unit_a = workload_with_needs(id_a, vec![need]);
    let unit_b = workload_with_provides(id_b, vec![Capability::new("storage", "redis")]);
    let conflicts = DefaultConflictDetector::new().detect_conflicts(&graph_with_units(vec![unit_a, unit_b]));
    assert_eq!(conflicts.len(), 1, "purpose mismatch should produce a conflict");
    assert_eq!(conflicts[0].status, ConflictStatus::Unresolved);
}

#[test]
fn test_detect_conflicts_cross_domain() {
    let id_a = test_unit_id();
    let id_b = test_unit_id();
    let unit_a = Unit::Workload(
        WorkloadUnitBuilder::new()
            .with_id(id_a)
            .with_needs(vec![Capability::new("storage", "redis")])
            .with_trust_domain(TrustDomainId(1))
            .build(),
    );
    let unit_b = Unit::Workload(
        WorkloadUnitBuilder::new()
            .with_id(id_b)
            .with_provides(vec![Capability::new("storage", "redis")])
            .with_trust_domain(TrustDomainId(2))
            .build(),
    );
    let conflicts = DefaultConflictDetector::new().detect_conflicts(&graph_with_units(vec![unit_a, unit_b]));
    assert_eq!(conflicts.len(), 1, "cross-domain without policy should produce a conflict");
    assert_eq!(conflicts[0].status, ConflictStatus::Unresolved);
}

#[test]
fn test_detect_conflicts_resolved_by_policy() {
    let id_a = test_unit_id();
    let id_b = test_unit_id();
    let unit_a = Unit::Workload(
        WorkloadUnitBuilder::new()
            .with_id(id_a)
            .with_needs(vec![Capability::new("storage", "redis")])
            .with_trust_domain(TrustDomainId(1))
            .build(),
    );
    let unit_b = Unit::Workload(
        WorkloadUnitBuilder::new()
            .with_id(id_b)
            .with_provides(vec![Capability::new("storage", "redis")])
            .with_trust_domain(TrustDomainId(2))
            .build(),
    );
    let cap = Capability::new("storage", "redis");
    let t = tuple(&[id_a, id_b], &cap);
    let chain = PolicyChain { versions: vec![policy_version(test_unit_id(), false)] };
    let graph = GraphSnapshot { entries: entries(vec![unit_a, unit_b]), policy_chains: vec![(t, chain)] };
    let conflicts = DefaultConflictDetector::new().detect_conflicts(&graph);
    assert!(conflicts.is_empty(), "cross-domain conflict resolved by policy should not be reported");
}

#[test]
fn test_detect_conflicts_sorted() {
    let id_a = UnitId(1);
    let id_b = UnitId(2);
    let unit_a = workload_with_needs(id_a, vec![Capability::new("storage", "redis")]);
    let unit_b = workload_with_needs(id_b, vec![Capability::new("compute", "http")]);
    let conflicts = DefaultConflictDetector::new().detect_conflicts(&graph_with_units(vec![unit_a, unit_b]));
    assert_eq!(conflicts.len(), 2);
    assert_eq!(conflicts[0].units[0], id_a, "sorted by unit ID");
    assert_eq!(conflicts[1].units[0], id_b);
}

#[test]
fn test_check_supersession_no_chain() {
    let units = vec![test_unit_id()];
    let cap = Capability::new("storage", "redis");
    let result = DefaultConflictDetector::new().check_supersession(&empty_graph(), &units, &cap);
    assert!(result.is_ok());
    let chain = result.unwrap();
    assert!(chain.policies.is_empty(), "no chain should yield empty policies");
}

#[test]
fn test_check_supersession_valid() {
    let units = vec![test_unit_id()];
    let cap = Capability::new("storage", "redis");
    let policy_id = test_unit_id();
    let chain = PolicyChain { versions: vec![policy_version(policy_id, false)] };
    let graph = GraphSnapshot { entries: Vec::new(), policy_chains: vec![(tuple(&units, &cap), chain)] };
    let result = DefaultConflictDetector::new().check_supersession(&graph, &units, &cap);
    assert!(result.is_ok());
    assert_eq!(result.unwrap().policies, vec![policy_id]);
}

#[test]
fn test_check_supersession_ambiguous() {
    let units = vec![test_unit_id()];
    let cap = Capability::new("storage", "redis");
    let chain = PolicyChain { versions: vec![policy_version(test_unit_id(), false), policy_version(test_unit_id(), false)] };
    let graph = GraphSnapshot { entries: Vec::new(), policy_chains: vec![(tuple(&units, &cap), chain)] };
    let result = DefaultConflictDetector::new().check_supersession(&graph, &units, &cap);
    assert!(matches!(result, Err(SolverError::PolicyConflict { .. })), "got: {result:?}");
}

#[test]
fn test_check_supersession_all_revoked() {
    let units = vec![test_unit_id()];
    let cap = Capability::new("storage", "redis");
    let policy_a = test_unit_id();
    let policy_b = test_unit_id();
    let chain = PolicyChain { versions: vec![policy_version(policy_a, true), policy_version(policy_b, true)] };
    let graph = GraphSnapshot { entries: Vec::new(), policy_chains: vec![(tuple(&units, &cap), chain)] };
    let result = DefaultConflictDetector::new().check_supersession(&graph, &units, &cap);
    assert!(result.is_ok(), "all revoked should return Ok with empty active");
    let chain = result.unwrap();
    assert_eq!(chain.policies.len(), 2, "all policy IDs should be present");
    assert!(chain.policies.contains(&policy_a));
    assert!(chain.policies.contains(&policy_b));
}

#[test]
fn test_check_supersession_one_revoked() {
    let units = vec![test_unit_id()];
    let cap = Capability::new("storage", "redis");
    let policy_a = test_unit_id();
    let policy_b = test_unit_id();
    let chain = PolicyChain { versions: vec![policy_version(policy_a, true), policy_version(policy_b, false)] };
    let graph = GraphSnapshot { entries: Vec::new(), policy_chains: vec![(tuple(&units, &cap), chain)] };
    let result = DefaultConflictDetector::new().check_supersession(&graph, &units, &cap);
    assert!(result.is_ok());
    assert_eq!(result.unwrap().policies, vec![policy_a, policy_b], "ordered oldest to newest");
}

// -- Additional cases --------------------------------------------------------

#[test]
fn revoked_and_ambiguous_statuses() {
    let id_a = UnitId(10);
    let cap = Capability::new("storage", "redis");
    let unit_a = workload_with_needs(id_a, vec![cap.clone()]);
    let revoked = PolicyChain { versions: vec![policy_version(UnitId(90), true)] };
    let graph = GraphSnapshot { entries: entries(vec![unit_a]), policy_chains: vec![(tuple(&[id_a], &cap), revoked)] };
    let conflicts = DefaultConflictDetector::new().detect_conflicts(&graph);
    assert_eq!(conflicts.len(), 1);
    assert_eq!(conflicts[0].status, ConflictStatus::Revoked);

    let unit_a = workload_with_needs(id_a, vec![cap.clone()]);
    let ambiguous = PolicyChain { versions: vec![policy_version(UnitId(90), false), policy_version(UnitId(91), false)] };
    let graph = GraphSnapshot { entries: entries(vec![unit_a]), policy_chains: vec![(tuple(&[id_a], &cap), ambiguous)] };
    let conflicts = DefaultConflictDetector::new().detect_conflicts(&graph);
    assert_eq!(conflicts.len(), 1);
    assert_eq!(conflicts[0].status, ConflictStatus::Ambiguous);
}

#[test]
fn archived_providers_do_not_count() {
    let id_a = UnitId(1);
    let id_b = UnitId(2);
    let cap = Capability::new("storage", "redis");
    let graph = GraphSnapshot {
        entries: vec![
            GraphEntry { unit: workload_with_needs(id_a, vec![cap.clone()]), archived: false },
            GraphEntry { unit: workload_with_provides(id_b, vec![cap.clone()]), archived: true },
        ],
        policy_chains: Vec::new(),
    };

    let conflicts = DefaultConflictDetector::new().detect_conflicts(&graph);
    assert_eq!(conflicts.len(), 1);
}

#[test]
fn ambiguous_chain_reason() {
    let units = vec![UnitId(1)];
    let cap = Capability::new("storage", "redis");
    let chain = PolicyChain { versions: vec![policy_version(UnitId(5), false), policy_version(UnitId(6), false)] };
    let graph = GraphSnapshot { entries: Vec::new(), policy_chains: vec![(tuple(&units, &cap), chain)] };
    match DefaultConflictDetector::new().check_supersession(&graph, &units, &cap) {
        Err(SolverError::PolicyConflict { units: u, reason }) => {
            assert_eq!(u, units);
            assert!(reason.contains('2'), "{reason}");
        }
        other => panic!("unexpected {other:?}"),
    }
}

fn count_through<D: ConflictDetector>(detector: &D, graph: &GraphSnapshot) -> usize {
    detector.detect_conflicts(graph).len()
}

#[test]
fn default_conflict_detector_serves_through_the_trait() {
    let graph = graph_with_units(vec![workload_with_needs(test_unit_id(), vec![Capability::new("storage", "nowhere")])]);
    let detector = DefaultConflictDetector::new();
    assert_eq!(count_through(&detector, &graph), detector.detect_conflicts(&graph).len());
    assert_eq!(count_through(&detector, &graph), 1);
}
