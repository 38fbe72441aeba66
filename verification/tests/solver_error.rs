use taba::common::{NodeId, UnitId};
use taba::model::Capability;
use taba::solver::error::SolverError;
use taba::solver::placement::{Conflict, ConflictStatus, RecoveryCycle};

fn uid() -> UnitId {
    UnitId(uuid::Uuid::new_v4().as_u128())
}

#[test]
fn test_solver_error_no_capable_node() {
    let err = SolverError::NoCapableNode { unit: uid(), unmet: vec![Capability::new("storage", "redis")] };
    assert!(err.message().contains("no capable node"));
    let cloned = err.clone();
    assert_eq!(err, cloned);
}

#[test]
fn test_solver_error_unresolved_conflict() {
    let conflict = Conflict {
        units: vec![uid()],
        capability: Capability::new("storage", "redis"),
        status: ConflictStatus::Unresolved,
    };
    let err = SolverError::UnresolvedConflict { conflict: conflict.clone() };
    assert!(err.message().contains("unresolved conflict"));
    assert_eq!(err, SolverError::UnresolvedConflict { conflict });
}

#[test]
fn test_solver_error_cyclic_dependency() {
    let cycle = RecoveryCycle { chain: vec![uid(), uid()] };
    let err = SolverError::CyclicDependency { cycle: cycle.clone() };
    assert!(err.message().contains("cyclic recovery dependency"));
    assert_eq!(err, SolverError::CyclicDependency { cycle });
}

#[test]
fn test_solver_error_tolerance_violation() {
    let err = SolverError::ToleranceViolation {
        unit: uid(),
        constraint: "max_latency".to_string(),
        reason: "no node within 100ms".to_string(),
    };
    assert!(err.message().contains("tolerance violation"));
}

#[test]
fn test_solver_error_broken_supersession() {
    let err = SolverError::BrokenSupersession { reason: "missing predecessor".to_string() };
    assert!(err.message().contains("broken supersession"));
}

#[test]
fn test_solver_error_security() {
    let err = SolverError::Security { reason: "taint check failed".to_string() };
    assert!(err.message().contains("security error"));
}

#[test]
fn test_solver_error_policy_conflict() {
    let err = SolverError::PolicyConflict { units: vec![uid(), uid()], reason: "conflicting decisions".to_string() };
    assert!(err.message().contains("policy conflict"));
}

#[test]
fn test_solver_error_stale_snapshot() {
    let err = SolverError::StaleSnapshot { expected_generation: 5, actual_generation: 3 };
    assert!(err.message().contains("stale snapshot"));
}

#[test]
fn test_solver_error_internal() {
    let err = SolverError::InternalError { reason: "unexpected state".to_string() };
    assert!(err.message().contains("internal solver error"));
}

#[test]
fn test_solver_error_implements_std_error() {
    // The error's text comes from `message`, the library's rendering.
    let err = SolverError::InternalError { reason: "test".to_string() };
    assert_eq!(err.message(), "internal solver error: test");
}

#[test]
fn test_solver_error_with_node_id_unused_but_imported() {
    let _node = NodeId(uuid::Uuid::new_v4().as_u128());
}

// -- Additional cases --------------------------------------------------------

#[test]
fn messages_render_debug_text() {
    let err = SolverError::NoCapableNode {
        unit: UnitId(1),
        unmet: vec![Capability::new("storage", "redis"), Capability::new("a\"b", "c")],
    };
    assert_eq!(
        err.message(),
        "no capable node for unit UnitId(00000000-0000-0000-0000-000000000001): unmet capabilities [Capability { cap_type: \"storage\", name: \"redis\", purpose: None }, Capability { cap_type: \"a\\\"b\", name: \"c\", purpose: None }]"
    );
    let err = SolverError::StaleSnapshot { expected_generation: 5, actual_generation: 3 };
    assert_eq!(err.message(), "stale snapshot: expected generation 5, actual 3");
    let err = SolverError::PolicyConflict { units: vec![], reason: "r".to_string() };
    assert_eq!(err.message(), "policy conflict between units []: r");
    let err = SolverError::CyclicDependency { cycle: RecoveryCycle { chain: vec![UnitId(2)] } };
    assert_eq!(
        err.message(),
        "cyclic recovery dependency: RecoveryCycle { chain: [UnitId(00000000-0000-0000-0000-000000000002)] }"
    );
    let mut cap = Capability::new("s", "n");
    cap.purpose = Some("p".to_string());
    let err = SolverError::UnresolvedConflict {
        conflict: Conflict { units: vec![UnitId(3)], capability: cap, status: ConflictStatus::Ambiguous },
    };
    assert_eq!(
        err.message(),
        "unresolved conflict: Conflict { units: [UnitId(00000000-0000-0000-0000-000000000003)], capability: Capability { cap_type: \"s\", name: \"n\", purpose: Some(\"p\") }, status: Ambiguous }"
    );
    let err = SolverError::ToleranceViolation { unit: UnitId(4), constraint: "c".to_string(), reason: "r".to_string() };
    assert_eq!(err.message(), "tolerance violation for unit UnitId(00000000-0000-0000-0000-000000000004): c (r)");
}
