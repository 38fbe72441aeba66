use taba::common::{NodeId, Ppm, UnitId};
use taba::model::{Capability, ConflictTuple};
use taba::solver::error::SolverError;
use taba::solver::placement::{
    CapabilityMatch, CompositionResult, Conflict, ConflictReport, ConflictStatus, ConflictType, Placement,
    PlacementDecision, PlacementReason, PlacementScore, RecoveryCycle, ScalingDecision, SolverResult,
    SupersessionChain, UnmatchedNeed,
};

fn test_unit_id() -> UnitId {
    UnitId(uuid::Uuid::new_v4().as_u128())
}

fn test_node_id() -> NodeId {
    NodeId(uuid::Uuid::new_v4().as_u128())
}

#[test]
fn test_placement_construction() {
    let unit = test_unit_id();
    let node = test_node_id();
    let placement = Placement { unit, node, score: Ppm(750_000) };
    assert_eq!(placement.unit, unit);
    assert_eq!(placement.node, node);
    assert_eq!(placement.score, Ppm(750_000));
}

#[test]
fn test_placement_decision_to_placement() {
    let unit = test_unit_id();
    let node = test_node_id();
    let decision = PlacementDecision {
        unit_id: unit,
        target_node: node,
        score: PlacementScore {
            total: Ppm(800_000),
            resource_score: Ppm(300_000),
            latency_score: Ppm(200_000),
            affinity_score: Ppm(100_000),
            health_score: Ppm(200_000),
            suspected_penalty: Ppm(0),
        },
        reason: PlacementReason::BestScore,
    };
    let placement = decision.to_placement();
    assert_eq!(placement.unit, unit);
    assert_eq!(placement.node, node);
    assert_eq!(placement.score, Ppm(800_000));
}

#[test]
fn test_placement_score_zero() {
    let score = PlacementScore::zero();
    assert_eq!(score.total, Ppm(0));
    assert_eq!(score.resource_score, Ppm(0));
    assert_eq!(score.latency_score, Ppm(0));
    assert_eq!(score.affinity_score, Ppm(0));
    assert_eq!(score.health_score, Ppm(0));
    assert_eq!(score.suspected_penalty, Ppm(0));
}

#[test]
fn test_placement_reason_variants() {
    let node = test_node_id();
    let reasons = vec![
        PlacementReason::BestScore,
        PlacementReason::NodeFailure { failed_node: node },
        PlacementReason::PartitionTiebreak { winner: node, loser: test_node_id() },
        PlacementReason::ScaleUp,
    ];
    for (i, a) in reasons.iter().enumerate() {
        for (j, b) in reasons.iter().enumerate() {
            assert_eq!(i == j, a == b);
        }
    }
}

#[test]
fn test_solver_result_empty() {
    let result = SolverResult::empty();
    assert!(result.is_clean());
    assert!(result.placements.is_empty());
    assert!(result.unplaceable.is_empty());
    assert!(result.conflicts.is_empty());
}

#[test]
fn test_solver_result_not_clean_with_placements() {
    let mut result = SolverResult::empty();
    result.placements.push(Placement { unit: test_unit_id(), node: test_node_id(), score: Ppm(500_000) });
    assert!(!result.is_clean());
}

#[test]
fn test_solver_result_sort() {
    let id_low = UnitId(1);
    let id_high = UnitId(2);
    let mut result = SolverResult {
        placements: vec![
            Placement { unit: id_high, node: test_node_id(), score: Ppm(500_000) },
            Placement { unit: id_low, node: test_node_id(), score: Ppm(500_000) },
        ],
        unplaceable: vec![
            (id_high, SolverError::InternalError { reason: "test".to_string() }),
            (id_low, SolverError::InternalError { reason: "test".to_string() }),
        ],
        conflicts: Vec::new(),
    };
    result.sort();
    assert_eq!(result.placements[0].unit, id_low);
    assert_eq!(result.placements[1].unit, id_high);
    assert_eq!(result.unplaceable[0].0, id_low);
}

#[test]
fn test_conflict_construction() {
    let units = vec![test_unit_id(), test_unit_id()];
    let cap = Capability::new("storage", "redis");
    let conflict = Conflict { units: units.clone(), capability: cap.clone(), status: ConflictStatus::Unresolved };
    assert_eq!(conflict.units, units);
    assert_eq!(conflict.capability, cap);
    assert_eq!(conflict.status, ConflictStatus::Unresolved);
}

#[test]
fn test_conflict_status_variants() {
    let statuses = [ConflictStatus::Unresolved, ConflictStatus::Revoked, ConflictStatus::Ambiguous];
    for (i, a) in statuses.iter().enumerate() {
        for (j, b) in statuses.iter().enumerate() {
            assert_eq!(i == j, a == b);
        }
    }
}

#[test]
fn test_recovery_cycle_construction() {
    let chain = vec![test_unit_id(), test_unit_id(), test_unit_id()];
    let cycle = RecoveryCycle { chain: chain.clone() };
    assert_eq!(cycle.chain, chain);
}

#[test]
fn test_supersession_chain_construction() {
    let chain = SupersessionChain {
        conflict_units: vec![test_unit_id()],
        capability: Capability::new("storage", "redis"),
        policies: vec![test_unit_id(), test_unit_id()],
    };
    assert_eq!(chain.policies.len(), 2);
}

#[test]
fn test_composition_result_satisfied() {
    let result = CompositionResult {
        participants: vec![test_unit_id(), test_unit_id()],
        matches: vec![CapabilityMatch {
            needer: test_unit_id(),
            need: Capability::new("storage", "redis"),
            provider: test_unit_id(),
            provided: Capability::new("storage", "redis"),
        }],
        fully_satisfied: true,
        unmatched_needs: Vec::new(),
    };
    assert!(result.fully_satisfied);
    assert!(result.unmatched_needs.is_empty());
}

#[test]
fn test_composition_result_unsatisfied() {
    let result = CompositionResult {
        participants: vec![test_unit_id()],
        matches: Vec::new(),
        fully_satisfied: false,
        unmatched_needs: vec![UnmatchedNeed { unit_id: test_unit_id(), capability: Capability::new("storage", "redis") }],
    };
    assert!(!result.fully_satisfied);
    assert_eq!(result.unmatched_needs.len(), 1);
}

#[test]
fn test_conflict_report_construction() {
    let report = ConflictReport {
        conflict: ConflictTuple { unit_ids: vec![test_unit_id()], capability_name: "storage".to_string() },
        description: "missing provider".to_string(),
        conflict_type: ConflictType::AmbiguousMatch,
        has_policy: false,
    };
    assert_eq!(report.conflict_type, ConflictType::AmbiguousMatch);
    assert!(!report.has_policy);
}

#[test]
fn test_scaling_decision_construction() {
    let decision = ScalingDecision {
        unit_id: test_unit_id(),
        current_instances: 2,
        target_instances: 5,
        trigger_name: "high-cpu".to_string(),
        metric_value: Ppm(850_000),
        threshold: Ppm(800_000),
    };
    assert_eq!(decision.current_instances, 2);
    assert_eq!(decision.target_instances, 5);
    assert_eq!(decision.trigger_name, "high-cpu");
    assert_eq!(decision.metric_value, Ppm(850_000));
}

// -- Additional cases --------------------------------------------------------

#[test]
fn sort_orders_conflicts_by_units_then_capability() {
    let mut result = SolverResult::empty();
    result.conflicts.push(Conflict {
        units: vec![UnitId(2)],
        capability: Capability::new("a", "a"),
        status: ConflictStatus::Unresolved,
    });
    result.conflicts.push(Conflict {
        units: vec![UnitId(1)],
        capability: Capability::new("b", "b"),
        status: ConflictStatus::Unresolved,
    });
    result.conflicts.push(Conflict {
        units: vec![UnitId(1)],
        capability: Capability::new("a", "z"),
        status: ConflictStatus::Revoked,
    });
    result.sort();
    assert_eq!(result.conflicts[0].capability, Capability::new("a", "z"));
    assert_eq!(result.conflicts[1].capability, Capability::new("b", "b"));
    assert_eq!(result.conflicts[2].units, vec![UnitId(2)]);
    assert!(!result.is_clean());
}
