use taba::common::{AuthorId, TrustDomainId, UnitId};
use taba::harness::builder::WorkloadUnitBuilder;
use taba::model::{PromotionGateDef, PromotionMode, PromotionPolicy, PromotionTransition, Unit, UnitHeader};
use taba::solver::promotion::{DefaultPromotionEvaluator, PromotionCollision, PromotionResult};

fn id() -> u128 {
    uuid::Uuid::new_v4().as_u128()
}

fn test_unit_id() -> UnitId {
    UnitId(id())
}

fn test_header(unit_id: UnitId) -> UnitHeader {
    UnitHeader { id: unit_id, author: AuthorId(id()), trust_domain: TrustDomainId(id()) }
}

fn promotion_policy(policy_id: UnitId, unit_ref: UnitId, version: &str, target_env: &str) -> PromotionPolicy {
    PromotionPolicy {
        header: test_header(policy_id),
        unit_ref,
        version: version.to_string(),
        target_environment: target_env.to_string(),
    }
}

fn gate_def(transitions: Vec<PromotionTransition>) -> PromotionGateDef {
    PromotionGateDef { transitions }
}

fn workload() -> Unit {
    Unit::Workload(WorkloadUnitBuilder::new().build())
}

#[test]
fn test_evaluate_dev_no_promotion() {
    let unit = workload();
    let evaluator = DefaultPromotionEvaluator::new();
    let result = evaluator.evaluate(&unit, &vec![], &vec![]);
    assert!(result.authorized_envs.contains(&"env:dev".to_string()), "env:dev should always be authorized");
    assert!(result.blocked_envs.is_empty(), "nothing should be blocked");
}

#[test]
fn test_evaluate_prod_with_promotion() {
    let unit = workload();
    let unit_id = unit.id();
    let promotion = promotion_policy(test_unit_id(), unit_id, "v1", "env:prod");
    let evaluator = DefaultPromotionEvaluator::new();
    let result = evaluator.evaluate(&unit, &vec![promotion], &vec![]);
    assert!(result.authorized_envs.contains(&"env:prod".to_string()), "prod with promotion should be authorized");
    assert!(result.authorized_envs.contains(&"env:dev".to_string()), "env:dev should still be authorized");
    assert!(result.blocked_envs.is_empty(), "nothing should be blocked");
}

#[test]
fn test_evaluate_prod_without_promotion() {
    let unit = workload();
    let evaluator = DefaultPromotionEvaluator::new();
    let result = evaluator.evaluate(&unit, &vec![], &vec![]);
    assert!(result.authorized_envs.contains(&"env:dev".to_string()), "env:dev should be authorized");
    assert!(
        !result.authorized_envs.contains(&"env:prod".to_string()),
        "env:prod should not be authorized without promotion"
    );
}

#[test]
fn test_evaluate_gate_human_approval() {
    let unit = workload();
    let unit_id = unit.id();
    let promotion = promotion_policy(test_unit_id(), unit_id, "v1", "env:prod");
    let gate = gate_def(vec![PromotionTransition { to_env: "env:prod".to_string(), mode: PromotionMode::HumanApproval }]);
    let evaluator = DefaultPromotionEvaluator::new();
    let result = evaluator.evaluate(&unit, &vec![promotion], &vec![gate]);
    assert!(
        !result.authorized_envs.contains(&"env:prod".to_string()),
        "env:prod should not be auto-authorized with HumanApproval gate"
    );
    assert!(result.blocked_envs.iter().any(|(env, _)| env == "env:prod"), "env:prod should be blocked");
    let (_, reason) = result
        .blocked_envs
        .iter()
        .find(|(env, _)| env == "env:prod")
        .expect("env:prod should be in blocked_envs");
    assert!(reason.contains("human approval"), "reason should mention human approval: {reason}");
}

#[test]
fn test_evaluate_gate_auto() {
    let unit = workload();
    let unit_id = unit.id();
    let promotion = promotion_policy(test_unit_id(), unit_id, "v1", "env:prod");
    let gate = gate_def(vec![PromotionTransition { to_env: "env:prod".to_string(), mode: PromotionMode::Auto }]);
    let evaluator = DefaultPromotionEvaluator::new();
    let result = evaluator.evaluate(&unit, &vec![promotion], &vec![gate]);
    assert!(result.authorized_envs.contains(&"env:prod".to_string()), "env:prod should be authorized with Auto gate");
    assert!(result.blocked_envs.is_empty(), "nothing should be blocked");
}

#[test]
fn test_evaluate_multiple_promotions() {
    let unit = workload();
    let unit_id = unit.id();
    let promotions = vec![
        promotion_policy(test_unit_id(), unit_id, "v1", "env:test"),
        promotion_policy(test_unit_id(), unit_id, "v1", "env:staging"),
    ];
    let evaluator = DefaultPromotionEvaluator::new();
    let result = evaluator.evaluate(&unit, &promotions, &vec![]);
    assert!(result.authorized_envs.contains(&"env:dev".to_string()));
    assert!(result.authorized_envs.contains(&"env:test".to_string()));
    assert!(result.authorized_envs.contains(&"env:staging".to_string()));
    assert!(result.blocked_envs.is_empty());
}

#[test]
fn scenario_promote_to_prod_does_not_remove_from_test() {
    let unit = workload();
    let unit_id = unit.id();
    let promotions = vec![
        promotion_policy(test_unit_id(), unit_id, "v1", "env:test"),
        promotion_policy(test_unit_id(), unit_id, "v1", "env:prod"),
    ];
    let evaluator = DefaultPromotionEvaluator::new();
    let result = evaluator.evaluate(&unit, &promotions, &vec![]);
    assert!(
        result.authorized_envs.contains(&"env:test".to_string()),
        "env:test should still be authorized after promotion to env:prod"
    );
    assert!(result.authorized_envs.contains(&"env:prod".to_string()), "env:prod should be authorized after promotion");
    assert!(result.authorized_envs.contains(&"env:dev".to_string()), "env:dev should always be authorized");
    assert!(result.blocked_envs.is_empty(), "nothing should be blocked");
}

#[test]
fn test_evaluate_promotion_for_different_unit() {
    let unit = workload();
    let other_id = test_unit_id();
    let promotion = promotion_policy(test_unit_id(), other_id, "v1", "env:prod");
    let evaluator = DefaultPromotionEvaluator::new();
    let result = evaluator.evaluate(&unit, &vec![promotion], &vec![]);
    assert!(
        !result.authorized_envs.contains(&"env:prod".to_string()),
        "promotion for different unit should not authorize"
    );
}

#[test]
fn test_detect_promotion_collision_same() {
    let unit_ref = test_unit_id();
    let policies = vec![
        promotion_policy(test_unit_id(), unit_ref, "v1", "env:prod"),
        promotion_policy(test_unit_id(), unit_ref, "v1", "env:prod"),
    ];
    let evaluator = DefaultPromotionEvaluator::new();
    let collision = evaluator.detect_promotion_collision(&policies);
    assert!(collision.is_none(), "same decision should dedup (no collision)");
}

#[test]
fn test_detect_promotion_collision_different() {
    let unit_ref = test_unit_id();
    let env = "env:prod".to_string();
    let policies = vec![
        promotion_policy(test_unit_id(), unit_ref, "v1", &env),
        promotion_policy(test_unit_id(), unit_ref, "v2", &env),
    ];
    let evaluator = DefaultPromotionEvaluator::new();
    let collision = evaluator.detect_promotion_collision(&policies);
    assert!(collision.is_some(), "different decisions should produce a collision");
    let c = collision.unwrap();
    assert_eq!(c.environment, env);
    assert!(!c.detail.is_empty());
}

#[test]
fn test_detect_promotion_collision_different_env() {
    let unit_ref = test_unit_id();
    let policies = vec![
        promotion_policy(test_unit_id(), unit_ref, "v1", "env:test"),
        promotion_policy(test_unit_id(), unit_ref, "v1", "env:prod"),
    ];
    let evaluator = DefaultPromotionEvaluator::new();
    assert!(evaluator.detect_promotion_collision(&policies).is_none(), "different environments should not collide");
}

#[test]
fn test_detect_promotion_collision_different_unit() {
    let unit_a = test_unit_id();
    let unit_b = test_unit_id();
    let policies = vec![
        promotion_policy(test_unit_id(), unit_a, "v1", "env:prod"),
        promotion_policy(test_unit_id(), unit_b, "v1", "env:prod"),
    ];
    let evaluator = DefaultPromotionEvaluator::new();
    assert!(evaluator.detect_promotion_collision(&policies).is_none(), "different units should not collide");
}

#[test]
fn test_detect_promotion_collision_empty() {
    let evaluator = DefaultPromotionEvaluator::new();
    assert!(evaluator.detect_promotion_collision(&vec![]).is_none());
}

#[test]
fn promotion_collision_detail_names_unit_env_and_versions() {
    let unit_ref = UnitId(0x0123456789abcdef0123456789abcdef);
    let a = promotion_policy(test_unit_id(), unit_ref, "v1", "env:prod");
    let b = promotion_policy(test_unit_id(), unit_ref, "v2", "env:prod");
    let (pa, pb) = (a.header.id, b.header.id);
    let c = DefaultPromotionEvaluator::new().detect_promotion_collision(&vec![a, b]).unwrap();
    assert_eq!(c.policy_a, pa);
    assert_eq!(c.policy_b, pb);
    assert_eq!(
        c.detail,
        "conflicting promotion for unit UnitId(01234567-89ab-cdef-0123-456789abcdef) in env:prod: version 'v1' vs 'v2'"
    );
}

#[test]
fn promotion_blocked_reason_is_exact_and_dev_is_first() {
    let unit = workload();
    let promotions = vec![promotion_policy(test_unit_id(), unit.id(), "v1", "env:prod")];
    let gate = gate_def(vec![PromotionTransition { to_env: "env:prod".to_string(), mode: PromotionMode::HumanApproval }]);
    let result = DefaultPromotionEvaluator::new().evaluate(&unit, &promotions, &vec![gate]);
    let expected = PromotionResult {
        authorized_envs: vec!["env:dev".to_string()],
        blocked_envs: vec![("env:prod".to_string(), "human approval required for env:prod".to_string())],
    };
    assert_eq!(result, expected);
    let _unused: Option<PromotionCollision> = None;
}
