use taba::common::{Ppm, UnitId};
use taba::harness::builder::WorkloadUnitBuilder;
use taba::model::{ScaleDirection, Scaling, ScalingTrigger, WorkloadUnit};
use taba::solver::scaling::DefaultScalingEvaluator;

fn test_unit_id() -> UnitId {
    UnitId(uuid::Uuid::new_v4().as_u128())
}

fn workload_with_scaling(scaling: Scaling) -> WorkloadUnit {
    let mut w = WorkloadUnitBuilder::new().build();
    w.scaling = scaling;
    w
}

fn trigger(name: &str, metric: &str, threshold: u64, direction: ScaleDirection) -> ScalingTrigger {
    ScalingTrigger { name: name.to_string(), metric: metric.to_string(), threshold: Ppm(threshold), direction }
}

#[test]
fn scenario_scale_up_when_below_min_and_trigger_fires() {
    let unit_id = test_unit_id();
    let mut unit = WorkloadUnitBuilder::new().with_id(unit_id).with_scaling(2, 5).build();
    unit.scaling.triggers = vec![trigger("queue-depth", "queue", 100, ScaleDirection::Up)];
    let metrics = vec![("queue".to_string(), Ppm(150))];
    let decisions = DefaultScalingEvaluator::new().evaluate(&unit, 1, &metrics);
    assert_eq!(decisions.len(), 1, "should produce one scaling decision");
    let d = &decisions[0];
    assert_eq!(d.unit_id, unit_id);
    assert_eq!(d.current_instances, 1);
    assert_eq!(d.target_instances, 5, "target should be max_instances");
    assert_eq!(d.trigger_name, "queue-depth");
    assert_eq!(d.metric_value, Ppm(150));
    assert_eq!(d.threshold, Ppm(100));
}

#[test]
fn scenario_no_decision_when_trigger_does_not_fire() {
    let unit = workload_with_scaling(Scaling {
        min_instances: 2,
        max_instances: 5,
        triggers: vec![trigger("queue-depth", "queue", 100, ScaleDirection::Up)],
    });
    let metrics = vec![("queue".to_string(), Ppm(50))];
    let decisions = DefaultScalingEvaluator::new().evaluate(&unit, 1, &metrics);
    assert!(decisions.is_empty(), "no decision when trigger does not fire");
}

#[test]
fn scenario_no_decision_when_metric_missing() {
    let unit = workload_with_scaling(Scaling {
        min_instances: 2,
        max_instances: 5,
        triggers: vec![trigger("queue-depth", "queue", 100, ScaleDirection::Up)],
    });
    let decisions = DefaultScalingEvaluator::new().evaluate(&unit, 1, &vec![]);
    assert!(decisions.is_empty(), "no decision when metric value is not provided");
}

#[test]
fn scenario_no_decision_when_already_at_max() {
    let unit = workload_with_scaling(Scaling {
        min_instances: 2,
        max_instances: 5,
        triggers: vec![trigger("queue-depth", "queue", 100, ScaleDirection::Up)],
    });
    let metrics = vec![("queue".to_string(), Ppm(150))];
    let decisions = DefaultScalingEvaluator::new().evaluate(&unit, 5, &metrics);
    assert!(decisions.is_empty(), "no scale-up decision when already at max_instances");
}

#[test]
fn scenario_scale_down_when_above_min_and_trigger_fires() {
    let unit_id = test_unit_id();
    let mut unit = WorkloadUnitBuilder::new().with_id(unit_id).with_scaling(2, 5).build();
    unit.scaling.triggers = vec![trigger("low-cpu", "cpu_ppm", 200_000, ScaleDirection::Down)];
    let metrics = vec![("cpu_ppm".to_string(), Ppm(100_000))];
    let decisions = DefaultScalingEvaluator::new().evaluate(&unit, 4, &metrics);
    assert_eq!(decisions.len(), 1, "should produce one scale-down decision");
    let d = &decisions[0];
    assert_eq!(d.unit_id, unit_id);
    assert_eq!(d.current_instances, 4);
    assert_eq!(d.target_instances, 2, "target should be min_instances");
    assert_eq!(d.trigger_name, "low-cpu");
}

#[test]
fn scenario_no_scale_down_when_already_at_min() {
    let unit = workload_with_scaling(Scaling {
        min_instances: 2,
        max_instances: 5,
        triggers: vec![trigger("low-cpu", "cpu_ppm", 200_000, ScaleDirection::Down)],
    });
    let metrics = vec![("cpu_ppm".to_string(), Ppm(100_000))];
    let decisions = DefaultScalingEvaluator::new().evaluate(&unit, 2, &metrics);
    assert!(decisions.is_empty(), "no scale-down decision when already at min_instances");
}

#[test]
fn scenario_multiple_triggers_sorted_by_name() {
    let unit_id = test_unit_id();
    let mut unit = WorkloadUnitBuilder::new().with_id(unit_id).with_scaling(1, 10).build();
    unit.scaling.triggers = vec![
        trigger("zeta-trigger", "metric_z", 100, ScaleDirection::Up),
        trigger("alpha-trigger", "metric_a", 100, ScaleDirection::Up),
    ];
    let metrics = vec![("metric_a".to_string(), Ppm(200)), ("metric_z".to_string(), Ppm(200))];
    let decisions = DefaultScalingEvaluator::new().evaluate(&unit, 1, &metrics);
    assert_eq!(decisions.len(), 2, "both triggers should fire");
    assert_eq!(decisions[0].trigger_name, "alpha-trigger");
    assert_eq!(decisions[1].trigger_name, "zeta-trigger");
}

#[test]
fn scenario_evaluator_is_deterministic() {
    let unit = workload_with_scaling(Scaling {
        min_instances: 2,
        max_instances: 5,
        triggers: vec![trigger("queue-depth", "queue", 100, ScaleDirection::Up)],
    });
    let metrics = vec![("queue".to_string(), Ppm(150))];
    let evaluator = DefaultScalingEvaluator::new();
    let d1 = evaluator.evaluate(&unit, 1, &metrics);
    let d2 = evaluator.evaluate(&unit, 1, &metrics);
    assert_eq!(d1, d2, "same inputs must produce identical results");
}

// -- Additional cases --------------------------------------------------------

#[test]
fn threshold_must_be_crossed_strictly() {
    let unit = workload_with_scaling(Scaling {
        min_instances: 1,
        max_instances: 3,
        triggers: vec![
            trigger("up", "m", 100, ScaleDirection::Up),
            trigger("down", "m", 100, ScaleDirection::Down),
        ],
    });
    let at = vec![("m".to_string(), Ppm(100))];
    assert!(DefaultScalingEvaluator::new().evaluate(&unit, 2, &at).is_empty());
}
