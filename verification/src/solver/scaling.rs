//! Scaling evaluation: scaling decisions computed from the triggers a
//! workload declares.
//!
//! A trigger fires when its metric crosses the threshold in the declared
//! direction; a decision is made when the instance count can still move
//! that way. Decisions are sorted by trigger name.

use vstd::prelude::*;
use crate::common::{Ppm, UnitId};
use crate::model::{ScaleDirection, Scaling, ScalingTrigger, WorkloadUnit};
use crate::order::{stable_perm, Ordered, sort_le, sorted_le};
use crate::solver::placement::ScalingDecision;
use crate::text::{str_eq, str_le, str_le_spec, lemma_lex_total};
use crate::solver::placement::lemma_str_le_trans;

verus! {

/// Decisions are ordered by trigger name.
impl Ordered for ScalingDecision {
    open spec fn le_spec(self, other: Self) -> bool {
        str_le_spec(self.trigger_name@, other.trigger_name@)
    }

    proof fn lemma_le_total(a: Self, b: Self) {
        lemma_lex_total(vstd::utf8::encode_utf8(a.trigger_name@), vstd::utf8::encode_utf8(b.trigger_name@));
    }

    proof fn lemma_le_trans(a: Self, b: Self, c: Self) {
        lemma_str_le_trans(a.trigger_name@, b.trigger_name@, c.trigger_name@);
    }

    fn le(&self, other: &Self) -> (r: bool) {
        str_le(self.trigger_name.as_str(), other.trigger_name.as_str())
    }
}

/// Whether a trigger fires at a metric value: above the threshold for
/// scaling up, below it for scaling down.
pub open spec fn fires_spec(t: ScalingTrigger, v: Ppm) -> bool {
    match t.direction {
        ScaleDirection::Up => v.0 > t.threshold.0,
        ScaleDirection::Down => v.0 < t.threshold.0,
    }
}

/// Target instance count: the maximum when scaling up below it, the
/// minimum when scaling down above it, none otherwise.
pub open spec fn target_spec(s: Scaling, current: u32, d: ScaleDirection) -> Option<u32> {
    match d {
        ScaleDirection::Up => if current < s.max_instances { Some(s.max_instances) } else { None },
        ScaleDirection::Down => if current > s.min_instances { Some(s.min_instances) } else { None },
    }
}

/// `i` is the first metric named `name`.
pub open spec fn first_metric_at(metrics: Seq<(String, Ppm)>, name: Seq<char>, i: int) -> bool {
    &&& 0 <= i < metrics.len()
    &&& metrics[i].0@ == name
    &&& forall|j: int| 0 <= j < i ==> (#[trigger] metrics[j]).0@ != name
}

/// The value of the metric named `name`, if given.
pub open spec fn metric_lookup(metrics: Seq<(String, Ppm)>, name: Seq<char>) -> Option<Ppm> {
    if exists|i: int| first_metric_at(metrics, name, i) {
        Some(metrics[choose|i: int| first_metric_at(metrics, name, i)].1)
    } else {
        None
    }
}

/// The decision a trigger produces, if any.
pub open spec fn decision_for(unit: WorkloadUnit, current: u32, metrics: Seq<(String, Ppm)>, t: ScalingTrigger) -> Option<ScalingDecision> {
    match metric_lookup(metrics, t.metric@) {
        None => None,
        Some(v) => if !fires_spec(t, v) {
            None
        } else {
            match target_spec(unit.scaling, current, t.direction) {
                None => None,
                Some(target) => Some(ScalingDecision {
                    unit_id: unit.header.id,
                    current_instances: current,
                    target_instances: target,
                    trigger_name: t.name,
                    metric_value: v,
                    threshold: t.threshold,
                }),
            }
        },
    }
}

/// The decisions of the first `n` triggers, in declaration order.
pub open spec fn decisions_prefix(unit: WorkloadUnit, current: u32, metrics: Seq<(String, Ppm)>, n: int) -> Seq<ScalingDecision>
    decreases n,
{
    if n <= 0 {
        Seq::empty()
    } else {
        let rest = decisions_prefix(unit, current, metrics, n - 1);
        match decision_for(unit, current, metrics, unit.scaling.triggers@[n - 1]) {
            Some(d) => rest.push(d),
            None => rest,
        }
    }
}

/// Default, stateless scaling evaluator.
#[derive(Clone, Copy, Debug, Default, PartialEq, Eq)]
pub struct DefaultScalingEvaluator;

impl DefaultScalingEvaluator {
    /// Creates an evaluator.
    pub fn new() -> (r: Self)
        ensures r == DefaultScalingEvaluator,
    {
        DefaultScalingEvaluator
    }

    /// Whether a trigger fires at a metric value.
    pub fn trigger_fires(trigger: &ScalingTrigger, metric_value: Ppm) -> (r: bool)
        ensures r == fires_spec(*trigger, metric_value),
    {
        match trigger.direction {
            ScaleDirection::Up => metric_value.0 > trigger.threshold.0,
            ScaleDirection::Down => metric_value.0 < trigger.threshold.0,
        }
    }

    /// Target instance count for a fired trigger.
    pub fn target_for(scaling: &Scaling, current_instances: u32, direction: ScaleDirection) -> (r: Option<u32>)
        ensures r == target_spec(*scaling, current_instances, direction),
    {
        match direction {
            ScaleDirection::Up => if current_instances < scaling.max_instances {
                Some(scaling.max_instances)
            } else {
                None
            },
            ScaleDirection::Down => if current_instances > scaling.min_instances {
                Some(scaling.min_instances)
            } else {
                None
            },
        }
    }

    /// The value of the named metric, if given.
    pub fn lookup_metric(metrics: &Vec<(String, Ppm)>, name: &String) -> (r: Option<Ppm>)
        ensures r == metric_lookup(metrics@, name@),
    {
        let mut i: usize = 0;
        while i < metrics.len()
            invariant
                i <= metrics@.len(),
                forall|j: int| 0 <= j < i ==> (#[trigger] metrics@[j]).0@ != name@,
            decreases metrics@.len() - i,
        {
            if str_eq(metrics[i].0.as_str(), name.as_str()) {
                proof {
                    assert(first_metric_at(metrics@, name@, i as int));
                    let c = choose|c: int| first_metric_at(metrics@, name@, c);
                    if c < i {
                        assert(metrics@[c].0@ != name@);
                    }
                    if c > i {
                        assert(metrics@[i as int].0@ != name@);
                    }
                    assert(c == i as int);
                }
                return Some(metrics[i].1);
            }
            i = i + 1;
        }
        proof {
            if exists|c: int| first_metric_at(metrics@, name@, c) {
                let c = choose|c: int| first_metric_at(metrics@, name@, c);
                assert(metrics@[c].0@ != name@);
            }
        }
        None
    }

    /// Evaluates every trigger of the unit against the metric values and
    /// returns the decisions, sorted by trigger name; decisions of triggers
    /// with the same name keep the order of the triggers.
    pub fn evaluate(&self, unit: &WorkloadUnit, current_instances: u32, metric_values: &Vec<(String, Ppm)>) -> (r: Vec<ScalingDecision>)
        ensures
            sorted_le(r@),
            r@.to_multiset() == decisions_prefix(*unit, current_instances, metric_values@, unit.scaling.triggers@.len() as int).to_multiset(),
            stable_perm(decisions_prefix(*unit, current_instances, metric_values@, unit.scaling.triggers@.len() as int), r@),
    {
        let unit_id: UnitId = unit.header.id;
        let triggers = &unit.scaling.triggers;
        let mut decisions: Vec<ScalingDecision> = Vec::new();
        let mut i: usize = 0;
        while i < triggers.len()
            invariant
                i <= triggers@.len(),
                triggers@ == unit.scaling.triggers@,
                unit_id == unit.header.id,
                decisions@ == decisions_prefix(*unit, current_instances, metric_values@, i as int),
            decreases triggers@.len() - i,
        {
            let trigger = &triggers[i];
            match Self::lookup_metric(metric_values, &trigger.metric) {
                None => {},
                Some(v) => {
                    if Self::trigger_fires(trigger, v) {
                        match Self::target_for(&unit.scaling, current_instances, trigger.direction) {
                            None => {},
                            Some(target) => {
                                decisions.push(ScalingDecision {
                                    unit_id,
                                    current_instances,
                                    target_instances: target,
                                    trigger_name: trigger.name.clone(),
                                    metric_value: v,
                                    threshold: trigger.threshold,
                                });
                            },
                        }
                    }
                },
            }
            i = i + 1;
        }
        sort_le(decisions)
    }
}

} // verus!
