//! Solver result types.

use vstd::prelude::*;
use crate::common::{NodeId, Ppm, UnitId};
use crate::model::{Capability, ConflictTuple};
use crate::order::{Ordered, sort_le, sorted_le};
use crate::text::{str_le, str_le_spec, lemma_lex_total, lemma_lex_trans};
use crate::solver::error::SolverError;

verus! {

/// A unit placed on a node with its score.
#[derive(Clone, Copy, Debug, PartialEq, Eq, Hash)]
pub struct Placement {
    /// The placed unit.
    pub unit: UnitId,
    /// The node chosen.
    pub node: NodeId,
    /// The placement score.
    pub score: Ppm,
}

/// Score breakdown of a placement.
#[derive(Clone, Copy, Debug, PartialEq, Eq, Structural, Hash)]
pub struct PlacementScore {
    /// Total score.
    pub total: Ppm,
    /// Resource factor.
    pub resource_score: Ppm,
    /// Latency-tolerance factor.
    pub latency_score: Ppm,
    /// Failure-mode affinity factor.
    pub affinity_score: Ppm,
    /// Health factor.
    pub health_score: Ppm,
    /// Penalty for a suspected node.
    pub suspected_penalty: Ppm,
}

impl PlacementScore {
    /// All factors zero.
    pub fn zero() -> (r: Self)
        ensures
            r.total == Ppm(0) && r.resource_score == Ppm(0) && r.latency_score == Ppm(0)
                && r.affinity_score == Ppm(0) && r.health_score == Ppm(0) && r.suspected_penalty
                == Ppm(0),
    {
        PlacementScore {
            total: Ppm(0),
            resource_score: Ppm(0),
            latency_score: Ppm(0),
            affinity_score: Ppm(0),
            health_score: Ppm(0),
            suspected_penalty: Ppm(0),
        }
    }
}

/// Why a placement was made.
#[derive(Clone, Copy, Debug, PartialEq, Eq, Structural, Hash)]
pub enum PlacementReason {
    /// Highest score.
    BestScore,
    /// Re-placement after a node failure.
    NodeFailure { failed_node: NodeId },
    /// Tiebreak after a partition.
    PartitionTiebreak { winner: NodeId, loser: NodeId },
    /// Scale-up.
    ScaleUp,
}

/// A placement decision with its score breakdown and reason.
#[derive(Clone, Debug, PartialEq, Eq)]
pub struct PlacementDecision {
    /// The unit.
    pub unit_id: UnitId,
    /// The node chosen.
    pub target_node: NodeId,
    /// Score breakdown.
    pub score: PlacementScore,
    /// Reason.
    pub reason: PlacementReason,
}

impl PlacementDecision {
    /// The placement this decision makes.
    pub fn to_placement(&self) -> (r: Placement)
        ensures r.unit == self.unit_id && r.node == self.target_node && r.score == self.score.total,
    {
        Placement { unit: self.unit_id, node: self.target_node, score: self.score.total }
    }
}

/// Status of a conflict.
#[derive(Clone, Copy, Debug, PartialEq, Eq, Structural, Hash)]
pub enum ConflictStatus {
    /// No policy resolves it.
    Unresolved,
    /// Every resolving policy was revoked.
    Revoked,
    /// More than one policy resolves it.
    Ambiguous,
}

/// A conflict: units whose need for a capability is not met.
#[derive(Clone, Debug, PartialEq, Eq, Hash)]
pub struct Conflict {
    /// Units in conflict.
    pub units: Vec<UnitId>,
    /// The capability.
    pub capability: Capability,
    /// Status.
    pub status: ConflictStatus,
}

/// A cycle of recovery dependencies.
#[derive(Clone, Debug, PartialEq, Eq, Hash)]
pub struct RecoveryCycle {
    /// The units of the cycle, in dependency order.
    pub chain: Vec<UnitId>,
}

/// A supersession chain of the policies resolving a conflict.
#[derive(Clone, Debug, PartialEq, Eq, Hash)]
pub struct SupersessionChain {
    /// Units in conflict.
    pub conflict_units: Vec<UnitId>,
    /// The capability.
    pub capability: Capability,
    /// The policies, in supersession order.
    pub policies: Vec<UnitId>,
}

/// A need that nothing satisfies.
#[derive(Clone, Debug, PartialEq, Eq, Hash)]
pub struct UnmatchedNeed {
    /// The needing unit.
    pub unit_id: UnitId,
    /// The capability needed.
    pub capability: Capability,
}

/// A need matched with a provided capability.
#[derive(Clone, Debug, PartialEq, Eq, Hash)]
pub struct CapabilityMatch {
    /// The needing unit.
    pub needer: UnitId,
    /// The capability needed.
    pub need: Capability,
    /// The providing unit.
    pub provider: UnitId,
    /// The capability provided.
    pub provided: Capability,
}

/// Result of composing units.
#[derive(Clone, Debug, PartialEq, Eq)]
pub struct CompositionResult {
    /// Units taking part.
    pub participants: Vec<UnitId>,
    /// Needs matched with providers.
    pub matches: Vec<CapabilityMatch>,
    /// Whether every need is met.
    pub fully_satisfied: bool,
    /// Needs not met.
    pub unmatched_needs: Vec<UnmatchedNeed>,
}

/// Kind of a conflict report.
#[derive(Clone, Copy, Debug, PartialEq, Eq, Structural, Hash)]
pub enum ConflictType {
    SecurityIncompatible,
    AmbiguousMatch,
    PurposeMismatch,
    ClassificationConflict,
    CyclicRecoveryDependency,
    RetentionConflict,
}

/// A described conflict.
#[derive(Clone, Debug, PartialEq, Eq)]
pub struct ConflictReport {
    /// The conflict tuple.
    pub conflict: ConflictTuple,
    /// Description.
    pub description: String,
    /// Kind.
    pub conflict_type: ConflictType,
    /// Whether a policy exists for it.
    pub has_policy: bool,
}

/// A scaling decision surfaced by the solver.
#[derive(Clone, Debug, PartialEq, Eq)]
pub struct ScalingDecision {
    /// The unit.
    pub unit_id: UnitId,
    /// Current instance count.
    pub current_instances: u32,
    /// Target instance count.
    pub target_instances: u32,
    /// Name of the trigger that fired.
    pub trigger_name: String,
    /// Observed metric value.
    pub metric_value: Ppm,
    /// Threshold crossed.
    pub threshold: Ppm,
}

// ---------------------------------------------------------------------------
// Orders
// ---------------------------------------------------------------------------

/// Order of optional strings: `None` first, then by string order.
pub open spec fn opt_str_le(a: Option<String>, b: Option<String>) -> bool {
    match (a, b) {
        (None, _) => true,
        (Some(_), None) => false,
        (Some(x), Some(y)) => str_le_spec(x@, y@),
    }
}

/// The order of capabilities: by type, then name, then purpose.
pub open spec fn cap_le(a: Capability, b: Capability) -> bool {
    if !str_le_spec(a.cap_type@, b.cap_type@) {
        false
    } else if !str_le_spec(b.cap_type@, a.cap_type@) {
        true
    } else if !str_le_spec(a.name@, b.name@) {
        false
    } else if !str_le_spec(b.name@, a.name@) {
        true
    } else {
        opt_str_le(a.purpose, b.purpose)
    }
}

pub proof fn lemma_cap_le_total(a: Capability, b: Capability)
    ensures cap_le(a, b) || cap_le(b, a),
{
    lemma_lex_total(vstd::utf8::encode_utf8(a.cap_type@), vstd::utf8::encode_utf8(b.cap_type@));
    lemma_lex_total(vstd::utf8::encode_utf8(a.name@), vstd::utf8::encode_utf8(b.name@));
    if a.purpose is Some && b.purpose is Some {
        lemma_lex_total(vstd::utf8::encode_utf8(a.purpose.unwrap()@), vstd::utf8::encode_utf8(b.purpose.unwrap()@));
    }
}

pub proof fn lemma_str_le_trans(a: Seq<char>, b: Seq<char>, c: Seq<char>)
    requires str_le_spec(a, b), str_le_spec(b, c),
    ensures str_le_spec(a, c),
{
    lemma_lex_trans(vstd::utf8::encode_utf8(a), vstd::utf8::encode_utf8(b), vstd::utf8::encode_utf8(c));
}

/// Transitivity of the string order among three strings, in every arrangement.
proof fn lemma_str_le_trans3(a: Seq<char>, b: Seq<char>, c: Seq<char>)
    ensures
        str_le_spec(a, b) && str_le_spec(b, c) ==> str_le_spec(a, c),
        str_le_spec(b, a) && str_le_spec(a, c) ==> str_le_spec(b, c),
        str_le_spec(a, c) && str_le_spec(c, b) ==> str_le_spec(a, b),
        str_le_spec(c, a) && str_le_spec(a, b) ==> str_le_spec(c, b),
        str_le_spec(b, c) && str_le_spec(c, a) ==> str_le_spec(b, a),
        str_le_spec(c, b) && str_le_spec(b, a) ==> str_le_spec(c, a),
{
    if str_le_spec(a, b) && str_le_spec(b, c) { lemma_str_le_trans(a, b, c); }
    if str_le_spec(b, a) && str_le_spec(a, c) { lemma_str_le_trans(b, a, c); }
    if str_le_spec(a, c) && str_le_spec(c, b) { lemma_str_le_trans(a, c, b); }
    if str_le_spec(c, a) && str_le_spec(a, b) { lemma_str_le_trans(c, a, b); }
    if str_le_spec(b, c) && str_le_spec(c, a) { lemma_str_le_trans(b, c, a); }
    if str_le_spec(c, b) && str_le_spec(b, a) { lemma_str_le_trans(c, b, a); }
}

pub proof fn lemma_cap_le_trans(a: Capability, b: Capability, c: Capability)
    requires cap_le(a, b), cap_le(b, c),
    ensures cap_le(a, c),
{
    lemma_str_le_trans3(a.cap_type@, b.cap_type@, c.cap_type@);
    lemma_str_le_trans3(a.name@, b.name@, c.name@);
    if a.purpose is Some && b.purpose is Some && c.purpose is Some {
        lemma_str_le_trans3(a.purpose.unwrap()@, b.purpose.unwrap()@, c.purpose.unwrap()@);
    }
}

/// Executable capability order.
pub fn cap_le_exec(a: &Capability, b: &Capability) -> (r: bool)
    ensures r == cap_le(*a, *b),
{
    if !str_le(a.cap_type.as_str(), b.cap_type.as_str()) {
        return false;
    }
    if !str_le(b.cap_type.as_str(), a.cap_type.as_str()) {
        return true;
    }
    if !str_le(a.name.as_str(), b.name.as_str()) {
        return false;
    }
    if !str_le(b.name.as_str(), a.name.as_str()) {
        return true;
    }
    match (&a.purpose, &b.purpose) {
        (None, _) => true,
        (Some(_), None) => false,
        (Some(x), Some(y)) => str_le(x.as_str(), y.as_str()),
    }
}

/// Capabilities in capability order.
impl Ordered for Capability {
    open spec fn le_spec(self, other: Self) -> bool {
        cap_le(self, other)
    }

    proof fn lemma_le_total(a: Self, b: Self) {
        lemma_cap_le_total(a, b);
    }

    proof fn lemma_le_trans(a: Self, b: Self, c: Self) {
        lemma_cap_le_trans(a, b, c);
    }

    fn le(&self, other: &Self) -> (r: bool) {
        cap_le_exec(self, other)
    }
}

/// Order of an optional first unit: `None` first.
pub open spec fn first_unit_le(a: Seq<UnitId>, b: Seq<UnitId>) -> bool {
    if a.len() == 0 {
        true
    } else if b.len() == 0 {
        false
    } else {
        a[0].0 <= b[0].0
    }
}

impl Ordered for Conflict {
    open spec fn le_spec(self, other: Self) -> bool {
        if !first_unit_le(self.units@, other.units@) {
            false
        } else if !first_unit_le(other.units@, self.units@) {
            true
        } else {
            cap_le(self.capability, other.capability)
        }
    }

    proof fn lemma_le_total(a: Self, b: Self) {
        lemma_cap_le_total(a.capability, b.capability);
    }

    proof fn lemma_le_trans(a: Self, b: Self, c: Self) {
        if first_unit_le(a.units@, b.units@) && first_unit_le(b.units@, a.units@)
            && first_unit_le(b.units@, c.units@) && first_unit_le(c.units@, b.units@) {
            lemma_cap_le_trans(a.capability, b.capability, c.capability);
        }
    }

    fn le(&self, other: &Self) -> (r: bool) {
        let a_le_b = match (self.units.first(), other.units.first()) {
            (None, _) => true,
            (Some(_), None) => false,
            (Some(x), Some(y)) => x.0 <= y.0,
        };
        let b_le_a = match (other.units.first(), self.units.first()) {
            (None, _) => true,
            (Some(_), None) => false,
            (Some(x), Some(y)) => x.0 <= y.0,
        };
        if !a_le_b {
            false
        } else if !b_le_a {
            true
        } else {
            cap_le_exec(&self.capability, &other.capability)
        }
    }
}

impl Ordered for Placement {
    open spec fn le_spec(self, other: Self) -> bool {
        self.unit.0 <= other.unit.0
    }

    proof fn lemma_le_total(a: Self, b: Self) {
    }

    proof fn lemma_le_trans(a: Self, b: Self, c: Self) {
    }

    fn le(&self, other: &Self) -> (r: bool) {
        self.unit.0 <= other.unit.0
    }
}

impl Ordered for (UnitId, SolverError) {
    open spec fn le_spec(self, other: Self) -> bool {
        self.0.0 <= other.0.0
    }

    proof fn lemma_le_total(a: Self, b: Self) {
    }

    proof fn lemma_le_trans(a: Self, b: Self, c: Self) {
    }

    fn le(&self, other: &Self) -> (r: bool) {
        self.0.0 <= other.0.0
    }
}

/// Output of the solver.
#[derive(Clone, Debug, PartialEq, Eq)]
pub struct SolverResult {
    /// Units placed.
    pub placements: Vec<Placement>,
    /// Units that could not be placed, with the reason.
    pub unplaceable: Vec<(UnitId, SolverError)>,
    /// Conflicts detected.
    pub conflicts: Vec<Conflict>,
}

impl SolverResult {
    /// A result with nothing in it.
    pub fn empty() -> (r: Self)
        ensures r.placements@.len() == 0 && r.unplaceable@.len() == 0 && r.conflicts@.len() == 0,
    {
        SolverResult { placements: Vec::new(), unplaceable: Vec::new(), conflicts: Vec::new() }
    }

    /// Whether the result holds no placement, no unplaceable unit and no
    /// conflict.
    pub fn is_clean(&self) -> (r: bool)
        ensures r == (self.placements@.len() == 0 && self.unplaceable@.len() == 0 && self.conflicts@.len() == 0),
    {
        self.placements.len() == 0 && self.unplaceable.len() == 0 && self.conflicts.len() == 0
    }

    /// Sorts placements and unplaceable units by unit, and conflicts by
    /// first unit then capability.
    pub fn sort(&mut self)
        ensures
            sorted_le(final(self).placements@),
            sorted_le(final(self).unplaceable@),
            sorted_le(final(self).conflicts@),
            final(self).placements@.to_multiset() == old(self).placements@.to_multiset(),
            final(self).unplaceable@.to_multiset() == old(self).unplaceable@.to_multiset(),
            final(self).conflicts@.to_multiset() == old(self).conflicts@.to_multiset(),
    {
        let mut placements = Vec::new();
        std::mem::swap(&mut placements, &mut self.placements);
        self.placements = sort_le(placements);
        let mut unplaceable = Vec::new();
        std::mem::swap(&mut unplaceable, &mut self.unplaceable);
        self.unplaceable = sort_le(unplaceable);
        let mut conflicts = Vec::new();
        std::mem::swap(&mut conflicts, &mut self.conflicts);
        self.conflicts = sort_le(conflicts);
    }
}

} // verus!
