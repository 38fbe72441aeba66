//! Decision trails: a queryable record of every solver run.
//!
//! Each recorded run keeps the graph snapshot identifier, the membership
//! (node identifiers and the generation at which their resources were
//! observed), the solver version, one record per placement and per
//! conflict, and a logical-clock timestamp. Trail identifiers and logical
//! clocks are both assigned in increasing order starting at 1.

use vstd::prelude::*;
use crate::common::{DualClockEvent, LogicalClock, NodeId, Ppm, UnitId, WallTime};
use crate::observe::error::ObserveError;
use crate::order::{copy_vec, sort_le, sorted_le, stable_perm, Ordered};
use crate::solver::membership::{MembershipSnapshot, NodeHealth};
use crate::solver::placement::{Conflict, Placement, SolverResult};
use crate::model::NodeCapabilitySet;
use crate::text::{decimal, push_decimal};
use crate::model::{capability_debug, capability_text};
use crate::solver::error::{status_debug, status_string};

pub use crate::observe::error::DecisionTrailId;

verus! {

// ---------------------------------------------------------------------------
// Trail records
// ---------------------------------------------------------------------------

/// Reference to the resource snapshot of a node used in a solver run.
#[derive(Clone, Copy, Debug, PartialEq, Eq)]
pub struct ResourceSnapshotRef {
    /// The node whose resources were observed.
    pub node_id: NodeId,
    /// Logical clock of the resource snapshot.
    pub snapshot_lc: LogicalClock,
}

/// A placement decision recorded in a trail.
#[derive(Clone, Debug, PartialEq, Eq)]
pub struct PlacementRecord {
    /// The unit that was placed.
    pub unit_id: UnitId,
    /// The node this unit was placed on.
    pub placed_on: NodeId,
    /// Why this node was chosen.
    pub rationale: String,
    /// Capability filter results: which nodes passed.
    pub capability_filter: Vec<(NodeId, bool)>,
    /// Resource ranking scores for eligible nodes.
    pub resource_scores: Vec<(NodeId, Ppm)>,
}

/// A conflict recorded in a trail.
#[derive(Clone, Debug, PartialEq, Eq)]
pub struct ConflictRecord {
    /// Type of the conflict.
    pub conflict_type: String,
    /// Units involved in the conflict.
    pub involved_units: Vec<UnitId>,
    /// Detail about the conflict.
    pub detail: String,
}

/// Queryable record of a solver run's inputs and outputs.
#[derive(Clone, Debug, PartialEq, Eq)]
pub struct DecisionTrail {
    /// Unique identifier for this trail.
    pub trail_id: DecisionTrailId,
    /// Graph snapshot used as input.
    pub graph_snapshot_id: String,
    /// Node membership used as input.
    pub node_membership: Vec<NodeId>,
    /// Resource snapshots used for ranking.
    pub resource_snapshots: Vec<ResourceSnapshotRef>,
    /// Solver version that produced this decision.
    pub solver_version: String,
    /// Placement decisions produced.
    pub placements: Vec<PlacementRecord>,
    /// Conflicts detected.
    pub conflicts: Vec<ConflictRecord>,
    /// When this solver run occurred.
    pub timestamp: DualClockEvent,
}

impl PlacementRecord {
    /// The two records hold the same values.
    pub open spec fn same_as(self, o: PlacementRecord) -> bool {
        &&& self.unit_id == o.unit_id
        &&& self.placed_on == o.placed_on
        &&& self.rationale@ == o.rationale@
        &&& self.capability_filter@ == o.capability_filter@
        &&& self.resource_scores@ == o.resource_scores@
    }

    /// A copy of this record.
    pub fn copy(&self) -> (r: PlacementRecord)
        ensures r.same_as(*self),
    {
        PlacementRecord {
            unit_id: self.unit_id,
            placed_on: self.placed_on,
            rationale: self.rationale.clone(),
            capability_filter: copy_vec(&self.capability_filter),
            resource_scores: copy_vec(&self.resource_scores),
        }
    }
}

impl ConflictRecord {
    /// The two records hold the same values.
    pub open spec fn same_as(self, o: ConflictRecord) -> bool {
        &&& self.conflict_type@ == o.conflict_type@
        &&& self.involved_units@ == o.involved_units@
        &&& self.detail@ == o.detail@
    }

    /// A copy of this record.
    pub fn copy(&self) -> (r: ConflictRecord)
        ensures r.same_as(*self),
    {
        ConflictRecord {
            conflict_type: self.conflict_type.clone(),
            involved_units: self.involved_units.clone(),
            detail: self.detail.clone(),
        }
    }
}

/// Pointwise equal placement records.
pub open spec fn same_placements(a: Seq<PlacementRecord>, b: Seq<PlacementRecord>) -> bool {
    a.len() == b.len() && forall|i: int| 0 <= i < a.len() ==> (#[trigger] a[i]).same_as(b[i])
}

/// Pointwise equal conflict records.
pub open spec fn same_conflicts(a: Seq<ConflictRecord>, b: Seq<ConflictRecord>) -> bool {
    a.len() == b.len() && forall|i: int| 0 <= i < a.len() ==> (#[trigger] a[i]).same_as(b[i])
}

impl DecisionTrail {
    /// The two trails hold the same values.
    pub open spec fn same_as(self, o: DecisionTrail) -> bool {
        &&& self.trail_id == o.trail_id
        &&& self.graph_snapshot_id@ == o.graph_snapshot_id@
        &&& self.node_membership@ == o.node_membership@
        &&& self.resource_snapshots@ == o.resource_snapshots@
        &&& self.solver_version@ == o.solver_version@
        &&& same_placements(self.placements@, o.placements@)
        &&& same_conflicts(self.conflicts@, o.conflicts@)
        &&& self.timestamp.same_as(o.timestamp)
    }

    /// A copy of this trail.
    pub fn copy(&self) -> (r: DecisionTrail)
        ensures r.same_as(*self),
    {
        let mut placements: Vec<PlacementRecord> = Vec::new();
        let mut i: usize = 0;
        while i < self.placements.len()
            invariant
                i <= self.placements@.len(),
                same_placements(placements@, self.placements@.subrange(0, i as int)),
            decreases self.placements@.len() - i,
        {
            placements.push(self.placements[i].copy());
            i = i + 1;
        }
        let mut conflicts: Vec<ConflictRecord> = Vec::new();
        let mut j: usize = 0;
        while j < self.conflicts.len()
            invariant
                j <= self.conflicts@.len(),
                same_conflicts(conflicts@, self.conflicts@.subrange(0, j as int)),
            decreases self.conflicts@.len() - j,
        {
            conflicts.push(self.conflicts[j].copy());
            j = j + 1;
        }
        DecisionTrail {
            trail_id: self.trail_id,
            graph_snapshot_id: self.graph_snapshot_id.clone(),
            node_membership: self.node_membership.clone(),
            resource_snapshots: self.resource_snapshots.clone(),
            solver_version: self.solver_version.clone(),
            placements,
            conflicts,
            timestamp: self.timestamp.copy(),
        }
    }
}

impl Ordered for DecisionTrail {
    open spec fn le_spec(self, other: Self) -> bool {
        self.timestamp.logical_clock.0 <= other.timestamp.logical_clock.0
    }

    proof fn lemma_le_total(a: Self, b: Self) {
    }

    proof fn lemma_le_trans(a: Self, b: Self, c: Self) {
    }

    fn le(&self, other: &Self) -> (r: bool) {
        self.timestamp.logical_clock.0 <= other.timestamp.logical_clock.0
    }
}

/// Pointwise equal trails.
pub open spec fn same_trails(a: Seq<DecisionTrail>, b: Seq<DecisionTrail>) -> bool {
    a.len() == b.len() && forall|i: int| 0 <= i < a.len() ==> (#[trigger] a[i]).same_as(b[i])
}

// ---------------------------------------------------------------------------
// What a recorded trail holds
// ---------------------------------------------------------------------------

/// The rationale recorded for a placement.
pub open spec fn rationale_text(score: Ppm) -> Seq<char> {
    "placed with score "@ + decimal(score.0 as nat)
}

/// `r` records placement `p`: the unit, the node, the score as rationale
/// and as the chosen node's resource score; no filter results.
pub open spec fn records_placement(r: PlacementRecord, p: Placement) -> bool {
    &&& r.unit_id == p.unit
    &&& r.placed_on == p.node
    &&& r.rationale@ == rationale_text(p.score)
    &&& r.capability_filter@.len() == 0
    &&& r.resource_scores@ == seq![(p.node, p.score)]
}

/// `r` records conflict `c`: the capability's debug text as type, the
/// units, and the status name as detail.
pub open spec fn records_conflict(r: ConflictRecord, c: Conflict) -> bool {
    &&& r.conflict_type@ == capability_debug(c.capability)
    &&& r.involved_units@ == c.units@
    &&& r.detail@ == status_debug(c.status)
}

/// `t` is the trail of a solver run with the given identifier, clock and
/// inputs and outputs.
pub open spec fn records_run(
    t: DecisionTrail,
    id: u64,
    lc: u64,
    graph_snapshot_id: Seq<char>,
    membership: MembershipSnapshot,
    result: SolverResult,
    solver_version: Seq<char>,
) -> bool {
    &&& t.trail_id == DecisionTrailId(id)
    &&& t.graph_snapshot_id@ == graph_snapshot_id
    &&& t.node_membership@ == membership.nodes@.map_values(
        |n: (NodeId, NodeCapabilitySet, NodeHealth)| n.0,
    )
    &&& t.resource_snapshots@ == membership.nodes@.map_values(
        |n: (NodeId, NodeCapabilitySet, NodeHealth)|
            ResourceSnapshotRef { node_id: n.0, snapshot_lc: LogicalClock(membership.generation) },
    )
    &&& t.solver_version@ == solver_version
    &&& t.placements@.len() == result.placements@.len()
    &&& forall|i: int| 0 <= i < t.placements@.len() ==> records_placement(#[trigger] t.placements@[i], result.placements@[i])
    &&& t.conflicts@.len() == result.conflicts@.len()
    &&& forall|i: int| 0 <= i < t.conflicts@.len() ==> records_conflict(#[trigger] t.conflicts@[i], result.conflicts@[i])
    &&& t.timestamp.logical_clock == LogicalClock(lc)
    &&& t.timestamp.wall_time == WallTime { millis: 0 }
    &&& t.timestamp.timezone@ == "UTC"@
}

/// The trail places unit `u`.
pub open spec fn places_unit(t: DecisionTrail, u: UnitId) -> bool {
    exists|i: int| 0 <= i < t.placements@.len() && (#[trigger] t.placements@[i]).unit_id == u
}

/// The trail's clock is within `[from, to]`.
pub open spec fn in_range(t: DecisionTrail, from: LogicalClock, to: LogicalClock) -> bool {
    from.0 <= t.timestamp.logical_clock.0 <= to.0
}

/// The trails are numbered from 1 in the order they were recorded, each
/// with the same logical clock as its number, and the next trail gets the
/// number and clock after the last.
pub open spec fn numbered(trails: Seq<DecisionTrail>, next_id: u64, next_lc: u64) -> bool {
    &&& next_id == trails.len() + 1
    &&& next_lc == trails.len() + 1
    &&& forall|j: int| 0 <= j < trails.len() ==> (#[trigger] trails[j]).trail_id == DecisionTrailId((j + 1) as u64)
        && trails[j].timestamp.logical_clock == LogicalClock((j + 1) as u64)
}

/// The counter after `n` (wrapping at 2^64).
pub open spec fn successor(n: u64) -> u64 {
    if n == u64::MAX { 0 } else { (n + 1) as u64 }
}

fn placement_to_record(p: &Placement) -> (r: PlacementRecord)
    ensures records_placement(r, *p),
{
    proof {
        reveal_strlit("placed with score ");
    }
    let mut rationale = String::new();
    rationale.append("placed with score ");
    push_decimal(&mut rationale, p.score.0);
    assert(rationale@ =~= rationale_text(p.score));
    let mut scores: Vec<(NodeId, Ppm)> = Vec::new();
    scores.push((p.node, p.score));
    assert(scores@ =~= seq![(p.node, p.score)]);
    PlacementRecord {
        unit_id: p.unit,
        placed_on: p.node,
        rationale,
        capability_filter: Vec::new(),
        resource_scores: scores,
    }
}

fn conflict_to_record(c: &Conflict) -> (r: ConflictRecord)
    ensures records_conflict(r, *c),
{
    ConflictRecord {
        conflict_type: capability_text(&c.capability),
        involved_units: c.units.clone(),
        detail: status_string(c.status),
    }
}

// ---------------------------------------------------------------------------
// DefaultDecisionTrailRecorder
// ---------------------------------------------------------------------------

/// In-memory recorder and query interface for decision trails.
#[derive(Debug)]
pub struct DefaultDecisionTrailRecorder {
    trails: Vec<DecisionTrail>,
    next_id: u64,
    next_lc: u64,
}

impl DefaultDecisionTrailRecorder {
    /// The recorded trails, oldest first.
    pub closed spec fn stored(&self) -> Seq<DecisionTrail> {
        self.trails@
    }

    /// The identifier the next trail gets.
    pub closed spec fn id_counter(&self) -> u64 {
        self.next_id
    }

    /// The logical clock the next trail gets.
    pub closed spec fn clock(&self) -> u64 {
        self.next_lc
    }

    /// Creates an empty recorder; identifiers and clocks start at 1.
    pub fn new() -> (r: Self)
        ensures
            r.stored().len() == 0,
            r.id_counter() == 1,
            r.clock() == 1,
            numbered(r.stored(), r.id_counter(), r.clock()),
    {
        DefaultDecisionTrailRecorder { trails: Vec::new(), next_id: 1, next_lc: 1 }
    }

    /// Records a solver run's inputs and outputs as a new trail and returns
    /// its identifier. Always succeeds.
    pub fn record(
        &mut self,
        graph_snapshot_id: &str,
        membership: &MembershipSnapshot,
        result: &SolverResult,
        solver_version: &str,
    ) -> (r: Result<DecisionTrailId, ObserveError>)
        ensures
            r == Ok::<DecisionTrailId, ObserveError>(DecisionTrailId(old(self).id_counter())),
            final(self).id_counter() == successor(old(self).id_counter()),
            final(self).clock() == successor(old(self).clock()),
            final(self).stored().len() == old(self).stored().len() + 1,
            final(self).stored().drop_last() == old(self).stored(),
            records_run(
                final(self).stored().last(),
                old(self).id_counter(),
                old(self).clock(),
                graph_snapshot_id@,
                *membership,
                *result,
                solver_version@,
            ),
            numbered(old(self).stored(), old(self).id_counter(), old(self).clock())
                && old(self).stored().len() + 2 <= u64::MAX
                ==> numbered(final(self).stored(), final(self).id_counter(), final(self).clock()),
    {
        proof {
            reveal_strlit("UTC");
        }
        let id = self.next_id;
        self.next_id = id.wrapping_add(1);
        let lc = self.next_lc;
        self.next_lc = lc.wrapping_add(1);
        let mut node_membership: Vec<NodeId> = Vec::new();
        let mut resource_snapshots: Vec<ResourceSnapshotRef> = Vec::new();
        let ghost nodes = membership.nodes@;
        let mut i: usize = 0;
        while i < membership.nodes.len()
            invariant
                i <= nodes.len(),
                nodes == membership.nodes@,
                node_membership@ == nodes.subrange(0, i as int).map_values(
                    |n: (NodeId, NodeCapabilitySet, NodeHealth)| n.0,
                ),
                resource_snapshots@ == nodes.subrange(0, i as int).map_values(
                    |n: (NodeId, NodeCapabilitySet, NodeHealth)|
                        ResourceSnapshotRef { node_id: n.0, snapshot_lc: LogicalClock(membership.generation) },
                ),
            decreases nodes.len() - i,
        {
            let nid = membership.nodes[i].0;
            node_membership.push(nid);
            resource_snapshots.push(
                ResourceSnapshotRef { node_id: nid, snapshot_lc: LogicalClock(membership.generation) },
            );
            i = i + 1;
            proof {
                assert(node_membership@ =~= nodes.subrange(0, i as int).map_values(
                    |n: (NodeId, NodeCapabilitySet, NodeHealth)| n.0,
                ));
                assert(resource_snapshots@ =~= nodes.subrange(0, i as int).map_values(
                    |n: (NodeId, NodeCapabilitySet, NodeHealth)|
                        ResourceSnapshotRef { node_id: n.0, snapshot_lc: LogicalClock(membership.generation) },
                ));
            }
        }
        assert(nodes.subrange(0, nodes.len() as int) =~= nodes);
        let mut placements: Vec<PlacementRecord> = Vec::new();
        let mut j: usize = 0;
        while j < result.placements.len()
            invariant
                j <= result.placements@.len(),
                placements@.len() == j,
                forall|k: int| 0 <= k < j ==> records_placement(#[trigger] placements@[k], result.placements@[k]),
            decreases result.placements@.len() - j,
        {
            placements.push(placement_to_record(&result.placements[j]));
            j = j + 1;
        }
        let mut conflicts: Vec<ConflictRecord> = Vec::new();
        let mut k: usize = 0;
        while k < result.conflicts.len()
            invariant
                k <= result.conflicts@.len(),
                conflicts@.len() == k,
                forall|m: int| 0 <= m < k ==> records_conflict(#[trigger] conflicts@[m], result.conflicts@[m]),
            decreases result.conflicts@.len() - k,
        {
            conflicts.push(conflict_to_record(&result.conflicts[k]));
            k = k + 1;
        }
        let trail = DecisionTrail {
            trail_id: DecisionTrailId(id),
            graph_snapshot_id: graph_snapshot_id.to_string(),
            node_membership,
            resource_snapshots,
            solver_version: solver_version.to_string(),
            placements,
            conflicts,
            timestamp: DualClockEvent {
                logical_clock: LogicalClock(lc),
                wall_time: WallTime { millis: 0 },
                timezone: "UTC".to_string(),
            },
        };
        self.trails.push(trail);
        assert(self.trails@.drop_last() =~= old(self).trails@);
        proof {
            if numbered(old(self).trails@, old(self).next_id, old(self).next_lc) && old(self).trails@.len() + 2 <= u64::MAX {
                assert forall|q: int| 0 <= q < self.trails@.len() implies (#[trigger] self.trails@[q]).trail_id == DecisionTrailId((q + 1) as u64)
                    && self.trails@[q].timestamp.logical_clock == LogicalClock((q + 1) as u64) by {
                    if q < old(self).trails@.len() {
                        assert(self.trails@[q] == old(self).trails@[q]);
                    }
                }
            }
        }
        Ok(DecisionTrailId(id))
    }

    /// Looks up the first trail with the given identifier; `TrailNotFound`
    /// when there is none.
    pub fn query_by_id(&self, trail_id: &DecisionTrailId) -> (r: Result<DecisionTrail, ObserveError>)
        ensures
            match r {
                Ok(t) => exists|i: int|
                    0 <= i < self.stored().len() && self.stored()[i].trail_id == *trail_id
                        && t.same_as(self.stored()[i]) && forall|j: int|
                        0 <= j < i ==> (#[trigger] self.stored()[j]).trail_id != *trail_id,
                Err(e) => e == ObserveError::TrailNotFound { trail_id: *trail_id } && forall|j: int|
                    0 <= j < self.stored().len() ==> (#[trigger] self.stored()[j]).trail_id != *trail_id,
            },
            numbered(self.stored(), self.id_counter(), self.clock()) && 1 <= trail_id.0 <= self.stored().len()
                ==> (r matches Ok(t) && t.same_as(self.stored()[trail_id.0 - 1])),
    {
        let mut i: usize = 0;
        while i < self.trails.len()
            invariant
                i <= self.trails@.len(),
                forall|j: int| 0 <= j < i ==> (#[trigger] self.trails@[j]).trail_id != *trail_id,
            decreases self.trails@.len() - i,
        {
            if self.trails[i].trail_id == *trail_id {
                let t = self.trails[i].copy();
                assert(t.same_as(self.stored()[i as int]));
                proof {
                    if numbered(self.trails@, self.next_id, self.next_lc) && 1 <= trail_id.0 <= self.trails@.len() {
                        assert(self.trails@[i as int].trail_id == DecisionTrailId((i + 1) as u64));
                    }
                }
                return Ok(t);
            }
            i = i + 1;
        }
        proof {
            if numbered(self.trails@, self.next_id, self.next_lc) && 1 <= trail_id.0 <= self.trails@.len() {
                let q = trail_id.0 - 1;
                assert(self.trails@[q].trail_id == DecisionTrailId((q + 1) as u64));
            }
        }
        Err(ObserveError::TrailNotFound { trail_id: *trail_id })
    }

    /// Returns copies of the trails that place the unit, oldest first.
    pub fn query_by_unit(&self, unit_id: &UnitId) -> (r: Result<Vec<DecisionTrail>, ObserveError>)
        ensures
            r matches Ok(v) && same_trails(
                v@,
                self.stored().filter(|t: DecisionTrail| places_unit(t, *unit_id)),
            ),
    {
        let mut out: Vec<DecisionTrail> = Vec::new();
        let mut i: usize = 0;
        while i < self.trails.len()
            invariant
                i <= self.trails@.len(),
                same_trails(
                    out@,
                    self.trails@.subrange(0, i as int).filter(|t: DecisionTrail| places_unit(t, *unit_id)),
                ),
            decreases self.trails@.len() - i,
        {
            let ghost pre = self.trails@.subrange(0, i as int);
            let ghost post = self.trails@.subrange(0, i + 1);
            assert(post.drop_last() =~= pre);
            let t = &self.trails[i];
            let mut found = false;
            let mut k: usize = 0;
            while k < t.placements.len()
                invariant
                    k <= t.placements@.len(),
                    found == exists|m: int| 0 <= m < k && (#[trigger] t.placements@[m]).unit_id == *unit_id,
                decreases t.placements@.len() - k,
            {
                if t.placements[k].unit_id == *unit_id {
                    found = true;
                }
                k = k + 1;
            }
            if found {
                out.push(t.copy());
            }
            proof {
                assert(post =~= pre.push(self.trails@[i as int]));
                pre.lemma_filter_push(self.trails@[i as int], |t: DecisionTrail| places_unit(t, *unit_id));
            }
            i = i + 1;
        }
        assert(self.trails@.subrange(0, self.trails@.len() as int) =~= self.trails@);
        Ok(out)
    }

    /// Returns copies of the trails whose logical clock lies in
    /// `[from_lc, to_lc]`, sorted by logical clock; trails with the same
    /// clock keep the order in which they were recorded.
    pub fn query_by_range(&self, from_lc: &LogicalClock, to_lc: &LogicalClock) -> (r: Result<Vec<DecisionTrail>, ObserveError>)
        ensures
            r matches Ok(v) && sorted_le(v@) && exists|c: Seq<DecisionTrail>|
                same_trails(c, self.stored().filter(|t: DecisionTrail| in_range(t, *from_lc, *to_lc)))
                    && #[trigger] c.to_multiset() == v@.to_multiset() && stable_perm(c, v@),
    {
        let mut out: Vec<DecisionTrail> = Vec::new();
        let mut i: usize = 0;
        while i < self.trails.len()
            invariant
                i <= self.trails@.len(),
                same_trails(
                    out@,
                    self.trails@.subrange(0, i as int).filter(|t: DecisionTrail| in_range(t, *from_lc, *to_lc)),
                ),
            decreases self.trails@.len() - i,
        {
            let ghost pre = self.trails@.subrange(0, i as int);
            let ghost post = self.trails@.subrange(0, i + 1);
            assert(post.drop_last() =~= pre);
            let lc = self.trails[i].timestamp.logical_clock.0;
            if from_lc.0 <= lc && lc <= to_lc.0 {
                out.push(self.trails[i].copy());
            }
            proof {
                assert(post =~= pre.push(self.trails@[i as int]));
                pre.lemma_filter_push(self.trails@[i as int], |t: DecisionTrail| in_range(t, *from_lc, *to_lc));
            }
            i = i + 1;
        }
        assert(self.trails@.subrange(0, self.trails@.len() as int) =~= self.trails@);
        let ghost c = out@;
        let sorted = sort_le(out);
        assert(c.to_multiset() == sorted@.to_multiset() && stable_perm(c, sorted@));
        Ok(sorted)
    }
}

} // verus!
