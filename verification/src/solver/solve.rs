//! The solver: deterministic composition and placement.
//!
//! Conflicts are detected first and fail closed; units in recovery cycles
//! are not placed; every other active workload is placed on the best
//! scoring node among those that can host it.

use vstd::prelude::*;
use crate::common::{NodeId, Ppm, UnitId};
use crate::model::{GraphSnapshot, NodeCapabilitySet, PromotionPolicy, Unit, Capability};
use crate::order::{Ordered, sort_le, sorted_le, lemma_perm_contains, lemma_perm_no_duplicates, lemma_push_contains, lemma_map_perm, lemma_filter_perm};
use crate::solver::conflict::{conflict_view, graph_conflicts, needs_conflicts, need_conflict, meets_need, copy_ids, DefaultConflictDetector};
use crate::solver::cycle::{is_cycle, graph_rel, dep_edge, is_active, starts_at_min, on_cycle, covered, chains_distinct, DefaultCycleDetector};
use crate::solver::error::SolverError;
use crate::solver::filter::{eligible_spec, eligible_prefix, DefaultCapabilityFilter};
use crate::solver::membership::{MembershipSnapshot, NodeHealth, first_node, lemma_first_node};
use crate::solver::placement::{Conflict, ConflictStatus, Placement, RecoveryCycle, SolverResult};
use crate::solver::promotion::DefaultPromotionEvaluator;
use crate::solver::resource::DefaultResourceRanker;
use crate::solver::scorer::{scored_prefix, score_result_spec, score_spec, DefaultPlacementScorer};

verus! {

/// Unit `u` is named by a conflict: until a policy resolves it, composition
/// is refused.
pub open spec fn in_conflict(conflicts: Seq<Conflict>, u: UnitId) -> bool {
    exists|c: int| 0 <= c < conflicts.len() && (#[trigger] conflicts[c]).units@.contains(u)
}

/// `c` is the first conflict that names `u`.
pub open spec fn first_conflict_at(conflicts: Seq<Conflict>, u: UnitId, c: int) -> bool {
    &&& 0 <= c < conflicts.len()
    &&& conflicts[c].units@.contains(u)
    &&& forall|d: int| 0 <= d < c ==> !(#[trigger] conflicts[d]).units@.contains(u)
}

/// Entry `i` is an active workload.
pub open spec fn active_workload(graph: GraphSnapshot, i: int) -> bool {
    0 <= i < graph.entries@.len() && !graph.entries@[i].archived && graph.entries@[i].unit is Workload
}

/// The capability filter admits node `id` of the snapshot for the unit.
pub open spec fn node_eligible(unit: Unit, nodes: Seq<(NodeId, NodeCapabilitySet, NodeHealth)>, id: NodeId) -> bool {
    exists|k: int| 0 <= k < nodes.len() && (#[trigger] nodes[k]).0 == id
        && eligible_spec(unit, nodes[k].1, Seq::<PromotionPolicy>::empty())
}

/// `x` is the best of the candidates: highest score, then lowest node.
pub open spec fn is_best(s: Seq<(NodeId, Ppm)>, x: (NodeId, Ppm)) -> bool {
    s.contains(x) && forall|y: (NodeId, Ppm)| s.contains(y) ==> x.le_spec(y)
}

/// The candidates for a unit: the scored nodes that the capability filter
/// admits, with their scores.
pub open spec fn candidates(unit: Unit, membership: MembershipSnapshot) -> Seq<(NodeId, Ppm)> {
    scored_prefix(unit, membership.nodes@, membership.nodes@.len() as int)
        .filter(|x: (NodeId, Ppm)| node_eligible(unit, membership.nodes@, x.0))
}

/// A placement the solver may make: an active workload named by no
/// conflict and on no recovery cycle, placed on its best candidate among
/// the nodes the capability filter admits.
pub open spec fn placed_ok(graph: GraphSnapshot, membership: MembershipSnapshot, conflicts: Seq<Conflict>, p: Placement) -> bool {
    !on_cycle(graph.entries@, p.unit) && exists|i: int| #[trigger] active_workload(graph, i) && graph.entries@[i].unit.header_spec().id == p.unit
        && !in_conflict(conflicts, p.unit)
        && is_best(candidates(graph.entries@[i].unit, membership), (p.node, p.score))
}

/// A failure the solver may report for `u`: the first conflict naming it
/// when a conflict names it; otherwise a recovery cycle through it, or,
/// when it lies on no cycle, no capable node when no admitted node scores.
pub open spec fn failed_ok(graph: GraphSnapshot, membership: MembershipSnapshot, conflicts: Seq<Conflict>, u: UnitId, e: SolverError) -> bool {
    exists|i: int| #[trigger] active_workload(graph, i) && graph.entries@[i].unit.header_spec().id == u && {
        let unit = graph.entries@[i].unit;
        if in_conflict(conflicts, u) {
            e matches SolverError::UnresolvedConflict { conflict } && exists|c: int| first_conflict_at(conflicts, u, c)
                && conflict_view(conflict) == conflict_view(conflicts[c])
        } else {
            ||| (e matches SolverError::CyclicDependency { cycle } && is_cycle(graph_rel(graph.entries@), cycle.chain@)
                && starts_at_min(cycle.chain@) && cycle.chain@.contains(u))
            ||| (e matches SolverError::NoCapableNode { unit: v, unmet } && v == u && unmet@ == unit.needs_spec()
                && !on_cycle(graph.entries@, u) && candidates(unit, membership).len() == 0)
        }
    }
}

/// `cs` is a list of cycles that cycle detection may report for the graph:
/// what `DefaultCycleDetector::detect_cycles` ensures.
pub open spec fn detected(graph: GraphSnapshot, cs: Seq<RecoveryCycle>) -> bool {
    &&& forall|k: int| 0 <= k < cs.len() ==> is_cycle(graph_rel(graph.entries@), (#[trigger] cs[k]).chain@)
        && starts_at_min(cs[k].chain@)
    &&& chains_distinct(cs)
    &&& forall|u: UnitId| on_cycle(graph.entries@, u) ==> covered(cs, u)
    &&& (cs.len() == 0 <==> forall|c: Seq<UnitId>| !is_cycle(graph_rel(graph.entries@), c))
}

/// Chain `x` of `cs` is the first that passes through `u`.
pub open spec fn first_cycle_at(cs: Seq<RecoveryCycle>, u: UnitId, x: int) -> bool {
    &&& 0 <= x < cs.len()
    &&& cs[x].chain@.contains(u)
    &&& forall|j: int| 0 <= j < x ==> !(#[trigger] cs[j]).chain@.contains(u)
}

/// Every recovery cycle reported in `failures` is the first of `cs`
/// through its unit.
pub open spec fn cycles_from(cs: Seq<RecoveryCycle>, failures: Seq<(UnitId, SolverError)>) -> bool {
    forall|k: int| 0 <= k < failures.len() ==> ((#[trigger] failures[k]).1 matches SolverError::CyclicDependency { cycle }
        ==> exists|x: int| first_cycle_at(cs, failures[k].0, x) && cycle.chain@ == cs[x].chain@)
}

/// The identifiers of the active workloads among the first `n` entries.
pub open spec fn workload_ids(graph: GraphSnapshot, n: int) -> Seq<UnitId>
    decreases n,
{
    if n <= 0 {
        Seq::empty()
    } else {
        let rest = workload_ids(graph, n - 1);
        if active_workload(graph, n - 1) { rest.push(graph.entries@[n - 1].unit.header_spec().id) } else { rest }
    }
}

/// The units a result speaks of: placed, then unplaceable.
pub open spec fn result_units(r: SolverResult) -> Seq<UnitId> {
    r.placements@.map_values(|p: Placement| p.unit) + r.unplaceable@.map_values(|f: (UnitId, SolverError)| f.0)
}

/// Default solver.
#[derive(Clone, Copy, Debug, Default, PartialEq, Eq)]
pub struct DefaultSolver {
    conflict_detector: DefaultConflictDetector,
    cycle_detector: DefaultCycleDetector,
    capability_filter: DefaultCapabilityFilter,
    scorer: DefaultPlacementScorer,
    resource_ranker: DefaultResourceRanker,
    promotion_evaluator: DefaultPromotionEvaluator,
}

impl DefaultSolver {
    /// Creates a solver from the default components (every component is
    /// stateless, so there is one such solver).
    pub fn new() -> (r: Self) {
        DefaultSolver {
            conflict_detector: DefaultConflictDetector::new(),
            cycle_detector: DefaultCycleDetector::new(),
            capability_filter: DefaultCapabilityFilter::new(),
            scorer: DefaultPlacementScorer::new(),
            resource_ranker: DefaultResourceRanker::new(),
            promotion_evaluator: DefaultPromotionEvaluator::new(),
        }
    }

    /// The node identifiers and capability sets of the snapshot.
    fn collect_node_caps(membership: &MembershipSnapshot) -> (r: Vec<(NodeId, NodeCapabilitySet)>)
        ensures
            r@.len() == membership.nodes@.len(),
            forall|k: int| 0 <= k < r@.len() ==> (#[trigger] r@[k]).0 == membership.nodes@[k].0
                && r@[k].1.same_as(membership.nodes@[k].1),
    {
        let mut out: Vec<(NodeId, NodeCapabilitySet)> = Vec::new();
        let mut i: usize = 0;
        while i < membership.nodes.len()
            invariant
                i <= membership.nodes@.len(),
                out@.len() == i,
                forall|k: int| 0 <= k < i ==> (#[trigger] out@[k]).0 == membership.nodes@[k].0
                    && out@[k].1.same_as(membership.nodes@[k].1),
            decreases membership.nodes@.len() - i,
        {
            out.push((membership.nodes[i].0, membership.nodes[i].1.copy()));
            i = i + 1;
        }
        out
    }

    /// Whether a conflict names `u`.
    fn named_in_conflict(conflicts: &Vec<Conflict>, u: UnitId) -> (r: bool)
        ensures r == in_conflict(conflicts@, u),
    {
        let mut c: usize = 0;
        while c < conflicts.len()
            invariant
                c <= conflicts@.len(),
                forall|d: int| 0 <= d < c ==> !(#[trigger] conflicts@[d]).units@.contains(u),
            decreases conflicts@.len() - c,
        {
            if contains_unit_id(&conflicts[c].units, u) {
                return true;
            }
            c = c + 1;
        }
        false
    }
}

fn contains_unit_id(v: &Vec<UnitId>, id: UnitId) -> (r: bool)
    ensures r == v@.contains(id),
{
    let mut i: usize = 0;
    while i < v.len()
        invariant
            i <= v@.len(),
            forall|j: int| 0 <= j < i ==> v@[j] != id,
        decreases v@.len() - i,
    {
        if v[i].0 == id.0 {
            return true;
        }
        i = i + 1;
    }
    false
}

/// The units of a result grow by the unit of whatever was added.
proof fn lemma_units_step(pl0: Seq<Placement>, un0: Seq<(UnitId, SolverError)>, pl: Seq<Placement>, un: Seq<(UnitId, SolverError)>)
    requires
        (pl == pl0 && un == un0)
            || (un == un0 && pl.len() == pl0.len() + 1 && pl.drop_last() == pl0)
            || (pl == pl0 && un.len() == un0.len() + 1 && un.drop_last() == un0),
    ensures
        pl == pl0 && un == un0 ==> (pl.map_values(|p: Placement| p.unit) + un.map_values(|f: (UnitId, SolverError)| f.0)).to_multiset()
            == (pl0.map_values(|p: Placement| p.unit) + un0.map_values(|f: (UnitId, SolverError)| f.0)).to_multiset(),
        pl.len() == pl0.len() + 1 ==> (pl.map_values(|p: Placement| p.unit) + un.map_values(|f: (UnitId, SolverError)| f.0)).to_multiset()
            == (pl0.map_values(|p: Placement| p.unit) + un0.map_values(|f: (UnitId, SolverError)| f.0)).to_multiset().insert(pl.last().unit),
        un.len() == un0.len() + 1 ==> (pl.map_values(|p: Placement| p.unit) + un.map_values(|f: (UnitId, SolverError)| f.0)).to_multiset()
            == (pl0.map_values(|p: Placement| p.unit) + un0.map_values(|f: (UnitId, SolverError)| f.0)).to_multiset().insert(un.last().0),
{
    broadcast use vstd::seq_lib::group_to_multiset_ensures;
    broadcast use vstd::multiset::group_multiset_axioms;
    let a0 = pl0.map_values(|p: Placement| p.unit);
    let b0 = un0.map_values(|f: (UnitId, SolverError)| f.0);
    let a = pl.map_values(|p: Placement| p.unit);
    let b = un.map_values(|f: (UnitId, SolverError)| f.0);
    vstd::seq_lib::lemma_multiset_commutative(a0, b0);
    vstd::seq_lib::lemma_multiset_commutative(a, b);
    if pl.len() == pl0.len() + 1 {
        assert(pl =~= pl0.push(pl.last()));
        assert(a =~= a0.push(pl.last().unit));
        assert(b =~= b0);
    } else if un.len() == un0.len() + 1 {
        assert(un =~= un0.push(un.last()));
        assert(b =~= b0.push(un.last().0));
        assert(a =~= a0);
    }
}

/// One more entry adds its unit when it is an active workload.
proof fn lemma_ids_step(graph: GraphSnapshot, i: int)
    requires
        active_workload(graph, i),
    ensures
        workload_ids(graph, i + 1).to_multiset() == workload_ids(graph, i).to_multiset().insert(graph.entries@[i].unit.header_spec().id),
{
    broadcast use vstd::seq_lib::group_to_multiset_ensures;
    assert(workload_ids(graph, i + 1) == workload_ids(graph, i).push(graph.entries@[i].unit.header_spec().id));
}


/// Eligibility reads only the values of a capability set.
proof fn lemma_eligible_same(unit: Unit, a: NodeCapabilitySet, b: NodeCapabilitySet)
    requires
        a.same_as(b),
    ensures
        eligible_spec(unit, a, Seq::<PromotionPolicy>::empty()) == eligible_spec(unit, b, Seq::<PromotionPolicy>::empty()),
{
    assert(a.custom_tags@ =~= b.custom_tags@);
}


fn contains_node_id(v: &Vec<NodeId>, id: NodeId) -> (r: bool)
    ensures r == v@.contains(id),
{
    let mut i: usize = 0;
    while i < v.len()
        invariant
            i <= v@.len(),
            forall|j: int| 0 <= j < i ==> v@[j] != id,
        decreases v@.len() - i,
    {
        if v[i].0 == id.0 {
            return true;
        }
        i = i + 1;
    }
    false
}

/// A node is among the filter's first `n` results exactly when one of the
/// first `n` entries with its identifier is eligible.
proof fn lemma_eligible_prefix_contains(unit: Unit, nodes: Seq<(NodeId, NodeCapabilitySet)>, n: int, id: NodeId)
    requires
        0 <= n <= nodes.len(),
    ensures
        eligible_prefix(unit, nodes, Seq::<PromotionPolicy>::empty(), n).contains(id)
            <==> exists|k: int| 0 <= k < n && (#[trigger] nodes[k]).0 == id && eligible_spec(unit, nodes[k].1, Seq::<PromotionPolicy>::empty()),
    decreases n,
{
    if n > 0 {
        lemma_eligible_prefix_contains(unit, nodes, n - 1, id);
        let rest = eligible_prefix(unit, nodes, Seq::<PromotionPolicy>::empty(), n - 1);
        crate::order::lemma_push_contains(rest, nodes[n - 1].0, id);
        if exists|k: int| 0 <= k < n && (#[trigger] nodes[k]).0 == id && eligible_spec(unit, nodes[k].1, Seq::<PromotionPolicy>::empty()) {
            let k = choose|k: int| 0 <= k < n && (#[trigger] nodes[k]).0 == id && eligible_spec(unit, nodes[k].1, Seq::<PromotionPolicy>::empty());
            if k < n - 1 {
                assert(rest.contains(id));
            }
        }
    }
}

/// The filter's output holds exactly the admitted node identifiers.
proof fn lemma_eligible_ids(unit: Unit, node_caps: Seq<(NodeId, NodeCapabilitySet)>, membership: MembershipSnapshot, eligible: Seq<NodeId>)
    requires
        node_caps.len() == membership.nodes@.len(),
        forall|k: int| 0 <= k < node_caps.len() ==> (#[trigger] node_caps[k]).0 == membership.nodes@[k].0
            && node_caps[k].1.same_as(membership.nodes@[k].1),
        eligible.to_multiset() == eligible_prefix(unit, node_caps, Seq::<PromotionPolicy>::empty(), node_caps.len() as int).to_multiset(),
    ensures
        forall|id: NodeId| #[trigger] eligible.contains(id) <==> node_eligible(unit, membership.nodes@, id),
{
    let n = node_caps.len() as int;
    lemma_perm_contains(eligible, eligible_prefix(unit, node_caps, Seq::<PromotionPolicy>::empty(), n));
    assert forall|id: NodeId| #[trigger] eligible.contains(id) <==> node_eligible(unit, membership.nodes@, id) by {
        lemma_eligible_prefix_contains(unit, node_caps, n, id);
        if node_eligible(unit, membership.nodes@, id) {
            let k = choose|k: int| 0 <= k < membership.nodes@.len() && (#[trigger] membership.nodes@[k]).0 == id
                && eligible_spec(unit, membership.nodes@[k].1, Seq::<PromotionPolicy>::empty());
            lemma_eligible_same(unit, node_caps[k].1, membership.nodes@[k].1);
            assert(node_caps[k].0 == id);
        }
        if exists|k: int| 0 <= k < n && (#[trigger] node_caps[k]).0 == id && eligible_spec(unit, node_caps[k].1, Seq::<PromotionPolicy>::empty()) {
            let k = choose|k: int| 0 <= k < n && (#[trigger] node_caps[k]).0 == id && eligible_spec(unit, node_caps[k].1, Seq::<PromotionPolicy>::empty());
            lemma_eligible_same(unit, node_caps[k].1, membership.nodes@[k].1);
            assert(membership.nodes@[k].0 == id);
        }
    }
}

/// Membership in a filtered sequence.
proof fn lemma_filter_contains_iff<A>(s: Seq<A>, p: spec_fn(A) -> bool, x: A)
    ensures
        s.filter(p).contains(x) <==> s.contains(x) && p(x),
{
    broadcast use vstd::seq_lib::group_filter_ensures;
    if s.filter(p).contains(x) {
        s.lemma_filter_contains_rev(p, x);
        let i = choose|i: int| 0 <= i < s.filter(p).len() && s.filter(p)[i] == x;
        assert(p(s.filter(p)[i]));
    }
    if s.contains(x) && p(x) {
        let i = choose|i: int| 0 <= i < s.len() && s[i] == x;
        s.lemma_filter_contains(p, i);
    }
}

/// With no admitted node among the ranked ones, there is no candidate.
proof fn lemma_no_candidate(ranked: Seq<(NodeId, Ppm)>, all: Seq<(NodeId, Ppm)>, p: spec_fn((NodeId, Ppm)) -> bool)
    requires
        ranked.to_multiset() == all.to_multiset(),
        forall|j: int| 0 <= j < ranked.len() ==> !p(#[trigger] ranked[j]),
    ensures
        all.filter(p).len() == 0,
{
    lemma_perm_contains(ranked, all);
    if all.filter(p).len() > 0 {
        let x = all.filter(p)[0];
        assert(all.filter(p).contains(x));
        lemma_filter_contains_iff(all, p, x);
        assert(ranked.contains(x));
        let j = choose|j: int| 0 <= j < ranked.len() && ranked[j] == x;
        assert(!p(ranked[j]));
    }
}

/// The first admitted element of a sorted permutation of the scored nodes
/// is the best admitted candidate.
proof fn lemma_first_admitted_is_best(ranked: Seq<(NodeId, Ppm)>, all: Seq<(NodeId, Ppm)>, p: spec_fn((NodeId, Ppm)) -> bool, q: int)
    requires
        0 <= q < ranked.len(),
        sorted_le(ranked),
        ranked.to_multiset() == all.to_multiset(),
        p(ranked[q]),
        forall|j: int| 0 <= j < q ==> !p(#[trigger] ranked[j]),
    ensures
        is_best(all.filter(p), ranked[q]),
{
    lemma_perm_contains(ranked, all);
    assert(ranked.contains(ranked[q]));
    lemma_filter_contains_iff(all, p, ranked[q]);
    assert forall|y: (NodeId, Ppm)| all.filter(p).contains(y) implies ranked[q].le_spec(y) by {
        lemma_filter_contains_iff(all, p, y);
        assert(ranked.contains(y));
        let j = choose|j: int| 0 <= j < ranked.len() && ranked[j] == y;
        if j < q {
            assert(!p(ranked[j]));
        } else if j > q {
            assert(ranked[q].le_spec(ranked[j]));
        }
    }
}

impl DefaultSolver {
    /// Solves the graph against the membership: detects conflicts and
    /// recovery cycles, then places every active workload that no conflict
    /// names and that lies on no recovery cycle on the best scoring node
    /// that the capability filter admits. The others are reported
    /// unplaceable: with the first conflict that names them, else with the
    /// first detected cycle through them, else as having no capable node.
    /// All lists are sorted.
    pub fn solve(&self, graph: &GraphSnapshot, membership: &MembershipSnapshot) -> (r: SolverResult)
        requires
            graph.wf(),
        ensures
            sorted_le(r.conflicts@),
            r.conflicts@.map_values(|c: Conflict| conflict_view(c)).to_multiset()
                == graph_conflicts(*graph, graph.entries@.len() as int).to_multiset(),
            sorted_le(r.placements@),
            sorted_le(r.unplaceable@),
            forall|k: int| 0 <= k < r.placements@.len() ==> placed_ok(*graph, *membership, r.conflicts@, #[trigger] r.placements@[k]),
            forall|k: int| 0 <= k < r.unplaceable@.len() ==> failed_ok(*graph, *membership, r.conflicts@,
                (#[trigger] r.unplaceable@[k]).0, r.unplaceable@[k].1),
            result_units(r).to_multiset() == workload_ids(*graph, graph.entries@.len() as int).to_multiset(),
            exists|cs: Seq<RecoveryCycle>| #[trigger] detected(*graph, cs) && cycles_from(cs, r.unplaceable@),
    {
        let conflicts = self.conflict_detector.detect_conflicts(graph);
        let cycles = self.cycle_detector.detect_cycles(graph);
        assert(detected(*graph, cycles@));
        let promotions: Vec<PromotionPolicy> = Vec::new();
        let node_caps = Self::collect_node_caps(membership);
        proof {
            assert(promotions@ =~= Seq::<PromotionPolicy>::empty());
        }
        let entries = &graph.entries;
        let mut placements: Vec<Placement> = Vec::new();
        let mut unplaceable: Vec<(UnitId, SolverError)> = Vec::new();
        proof {
            broadcast use vstd::seq_lib::group_to_multiset_ensures;
            assert(placements@.map_values(|p: Placement| p.unit) + unplaceable@.map_values(|f: (UnitId, SolverError)| f.0)
                =~= Seq::<UnitId>::empty());
            assert(workload_ids(*graph, 0) =~= Seq::<UnitId>::empty());
        }
        let mut i: usize = 0;
        while i < entries.len()
            invariant
                i <= entries@.len(),
                entries@ == graph.entries@,
                graph.wf(),
                promotions@ == Seq::<PromotionPolicy>::empty(),
                node_caps@.len() == membership.nodes@.len(),
                forall|k: int| 0 <= k < node_caps@.len() ==> (#[trigger] node_caps@[k]).0 == membership.nodes@[k].0
                    && node_caps@[k].1.same_as(membership.nodes@[k].1),
                forall|k: int| 0 <= k < cycles@.len() ==> is_cycle(graph_rel(graph.entries@), (#[trigger] cycles@[k]).chain@)
                    && starts_at_min(cycles@[k].chain@),
                forall|u: UnitId| on_cycle(graph.entries@, u) ==> covered(cycles@, u),
                detected(*graph, cycles@),
                cycles_from(cycles@, unplaceable@),
                forall|k: int| 0 <= k < placements@.len() ==> placed_ok(*graph, *membership, conflicts@, #[trigger] placements@[k]),
                forall|k: int| 0 <= k < unplaceable@.len() ==> failed_ok(*graph, *membership, conflicts@,
                    (#[trigger] unplaceable@[k]).0, unplaceable@[k].1),
                (placements@.map_values(|p: Placement| p.unit) + unplaceable@.map_values(|f: (UnitId, SolverError)| f.0)).to_multiset()
                    == workload_ids(*graph, i as int).to_multiset(),
            decreases entries@.len() - i,
        {
            let ghost pl_before = placements@;
            let ghost un_before = unplaceable@;
            if !entries[i].archived && entries[i].unit.kind() == crate::model::UnitKind::Workload {
                let unit = &entries[i].unit;
                let uid = unit.id();
                proof {
                    assert(active_workload(*graph, i as int));
                }
                if Self::named_in_conflict(&conflicts, uid) {
                    let mut c: usize = 0;
                    while c < conflicts.len() && !contains_unit_id(&conflicts[c].units, uid)
                        invariant
                            c <= conflicts@.len(),
                            in_conflict(conflicts@, uid),
                            forall|d: int| 0 <= d < c ==> !(#[trigger] conflicts@[d]).units@.contains(uid),
                        decreases conflicts@.len() - c,
                    {
                        c = c + 1;
                    }
                    if c >= conflicts.len() {
                        proof {
                            let d = choose|d: int| 0 <= d < conflicts@.len() && (#[trigger] conflicts@[d]).units@.contains(uid);
                            assert(!conflicts@[d].units@.contains(uid));
                        }
                    }
                    let found = &conflicts[c];
                    let conflict = Conflict { units: copy_ids(&found.units), capability: found.capability.copy(), status: found.status };
                    unplaceable.push((uid, SolverError::UnresolvedConflict { conflict }));
                    proof {
                        assert(first_conflict_at(conflicts@, uid, c as int));
                        assert(failed_ok(*graph, *membership, conflicts@, uid, unplaceable@.last().1));
                        assert(unplaceable@.drop_last() =~= un_before);
                        lemma_units_step(pl_before, un_before, placements@, unplaceable@);
                        lemma_ids_step(*graph, i as int);
                    }
                } else {
                    let mut cy: usize = 0;
                    let mut cyc: Option<usize> = None;
                    while cy < cycles.len() && cyc.is_none()
                        invariant
                            cy <= cycles@.len(),
                            cyc matches Some(x) ==> x < cycles@.len() && cycles@[x as int].chain@.contains(uid),
                            cyc is None ==> forall|j: int| 0 <= j < cy ==> !(#[trigger] cycles@[j]).chain@.contains(uid),
                            cyc matches Some(x) ==> forall|j: int| 0 <= j < x ==> !(#[trigger] cycles@[j]).chain@.contains(uid),
                        decreases cycles@.len() - cy,
                    {
                        if contains_unit_id(&cycles[cy].chain, uid) {
                            cyc = Some(cy);
                        }
                        cy = cy + 1;
                    }
                    match cyc {
                        Some(x) => {
                            let cycle = RecoveryCycle { chain: copy_ids(&cycles[x].chain) };
                            let ghost cg = cycle;
                            unplaceable.push((uid, SolverError::CyclicDependency { cycle }));
                            proof {
                                assert(first_cycle_at(cycles@, uid, x as int));
                                assert forall|k: int| 0 <= k < unplaceable@.len() implies ((#[trigger] unplaceable@[k]).1 matches SolverError::CyclicDependency { cycle }
                                    ==> exists|y: int| first_cycle_at(cycles@, unplaceable@[k].0, y) && cycle.chain@ == cycles@[y].chain@) by {
                                    if k < un_before.len() {
                                        assert(unplaceable@[k] == un_before[k]);
                                    } else {
                                        assert(unplaceable@[k] == (uid, SolverError::CyclicDependency { cycle: cg }));
                                        assert(cg.chain@ == cycles@[x as int].chain@);
                                        assert(first_cycle_at(cycles@, unplaceable@[k].0, x as int));
                                    }
                                }
                                assert(failed_ok(*graph, *membership, conflicts@, uid, unplaceable@.last().1));
                                assert(unplaceable@.drop_last() =~= un_before);
                                lemma_units_step(pl_before, un_before, placements@, unplaceable@);
                                lemma_ids_step(*graph, i as int);
                            }
                        },
                        None => {
                            proof {
                                if on_cycle(graph.entries@, uid) {
                                    assert(covered(cycles@, uid));
                                    let j = choose|j: int| 0 <= j < cycles@.len() && (#[trigger] cycles@[j]).chain@.contains(uid);
                                    assert(!cycles@[j].chain@.contains(uid));
                                }
                            }
                            let eligible = self.capability_filter.filter(unit, &node_caps, &promotions);
                            let ranked = self.scorer.rank_nodes(unit, graph, membership);
                            let mut q: usize = 0;
                            while q < ranked.len() && !contains_node_id(&eligible, ranked[q].0)
                                invariant
                                    q <= ranked@.len(),
                                    forall|j: int| 0 <= j < q ==> !eligible@.contains((#[trigger] ranked@[j]).0),
                                decreases ranked@.len() - q,
                            {
                                q = q + 1;
                            }
                            proof {
                                lemma_eligible_ids(*unit, node_caps@, *membership, eligible@);
                            }
                            if q >= ranked.len() {
                                proof {
                                    lemma_no_candidate(ranked@, scored_prefix(*unit, membership.nodes@, membership.nodes@.len() as int),
                                        |x: (NodeId, Ppm)| node_eligible(*unit, membership.nodes@, x.0));
                                }
                                unplaceable.push((uid, SolverError::NoCapableNode { unit: uid, unmet: Capability::copy_all(unit.needs()) }));
                                proof {
                                    assert(failed_ok(*graph, *membership, conflicts@, uid, unplaceable@.last().1));
                                    assert(unplaceable@.drop_last() =~= un_before);
                                    lemma_units_step(pl_before, un_before, placements@, unplaceable@);
                                    lemma_ids_step(*graph, i as int);
                                }
                            } else {
                                proof {
                                    lemma_first_admitted_is_best(ranked@, scored_prefix(*unit, membership.nodes@, membership.nodes@.len() as int),
                                        |x: (NodeId, Ppm)| node_eligible(*unit, membership.nodes@, x.0), q as int);
                                }
                                placements.push(Placement { unit: uid, node: ranked[q].0, score: ranked[q].1 });
                                proof {
                                    assert(placed_ok(*graph, *membership, conflicts@, placements@.last()));
                                    assert(placements@.drop_last() =~= pl_before);
                                    lemma_units_step(pl_before, un_before, placements@, unplaceable@);
                                    lemma_ids_step(*graph, i as int);
                                }
                            }
                        },
                    }
                }
            }
            proof {
                assert forall|k: int| 0 <= k < placements@.len() implies placed_ok(*graph, *membership, conflicts@, #[trigger] placements@[k]) by {
                    if k < pl_before.len() {
                        assert(placements@[k] == pl_before[k]);
                    }
                }
                assert forall|k: int| 0 <= k < unplaceable@.len() implies failed_ok(*graph, *membership, conflicts@,
                    (#[trigger] unplaceable@[k]).0, unplaceable@[k].1) by {
                    if k < un_before.len() {
                        assert(unplaceable@[k] == un_before[k]);
                    }
                }
                assert forall|k: int| 0 <= k < unplaceable@.len() implies ((#[trigger] unplaceable@[k]).1 matches SolverError::CyclicDependency { cycle }
                    ==> exists|y: int| first_cycle_at(cycles@, unplaceable@[k].0, y) && cycle.chain@ == cycles@[y].chain@) by {
                    if k < un_before.len() {
                        assert(unplaceable@[k] == un_before[k]);
                    }
                }
                if !active_workload(*graph, i as int) {
                    assert(workload_ids(*graph, i + 1) == workload_ids(*graph, i as int));
                    lemma_units_step(pl_before, un_before, placements@, unplaceable@);
                }
            }
            i = i + 1;
        }
        let ghost pl_unsorted = placements@;
        let ghost un_unsorted = unplaceable@;
        let placements = sort_le(placements);
        let unplaceable = sort_le(unplaceable);
        let result = SolverResult { placements, unplaceable, conflicts };
        proof {
            lemma_perm_contains(pl_unsorted, result.placements@);
            lemma_perm_contains(un_unsorted, result.unplaceable@);
            assert forall|k: int| 0 <= k < result.placements@.len() implies placed_ok(*graph, *membership, result.conflicts@, #[trigger] result.placements@[k]) by {
                assert(result.placements@.contains(result.placements@[k]));
                let q = choose|q: int| 0 <= q < pl_unsorted.len() && pl_unsorted[q] == result.placements@[k];
                assert(placed_ok(*graph, *membership, result.conflicts@, pl_unsorted[q]));
            }
            assert forall|k: int| 0 <= k < result.unplaceable@.len() implies failed_ok(*graph, *membership, result.conflicts@,
                (#[trigger] result.unplaceable@[k]).0, result.unplaceable@[k].1) by {
                assert(result.unplaceable@.contains(result.unplaceable@[k]));
                let q = choose|q: int| 0 <= q < un_unsorted.len() && un_unsorted[q] == result.unplaceable@[k];
                assert(failed_ok(*graph, *membership, result.conflicts@, un_unsorted[q].0, un_unsorted[q].1));
            }
            assert forall|k: int| 0 <= k < result.unplaceable@.len() implies ((#[trigger] result.unplaceable@[k]).1 matches SolverError::CyclicDependency { cycle }
                ==> exists|y: int| first_cycle_at(cycles@, result.unplaceable@[k].0, y) && cycle.chain@ == cycles@[y].chain@) by {
                assert(result.unplaceable@.contains(result.unplaceable@[k]));
                let q = choose|q: int| 0 <= q < un_unsorted.len() && un_unsorted[q] == result.unplaceable@[k];
                assert(cycles_from(cycles@, un_unsorted));
            }
            assert(detected(*graph, cycles@) && cycles_from(cycles@, result.unplaceable@));
            lemma_map_perm(pl_unsorted, result.placements@, |p: Placement| p.unit);
            lemma_map_perm(un_unsorted, result.unplaceable@, |f: (UnitId, SolverError)| f.0);
            vstd::seq_lib::lemma_multiset_commutative(pl_unsorted.map_values(|p: Placement| p.unit),
                un_unsorted.map_values(|f: (UnitId, SolverError)| f.0));
            vstd::seq_lib::lemma_multiset_commutative(result.placements@.map_values(|p: Placement| p.unit),
                result.unplaceable@.map_values(|f: (UnitId, SolverError)| f.0));
        }
        result
    }
}

/// Holds of the units in `changed`.
pub open spec fn in_changed(changed: Seq<UnitId>) -> spec_fn(UnitId) -> bool {
    |u: UnitId| changed.contains(u)
}

/// Holds of the placements of units in `changed`.
pub open spec fn placement_in(changed: Seq<UnitId>) -> spec_fn(Placement) -> bool {
    |p: Placement| changed.contains(p.unit)
}

/// Holds of the failures of units in `changed`.
pub open spec fn failure_in(changed: Seq<UnitId>) -> spec_fn((UnitId, SolverError)) -> bool {
    |f: (UnitId, SolverError)| changed.contains(f.0)
}

/// `r` is a result that a full solve of the graph against the membership
/// may return: what `DefaultSolver::solve` ensures.
pub open spec fn solved(graph: GraphSnapshot, membership: MembershipSnapshot, r: SolverResult) -> bool {
    &&& sorted_le(r.conflicts@)
    &&& r.conflicts@.map_values(|c: Conflict| conflict_view(c)).to_multiset()
        == graph_conflicts(graph, graph.entries@.len() as int).to_multiset()
    &&& sorted_le(r.placements@)
    &&& sorted_le(r.unplaceable@)
    &&& forall|k: int| 0 <= k < r.placements@.len() ==> placed_ok(graph, membership, r.conflicts@, #[trigger] r.placements@[k])
    &&& forall|k: int| 0 <= k < r.unplaceable@.len() ==> failed_ok(graph, membership, r.conflicts@,
        (#[trigger] r.unplaceable@[k]).0, r.unplaceable@[k].1)
    &&& result_units(r).to_multiset() == workload_ids(graph, graph.entries@.len() as int).to_multiset()
    &&& exists|cs: Seq<RecoveryCycle>| #[trigger] detected(graph, cs) && cycles_from(cs, r.unplaceable@)
}

/// `r` is a full solve's result filtered to the changed units: its
/// placements and unplaceable units are those of the changed units, in
/// order, and its conflicts are all of the full result's.
pub open spec fn incrementally_solved(graph: GraphSnapshot, membership: MembershipSnapshot, changed: Seq<UnitId>, r: SolverResult) -> bool {
    exists|f: SolverResult| #[trigger] solved(graph, membership, f)
        && r.placements@ == f.placements@.filter(placement_in(changed))
        && r.unplaceable@ == f.unplaceable@.filter(failure_in(changed))
        && r.conflicts@ == f.conflicts@
}

impl DefaultSolver {
    /// Solves the whole graph and keeps the placements and unplaceable
    /// units of the changed units, in order; conflicts are all kept. The
    /// result is a full solve's result filtered to the changed units.
    pub fn solve_incremental(&self, graph: &GraphSnapshot, membership: &MembershipSnapshot, changed: &Vec<UnitId>) -> (r: SolverResult)
        requires
            graph.wf(),
        ensures
            sorted_le(r.conflicts@),
            r.conflicts@.map_values(|c: Conflict| conflict_view(c)).to_multiset()
                == graph_conflicts(*graph, graph.entries@.len() as int).to_multiset(),
            sorted_le(r.placements@),
            sorted_le(r.unplaceable@),
            forall|k: int| 0 <= k < r.placements@.len() ==> placed_ok(*graph, *membership, r.conflicts@, #[trigger] r.placements@[k]),
            forall|k: int| 0 <= k < r.unplaceable@.len() ==> failed_ok(*graph, *membership, r.conflicts@,
                (#[trigger] r.unplaceable@[k]).0, r.unplaceable@[k].1),
            result_units(r).to_multiset()
                == workload_ids(*graph, graph.entries@.len() as int).filter(in_changed(changed@)).to_multiset(),
            incrementally_solved(*graph, *membership, changed@, r),
    {
        let full = self.solve(graph, membership);
        let ghost q = in_changed(changed@);
        let ghost pp = placement_in(changed@);
        let ghost fp = failure_in(changed@);
        let mut placements: Vec<Placement> = Vec::new();
        let mut k: usize = 0;
        while k < full.placements.len()
            invariant
                k <= full.placements@.len(),
                q == in_changed(changed@),
                sorted_le(full.placements@),
                forall|j: int| 0 <= j < placements@.len() ==> exists|m: int| 0 <= m < k && (#[trigger] placements@[j]) == full.placements@[m],
                forall|a: int, b: int| 0 <= a < b < placements@.len() ==> #[trigger] placements@[a].le_spec(#[trigger] placements@[b]),
                forall|j: int| 0 <= j < placements@.len() ==> (#[trigger] placements@[j]).le_spec(full.placements@[k as int])
                    || k == full.placements@.len(),
                placements@.map_values(|p: Placement| p.unit) == full.placements@.subrange(0, k as int).map_values(|p: Placement| p.unit).filter(q),
                pp == placement_in(changed@),
                placements@ == full.placements@.subrange(0, k as int).filter(pp),
            decreases full.placements@.len() - k,
        {
            let ghost before = placements@;
            let x = full.placements[k];
            proof {
                let m0 = full.placements@.subrange(0, k as int).map_values(|p: Placement| p.unit);
                assert(full.placements@.subrange(0, k + 1).map_values(|p: Placement| p.unit) =~= m0.push(x.unit));
                m0.lemma_filter_push(x.unit, q);
                assert(full.placements@.subrange(0, k + 1) =~= full.placements@.subrange(0, k as int).push(x));
                full.placements@.subrange(0, k as int).lemma_filter_push(x, pp);
            }
            if contains_unit_id(changed, x.unit) {
                placements.push(x);
                proof {
                    assert(placements@.map_values(|p: Placement| p.unit) =~= before.map_values(|p: Placement| p.unit).push(x.unit));
                }
            }
            proof {
                assert forall|j: int| 0 <= j < placements@.len() implies exists|m: int| 0 <= m < k + 1 && (#[trigger] placements@[j]) == full.placements@[m] by {
                    if j < before.len() {
                        let m = choose|m: int| 0 <= m < k && (#[trigger] before[j]) == full.placements@[m];
                        assert(placements@[j] == before[j]);
                    } else {
                        assert(placements@[j] == full.placements@[k as int]);
                    }
                }
                if k + 1 < full.placements@.len() {
                    assert forall|j: int| 0 <= j < placements@.len() implies (#[trigger] placements@[j]).le_spec(full.placements@[k + 1]) by {
                        let m = choose|m: int| 0 <= m < k + 1 && (#[trigger] placements@[j]) == full.placements@[m];
                        if m < k + 1 {
                            assert(full.placements@[m].le_spec(full.placements@[k + 1]));
                        }
                    }
                }
            }
            k = k + 1;
        }
        let mut unplaceable: Vec<(UnitId, SolverError)> = Vec::new();
        let mut full_unplaceable = full.unplaceable;
        let ghost fu = full_unplaceable@;
        let mut rev: Vec<(UnitId, SolverError)> = Vec::new();
        while full_unplaceable.len() > 0
            invariant
                fu == full.unplaceable@,
                full_unplaceable@ == fu.subrange(0, full_unplaceable@.len() as int),
                rev@.len() + full_unplaceable@.len() == fu.len(),
                forall|j: int| 0 <= j < rev@.len() ==> #[trigger] rev@[j] == fu[fu.len() - 1 - j],
            decreases full_unplaceable@.len(),
        {
            let x = full_unplaceable.pop().unwrap();
            rev.push(x);
            proof {
                assert(full_unplaceable@ =~= fu.subrange(0, full_unplaceable@.len() as int));
            }
        }
        let mut taken: usize = 0;
        let total = rev.len();
        assert(rev@.len() == fu.len());
        while rev.len() > 0
            invariant
                fu.len() == total,
                fu == full.unplaceable@,
                q == in_changed(changed@),
                sorted_le(fu),
                taken + rev@.len() == fu.len(),
                forall|j: int| 0 <= j < rev@.len() ==> #[trigger] rev@[j] == fu[fu.len() - 1 - j],
                forall|j: int| 0 <= j < unplaceable@.len() ==> exists|m: int| 0 <= m < taken && (#[trigger] unplaceable@[j]) == fu[m],
                forall|a: int, b: int| 0 <= a < b < unplaceable@.len() ==> #[trigger] unplaceable@[a].le_spec(#[trigger] unplaceable@[b]),
                forall|j: int| 0 <= j < unplaceable@.len() ==> (#[trigger] unplaceable@[j]).le_spec(fu[taken as int])
                    || taken == fu.len(),
                unplaceable@.map_values(|f: (UnitId, SolverError)| f.0) == fu.subrange(0, taken as int).map_values(|f: (UnitId, SolverError)| f.0).filter(q),
                fp == failure_in(changed@),
                unplaceable@ == fu.subrange(0, taken as int).filter(fp),
            decreases rev@.len(),
        {
            let ghost before = unplaceable@;
            let ghost rb = rev@;
            let x = rev.pop().unwrap();
            proof {
                assert(x == fu[taken as int]);
                let m0 = fu.subrange(0, taken as int).map_values(|f: (UnitId, SolverError)| f.0);
                assert(fu.subrange(0, taken + 1).map_values(|f: (UnitId, SolverError)| f.0) =~= m0.push(x.0));
                m0.lemma_filter_push(x.0, q);
                assert(fu.subrange(0, taken + 1) =~= fu.subrange(0, taken as int).push(x));
                fu.subrange(0, taken as int).lemma_filter_push(x, fp);
            }
            let keep = contains_unit_id(changed, x.0);
            let ghost xg = x;
            if keep {
                unplaceable.push(x);
                proof {
                    assert(unplaceable@.map_values(|f: (UnitId, SolverError)| f.0) =~= before.map_values(|f: (UnitId, SolverError)| f.0).push(xg.0));
                }
            }
            proof {
                assert forall|j: int| 0 <= j < rev@.len() implies #[trigger] rev@[j] == fu[fu.len() - 1 - j] by {
                    assert(rev@[j] == rb[j]);
                }
                assert forall|j: int| 0 <= j < unplaceable@.len() implies exists|m: int| 0 <= m < taken + 1 && (#[trigger] unplaceable@[j]) == fu[m] by {
                    if j < before.len() {
                        let m = choose|m: int| 0 <= m < taken && (#[trigger] before[j]) == fu[m];
                        assert(unplaceable@[j] == before[j]);
                    } else {
                        assert(unplaceable@[j] == fu[taken as int]);
                    }
                }
                if taken + 1 < fu.len() {
                    assert forall|j: int| 0 <= j < unplaceable@.len() implies (#[trigger] unplaceable@[j]).le_spec(fu[taken + 1]) by {
                        let m = choose|m: int| 0 <= m < taken + 1 && (#[trigger] unplaceable@[j]) == fu[m];
                        assert(fu[m].le_spec(fu[taken + 1]));
                    }
                }
            }
            taken = taken + 1;
        }
        let r = SolverResult { placements, unplaceable, conflicts: full.conflicts };
        proof {
            assert(full.placements@.subrange(0, full.placements@.len() as int) =~= full.placements@);
            assert(fu.subrange(0, fu.len() as int) =~= fu);
            assert forall|j: int| 0 <= j < r.placements@.len() implies placed_ok(*graph, *membership, r.conflicts@, #[trigger] r.placements@[j]) by {
                let m = choose|m: int| 0 <= m < full.placements@.len() && (#[trigger] r.placements@[j]) == full.placements@[m];
                assert(placed_ok(*graph, *membership, full.conflicts@, full.placements@[m]));
            }
            assert forall|j: int| 0 <= j < r.unplaceable@.len() implies failed_ok(*graph, *membership, r.conflicts@,
                (#[trigger] r.unplaceable@[j]).0, r.unplaceable@[j].1) by {
                let m = choose|m: int| 0 <= m < fu.len() && (#[trigger] r.unplaceable@[j]) == fu[m];
                assert(failed_ok(*graph, *membership, full.conflicts@, fu[m].0, fu[m].1));
            }
            let a = full.placements@.map_values(|p: Placement| p.unit);
            let b = fu.map_values(|f: (UnitId, SolverError)| f.0);
            Seq::filter_distributes_over_add(a, b, q);
            lemma_filter_perm(a + b, workload_ids(*graph, graph.entries@.len() as int), q);
            assert(solved(*graph, *membership, full));
            assert(r.placements@ == full.placements@.filter(placement_in(changed@))
                && r.unplaceable@ == full.unplaceable@.filter(failure_in(changed@))
                && r.conflicts@ == full.conflicts@);
        }
        r
    }
}

/// Placement is deterministic: whatever conflicts two solver runs report,
/// if both place the same unit of the graph on the same membership, they
/// place it on the same node with the same score (the highest-scoring
/// candidate, ties broken by the lowest node identifier).
pub proof fn lemma_placement_determined(
    graph: GraphSnapshot,
    membership: MembershipSnapshot,
    conflicts1: Seq<Conflict>,
    conflicts2: Seq<Conflict>,
    p1: Placement,
    p2: Placement,
)
    requires
        graph.wf(),
        placed_ok(graph, membership, conflicts1, p1),
        placed_ok(graph, membership, conflicts2, p2),
        p1.unit == p2.unit,
    ensures
        p1 == p2,
{
    let i1 = choose|i: int| #[trigger] active_workload(graph, i) && graph.entries@[i].unit.header_spec().id == p1.unit
        && !in_conflict(conflicts1, p1.unit)
        && is_best(candidates(graph.entries@[i].unit, membership), (p1.node, p1.score));
    let i2 = choose|i: int| #[trigger] active_workload(graph, i) && graph.entries@[i].unit.header_spec().id == p2.unit
        && !in_conflict(conflicts2, p2.unit)
        && is_best(candidates(graph.entries@[i].unit, membership), (p2.node, p2.score));
    if i1 != i2 {
        if i1 < i2 {
            assert(graph.entries@[i1].unit.header_spec().id != graph.entries@[i2].unit.header_spec().id);
        } else {
            assert(graph.entries@[i2].unit.header_spec().id != graph.entries@[i1].unit.header_spec().id);
        }
    }
    let s = candidates(graph.entries@[i1].unit, membership);
    assert(s.contains((p2.node, p2.score)));
    assert((p1.node, p1.score).le_spec((p2.node, p2.score)));
    assert((p2.node, p2.score).le_spec((p1.node, p1.score)));
}

/// Placement does not depend on the order of the graph's entries: if one
/// solver run places a unit of a graph and another run places the same
/// unit of a graph with the same entries in another order, on the same
/// membership, both place it on the same node with the same score.
pub proof fn lemma_placement_order_independent(
    graph1: GraphSnapshot,
    graph2: GraphSnapshot,
    membership: MembershipSnapshot,
    conflicts1: Seq<Conflict>,
    conflicts2: Seq<Conflict>,
    p1: Placement,
    p2: Placement,
)
    requires
        graph1.wf(),
        graph1.entries@.to_multiset() == graph2.entries@.to_multiset(),
        placed_ok(graph1, membership, conflicts1, p1),
        placed_ok(graph2, membership, conflicts2, p2),
        p1.unit == p2.unit,
    ensures
        p1 == p2,
{
    let i1 = choose|i: int| #[trigger] active_workload(graph1, i) && graph1.entries@[i].unit.header_spec().id == p1.unit
        && !in_conflict(conflicts1, p1.unit)
        && is_best(candidates(graph1.entries@[i].unit, membership), (p1.node, p1.score));
    let i2 = choose|i: int| #[trigger] active_workload(graph2, i) && graph2.entries@[i].unit.header_spec().id == p2.unit
        && !in_conflict(conflicts2, p2.unit)
        && is_best(candidates(graph2.entries@[i].unit, membership), (p2.node, p2.score));
    let e2 = graph2.entries@[i2];
    lemma_perm_contains(graph1.entries@, graph2.entries@);
    assert(graph2.entries@.contains(e2));
    let k = choose|k: int| 0 <= k < graph1.entries@.len() && graph1.entries@[k] == e2;
    if k != i1 {
        if k < i1 {
            assert(graph1.entries@[k].unit.header_spec().id != graph1.entries@[i1].unit.header_spec().id);
        } else {
            assert(graph1.entries@[i1].unit.header_spec().id != graph1.entries@[k].unit.header_spec().id);
        }
    }
    let s = candidates(graph1.entries@[i1].unit, membership);
    assert(s.contains((p2.node, p2.score)));
    assert((p1.node, p1.score).le_spec((p2.node, p2.score)));
    assert((p2.node, p2.score).le_spec((p1.node, p1.score)));
}

/// The units a result places, in order.
pub open spec fn placed_units(r: SolverResult) -> Seq<UnitId> {
    r.placements@.map_values(|p: Placement| p.unit)
}

/// The units a result reports unplaceable, in order.
pub open spec fn failed_units(r: SolverResult) -> Seq<UnitId> {
    r.unplaceable@.map_values(|f: (UnitId, SolverError)| f.0)
}

/// Unit `u` can be placed: an active workload named by no conflict, on no
/// recovery cycle, with a node that the capability filter admits.
pub open spec fn placeable(graph: GraphSnapshot, membership: MembershipSnapshot, conflicts: Seq<Conflict>, u: UnitId) -> bool {
    exists|i: int| #[trigger] active_workload(graph, i) && graph.entries@[i].unit.header_spec().id == u
        && !in_conflict(conflicts, u) && !on_cycle(graph.entries@, u)
        && candidates(graph.entries@[i].unit, membership).len() > 0
}

/// The two errors are of the same kind.
pub open spec fn same_kind(a: SolverError, b: SolverError) -> bool {
    ||| a is UnresolvedConflict && b is UnresolvedConflict
    ||| a is CyclicDependency && b is CyclicDependency
    ||| a is NoCapableNode && b is NoCapableNode
}

/// The active workloads' identifiers are those of the entries that are
/// active workloads, each once.
proof fn lemma_workload_ids(graph: GraphSnapshot, n: int)
    requires
        graph.wf(),
        0 <= n <= graph.entries@.len(),
    ensures
        workload_ids(graph, n).no_duplicates(),
        forall|u: UnitId| workload_ids(graph, n).contains(u) <==> exists|i: int| 0 <= i < n && #[trigger] active_workload(graph, i)
            && graph.entries@[i].unit.header_spec().id == u,
    decreases n,
{
    if n > 0 {
        lemma_workload_ids(graph, n - 1);
        let rest = workload_ids(graph, n - 1);
        let id = graph.entries@[n - 1].unit.header_spec().id;
        if active_workload(graph, n - 1) {
            assert(!rest.contains(id)) by {
                if rest.contains(id) {
                    let i = choose|i: int| 0 <= i < n - 1 && #[trigger] active_workload(graph, i) && graph.entries@[i].unit.header_spec().id == id;
                    assert(graph.entries@[i].unit.header_spec().id != graph.entries@[n - 1].unit.header_spec().id);
                }
            }
            let all = rest.push(id);
            assert forall|a: int, b: int| 0 <= a < b < all.len() implies all[a] != all[b] by {
                if b == all.len() - 1 {
                    assert(all[a] == rest[a]);
                    assert(rest.contains(rest[a]));
                } else {
                    assert(all[a] == rest[a] && all[b] == rest[b]);
                }
            }
            assert forall|u: UnitId| all.contains(u) <==> exists|i: int| 0 <= i < n && #[trigger] active_workload(graph, i)
                && graph.entries@[i].unit.header_spec().id == u by {
                lemma_push_contains(rest, id, u);
                if exists|i: int| 0 <= i < n && #[trigger] active_workload(graph, i) && graph.entries@[i].unit.header_spec().id == u {
                    let i = choose|i: int| 0 <= i < n && #[trigger] active_workload(graph, i) && graph.entries@[i].unit.header_spec().id == u;
                    if i < n - 1 {
                        assert(rest.contains(u));
                    }
                }
            }
        } else {
            assert forall|u: UnitId| rest.contains(u) <==> exists|i: int| 0 <= i < n && #[trigger] active_workload(graph, i)
                && graph.entries@[i].unit.header_spec().id == u by {
                if exists|i: int| 0 <= i < n && #[trigger] active_workload(graph, i) && graph.entries@[i].unit.header_spec().id == u {
                    let i = choose|i: int| 0 <= i < n && #[trigger] active_workload(graph, i) && graph.entries@[i].unit.header_spec().id == u;
                    assert(i < n - 1);
                }
            }
        }
    }
}

/// Two lists of conflicts with the same views name the same units.
proof fn lemma_conflict_units(c1: Seq<Conflict>, c2: Seq<Conflict>)
    requires
        c1.map_values(|c: Conflict| conflict_view(c)).to_multiset() == c2.map_values(|c: Conflict| conflict_view(c)).to_multiset(),
    ensures
        forall|u: UnitId| in_conflict(c1, u) == in_conflict(c2, u),
{
    let v1 = c1.map_values(|c: Conflict| conflict_view(c));
    let v2 = c2.map_values(|c: Conflict| conflict_view(c));
    lemma_perm_contains(v1, v2);
    assert forall|u: UnitId| in_conflict(c1, u) implies in_conflict(c2, u) by {
        let c = choose|c: int| 0 <= c < c1.len() && (#[trigger] c1[c]).units@.contains(u);
        assert(v1[c] == conflict_view(c1[c]));
        assert(v1.contains(v1[c]));
        let d = choose|d: int| 0 <= d < v2.len() && v2[d] == v1[c];
        assert(c2[d].units@ == v2[d].0);
    }
    assert forall|u: UnitId| in_conflict(c2, u) implies in_conflict(c1, u) by {
        let d = choose|d: int| 0 <= d < c2.len() && (#[trigger] c2[d]).units@.contains(u);
        assert(v2[d] == conflict_view(c2[d]));
        assert(v2.contains(v2[d]));
        let c = choose|c: int| 0 <= c < v1.len() && v1[c] == v2[d];
        assert(c1[c].units@ == v1[c].0);
    }
}

/// Two strictly ascending identifier lists with the same members are equal.
proof fn lemma_ascending_unique(a: Seq<UnitId>, b: Seq<UnitId>)
    requires
        forall|i: int, j: int| 0 <= i < j < a.len() ==> (#[trigger] a[i]).0 < (#[trigger] a[j]).0,
        forall|i: int, j: int| 0 <= i < j < b.len() ==> (#[trigger] b[i]).0 < (#[trigger] b[j]).0,
        forall|x: UnitId| a.contains(x) <==> b.contains(x),
    ensures
        a == b,
    decreases a.len(),
{
    if a.len() == 0 {
        if b.len() > 0 {
            assert(b.contains(b[0]));
        }
        assert(a =~= b);
    } else {
        assert(a.contains(a[0]));
        if b.len() == 0 {
            assert(b.contains(a[0]));
        }
        assert(b.contains(b[0]));
        let j = choose|j: int| 0 <= j < b.len() && b[j] == a[0];
        let i = choose|i: int| 0 <= i < a.len() && a[i] == b[0];
        if i > 0 {
            assert(a[0].0 < a[i].0);
        }
        if j > 0 {
            assert(b[0].0 < b[j].0);
        }
        assert(a[0] == b[0]);
        let a1 = a.drop_first();
        let b1 = b.drop_first();
        assert forall|x: UnitId| a1.contains(x) <==> b1.contains(x) by {
            if a1.contains(x) {
                let k = choose|k: int| 0 <= k < a1.len() && a1[k] == x;
                assert(a[k + 1] == x);
                assert(a[0].0 < a[k + 1].0);
                assert(a.contains(x));
                let m = choose|m: int| 0 <= m < b.len() && b[m] == x;
                assert(m > 0);
                assert(b1[m - 1] == x);
            }
            if b1.contains(x) {
                let k = choose|k: int| 0 <= k < b1.len() && b1[k] == x;
                assert(b[k + 1] == x);
                assert(b[0].0 < b[k + 1].0);
                assert(b.contains(x));
                let m = choose|m: int| 0 <= m < a.len() && a[m] == x;
                assert(m > 0);
                assert(a1[m - 1] == x);
            }
        }
        assert forall|i: int, j: int| 0 <= i < j < a1.len() implies (#[trigger] a1[i]).0 < (#[trigger] a1[j]).0 by {
            assert(a1[i] == a[i + 1] && a1[j] == a[j + 1]);
        }
        assert forall|i: int, j: int| 0 <= i < j < b1.len() implies (#[trigger] b1[i]).0 < (#[trigger] b1[j]).0 by {
            assert(b1[i] == b[i + 1] && b1[j] == b[j + 1]);
        }
        lemma_ascending_unique(a1, b1);
        assert forall|k: int| 0 <= k < a.len() implies a[k] == b[k] by {
            if k > 0 {
                assert(a[k] == a1[k - 1] && b[k] == b1[k - 1]);
            }
        }
        assert(a =~= b);
    }
}

/// What a result places and reports unplaceable: it places exactly the
/// placeable units, reports exactly the other active workloads, names no
/// unit twice, and both lists ascend by unit.
proof fn lemma_result_units(graph: GraphSnapshot, membership: MembershipSnapshot, r: SolverResult)
    requires
        graph.wf(),
        solved(graph, membership, r),
    ensures
        forall|u: UnitId| placed_units(r).contains(u) <==> placeable(graph, membership, r.conflicts@, u),
        forall|u: UnitId| failed_units(r).contains(u) <==> workload_ids(graph, graph.entries@.len() as int).contains(u)
            && !placeable(graph, membership, r.conflicts@, u),
        forall|i: int, j: int| 0 <= i < j < placed_units(r).len() ==> (#[trigger] placed_units(r)[i]).0 < (#[trigger] placed_units(r)[j]).0,
        forall|i: int, j: int| 0 <= i < j < failed_units(r).len() ==> (#[trigger] failed_units(r)[i]).0 < (#[trigger] failed_units(r)[j]).0,
{
    let n = graph.entries@.len() as int;
    let ids = workload_ids(graph, n);
    let pu = placed_units(r);
    let fu = failed_units(r);
    let all = result_units(r);
    lemma_workload_ids(graph, n);
    lemma_perm_no_duplicates(ids, all);
    lemma_perm_contains(ids, all);
    assert(all =~= pu + fu);
    assert forall|i: int, j: int| 0 <= i < j < pu.len() implies (#[trigger] pu[i]).0 < (#[trigger] pu[j]).0 by {
        assert(all[i] == pu[i] && all[j] == pu[j]);
        assert(r.placements@[i].le_spec(r.placements@[j]));
    }
    assert forall|i: int, j: int| 0 <= i < j < fu.len() implies (#[trigger] fu[i]).0 < (#[trigger] fu[j]).0 by {
        assert(all[pu.len() + i] == fu[i] && all[pu.len() + j] == fu[j]);
        assert(r.unplaceable@[i].le_spec(r.unplaceable@[j]));
    }
    assert forall|u: UnitId| pu.contains(u) implies placeable(graph, membership, r.conflicts@, u) by {
        let k = choose|k: int| 0 <= k < pu.len() && pu[k] == u;
        let p = r.placements@[k];
        assert(placed_ok(graph, membership, r.conflicts@, p));
        let i = choose|i: int| #[trigger] active_workload(graph, i) && graph.entries@[i].unit.header_spec().id == p.unit
            && !in_conflict(r.conflicts@, p.unit)
            && is_best(candidates(graph.entries@[i].unit, membership), (p.node, p.score));
        assert(candidates(graph.entries@[i].unit, membership).contains((p.node, p.score)));
    }
    assert forall|u: UnitId| placeable(graph, membership, r.conflicts@, u) implies pu.contains(u) by {
        let i = choose|i: int| #[trigger] active_workload(graph, i) && graph.entries@[i].unit.header_spec().id == u
            && !in_conflict(r.conflicts@, u) && !on_cycle(graph.entries@, u)
            && candidates(graph.entries@[i].unit, membership).len() > 0;
        assert(ids.contains(u));
        assert(all.contains(u));
        let t = choose|t: int| 0 <= t < all.len() && all[t] == u;
        if t < pu.len() {
            assert(pu[t] == u);
        } else {
            let k = t - pu.len();
            assert(fu[k] == u);
            let e = r.unplaceable@[k];
            assert(failed_ok(graph, membership, r.conflicts@, e.0, e.1));
            let i2 = choose|i2: int| #[trigger] active_workload(graph, i2) && graph.entries@[i2].unit.header_spec().id == u && {
                let unit = graph.entries@[i2].unit;
                if in_conflict(r.conflicts@, u) {
                    e.1 matches SolverError::UnresolvedConflict { conflict } && exists|c: int| first_conflict_at(r.conflicts@, u, c)
                        && conflict_view(conflict) == conflict_view(r.conflicts@[c])
                } else {
                    ||| (e.1 matches SolverError::CyclicDependency { cycle } && is_cycle(graph_rel(graph.entries@), cycle.chain@)
                        && starts_at_min(cycle.chain@) && cycle.chain@.contains(u))
                    ||| (e.1 matches SolverError::NoCapableNode { unit: v, unmet } && v == u && unmet@ == unit.needs_spec()
                        && !on_cycle(graph.entries@, u) && candidates(unit, membership).len() == 0)
                }
            };
            if i2 != i {
                if i2 < i {
                    assert(graph.entries@[i2].unit.header_spec().id != graph.entries@[i].unit.header_spec().id);
                } else {
                    assert(graph.entries@[i].unit.header_spec().id != graph.entries@[i2].unit.header_spec().id);
                }
            }
            if let SolverError::CyclicDependency { cycle } = e.1 {
                assert(is_cycle(graph_rel(graph.entries@), cycle.chain@));
                assert(on_cycle(graph.entries@, u));
            }
        }
    }
    assert forall|u: UnitId| fu.contains(u) <==> ids.contains(u) && !placeable(graph, membership, r.conflicts@, u) by {
        if fu.contains(u) {
            let k = choose|k: int| 0 <= k < fu.len() && fu[k] == u;
            assert(all[pu.len() + k] == u);
            assert(all.contains(u));
            if pu.contains(u) {
                let t = choose|t: int| 0 <= t < pu.len() && pu[t] == u;
                assert(all[t] == u);
            }
        }
        if ids.contains(u) && !placeable(graph, membership, r.conflicts@, u) {
            assert(all.contains(u));
            let t = choose|t: int| 0 <= t < all.len() && all[t] == u;
            if t < pu.len() {
                assert(pu[t] == u);
                assert(pu.contains(u));
            } else {
                assert(fu[t - pu.len()] == u);
            }
        }
    }
}

/// Solving is deterministic in what it decides: any two results that
/// solving one graph against one membership may return place the same
/// units on the same nodes with the same scores, in the same order, and
/// report the same units unplaceable, in the same order, for the same kind
/// of reason (a conflict, a recovery cycle, or no capable node).
pub proof fn lemma_solve_determined(graph: GraphSnapshot, membership: MembershipSnapshot, r1: SolverResult, r2: SolverResult)
    requires
        graph.wf(),
        solved(graph, membership, r1),
        solved(graph, membership, r2),
    ensures
        r1.placements@ == r2.placements@,
        failed_units(r1) == failed_units(r2),
        forall|k: int| 0 <= k < r1.unplaceable@.len() ==> same_kind((#[trigger] r1.unplaceable@[k]).1, r2.unplaceable@[k].1),
{
    lemma_result_units(graph, membership, r1);
    lemma_result_units(graph, membership, r2);
    lemma_conflict_units(r1.conflicts@, r2.conflicts@);
    assert forall|u: UnitId| placeable(graph, membership, r1.conflicts@, u) == placeable(graph, membership, r2.conflicts@, u) by {
        assert(in_conflict(r1.conflicts@, u) == in_conflict(r2.conflicts@, u));
    }
    lemma_ascending_unique(placed_units(r1), placed_units(r2));
    lemma_ascending_unique(failed_units(r1), failed_units(r2));
    assert forall|k: int| 0 <= k < r1.placements@.len() implies r1.placements@[k] == r2.placements@[k] by {
        assert(placed_units(r1)[k] == placed_units(r2)[k]);
        assert(placed_ok(graph, membership, r1.conflicts@, r1.placements@[k]));
        assert(placed_ok(graph, membership, r2.conflicts@, r2.placements@[k]));
        lemma_placement_determined(graph, membership, r1.conflicts@, r2.conflicts@, r1.placements@[k], r2.placements@[k]);
    }
    assert(r1.placements@ =~= r2.placements@);
    assert forall|k: int| 0 <= k < r1.unplaceable@.len() implies same_kind((#[trigger] r1.unplaceable@[k]).1, r2.unplaceable@[k].1) by {
        let u = r1.unplaceable@[k].0;
        assert(failed_units(r1)[k] == failed_units(r2)[k]);
        assert(r2.unplaceable@[k].0 == u);
        assert(failed_ok(graph, membership, r1.conflicts@, u, r1.unplaceable@[k].1));
        assert(failed_ok(graph, membership, r2.conflicts@, u, r2.unplaceable@[k].1));
        assert(in_conflict(r1.conflicts@, u) == in_conflict(r2.conflicts@, u));
        if let SolverError::CyclicDependency { cycle } = r1.unplaceable@[k].1 {
            if !in_conflict(r1.conflicts@, u) {
                assert(is_cycle(graph_rel(graph.entries@), cycle.chain@));
                assert(on_cycle(graph.entries@, u));
            }
        }
        if let SolverError::CyclicDependency { cycle } = r2.unplaceable@[k].1 {
            if !in_conflict(r2.conflicts@, u) {
                assert(is_cycle(graph_rel(graph.entries@), cycle.chain@));
                assert(on_cycle(graph.entries@, u));
            }
        }
    }
}

/// Some need of an unarchived entry with identifier `u` is met by no other
/// entry and resolved by no policy: a conflict of the graph names `u`.
pub open spec fn named_in_graph(graph: GraphSnapshot, u: UnitId) -> bool {
    exists|i: int, k: int| 0 <= i < graph.entries@.len() && !graph.entries@[i].archived
        && graph.entries@[i].unit.header_spec().id == u
        && 0 <= k < graph.entries@[i].unit.needs_spec().len()
        && (#[trigger] need_conflict(graph, i, k)) is Some
}

proof fn lemma_needs_conflicts(graph: GraphSnapshot, i: int, n: int)
    ensures
        forall|v: (Seq<UnitId>, Capability, ConflictStatus)| needs_conflicts(graph, i, n).contains(v)
            <==> exists|k: int| 0 <= k < n && #[trigger] need_conflict(graph, i, k) == Some(v),
    decreases n,
{
    if n > 0 {
        lemma_needs_conflicts(graph, i, n - 1);
        let rest = needs_conflicts(graph, i, n - 1);
        assert forall|v: (Seq<UnitId>, Capability, ConflictStatus)| needs_conflicts(graph, i, n).contains(v)
            <==> exists|k: int| 0 <= k < n && #[trigger] need_conflict(graph, i, k) == Some(v) by {
            match need_conflict(graph, i, n - 1) {
                Some(c) => {
                    lemma_push_contains(rest, c, v);
                },
                None => {},
            }
            if exists|k: int| 0 <= k < n && #[trigger] need_conflict(graph, i, k) == Some(v) {
                let k = choose|k: int| 0 <= k < n && #[trigger] need_conflict(graph, i, k) == Some(v);
                if k < n - 1 {
                    assert(rest.contains(v));
                }
            }
        }
    }
}

proof fn lemma_graph_conflicts(graph: GraphSnapshot, n: int)
    requires
        n <= graph.entries@.len(),
    ensures
        forall|v: (Seq<UnitId>, Capability, ConflictStatus)| graph_conflicts(graph, n).contains(v)
            <==> exists|i: int, k: int| 0 <= i < n && !graph.entries@[i].archived
                && 0 <= k < graph.entries@[i].unit.needs_spec().len() && #[trigger] need_conflict(graph, i, k) == Some(v),
    decreases n,
{
    if n > 0 {
        lemma_graph_conflicts(graph, n - 1);
        let rest = graph_conflicts(graph, n - 1);
        let m = graph.entries@[n - 1].unit.needs_spec().len() as int;
        let own = needs_conflicts(graph, n - 1, m);
        lemma_needs_conflicts(graph, n - 1, m);
        assert forall|v: (Seq<UnitId>, Capability, ConflictStatus)| graph_conflicts(graph, n).contains(v)
            <==> exists|i: int, k: int| 0 <= i < n && !graph.entries@[i].archived
                && 0 <= k < graph.entries@[i].unit.needs_spec().len() && #[trigger] need_conflict(graph, i, k) == Some(v) by {
            if !graph.entries@[n - 1].archived {
                let all = rest + own;
                if all.contains(v) {
                    let t = choose|t: int| 0 <= t < all.len() && all[t] == v;
                    if t < rest.len() {
                        assert(rest[t] == v);
                        assert(rest.contains(v));
                    } else {
                        assert(own[t - rest.len()] == v);
                        assert(own.contains(v));
                    }
                }
                if exists|i: int, k: int| 0 <= i < n && !graph.entries@[i].archived
                    && 0 <= k < graph.entries@[i].unit.needs_spec().len() && #[trigger] need_conflict(graph, i, k) == Some(v) {
                    let (i, k) = choose|i: int, k: int| 0 <= i < n && !graph.entries@[i].archived
                        && 0 <= k < graph.entries@[i].unit.needs_spec().len() && #[trigger] need_conflict(graph, i, k) == Some(v);
                    if i < n - 1 {
                        assert(rest.contains(v));
                        let t = choose|t: int| 0 <= t < rest.len() && rest[t] == v;
                        assert(all[t] == v);
                    } else {
                        assert(own.contains(v));
                        let t = choose|t: int| 0 <= t < own.len() && own[t] == v;
                        assert(all[rest.len() + t] == v);
                    }
                }
            } else {
                if exists|i: int, k: int| 0 <= i < n && !graph.entries@[i].archived
                    && 0 <= k < graph.entries@[i].unit.needs_spec().len() && #[trigger] need_conflict(graph, i, k) == Some(v) {
                    let (i, k) = choose|i: int, k: int| 0 <= i < n && !graph.entries@[i].archived
                        && 0 <= k < graph.entries@[i].unit.needs_spec().len() && #[trigger] need_conflict(graph, i, k) == Some(v);
                    assert(i < n - 1);
                }
            }
        }
    }
}

/// A reported conflict names `u` exactly when a conflict of the graph does.
proof fn lemma_in_conflict_named(graph: GraphSnapshot, conflicts: Seq<Conflict>)
    requires
        conflicts.map_values(|c: Conflict| conflict_view(c)).to_multiset()
            == graph_conflicts(graph, graph.entries@.len() as int).to_multiset(),
    ensures
        forall|u: UnitId| in_conflict(conflicts, u) == named_in_graph(graph, u),
{
    let n = graph.entries@.len() as int;
    let views = conflicts.map_values(|c: Conflict| conflict_view(c));
    lemma_perm_contains(views, graph_conflicts(graph, n));
    lemma_graph_conflicts(graph, n);
    assert forall|u: UnitId| in_conflict(conflicts, u) implies named_in_graph(graph, u) by {
        let c = choose|c: int| 0 <= c < conflicts.len() && (#[trigger] conflicts[c]).units@.contains(u);
        let v = views[c];
        assert(views.contains(v));
        let (i, k) = choose|i: int, k: int| 0 <= i < n && !graph.entries@[i].archived
            && 0 <= k < graph.entries@[i].unit.needs_spec().len() && #[trigger] need_conflict(graph, i, k) == Some(v);
        assert(v.0 == seq![graph.entries@[i].unit.header_spec().id]);
    }
    assert forall|u: UnitId| named_in_graph(graph, u) implies in_conflict(conflicts, u) by {
        let (i, k) = choose|i: int, k: int| 0 <= i < graph.entries@.len() && !graph.entries@[i].archived
            && graph.entries@[i].unit.header_spec().id == u
            && 0 <= k < graph.entries@[i].unit.needs_spec().len()
            && (#[trigger] need_conflict(graph, i, k)) is Some;
        let v = need_conflict(graph, i, k).unwrap();
        assert(graph_conflicts(graph, n).contains(v));
        let c = choose|c: int| 0 <= c < views.len() && views[c] == v;
        assert(v.0 == seq![u]);
        assert(conflicts[c].units@ == v.0);
        assert(conflicts[c].units@[0] == u);
    }
}

/// Whether a graph's conflicts name a unit does not depend on the order of
/// its entries.
proof fn lemma_named_order_independent(g1: GraphSnapshot, g2: GraphSnapshot)
    requires
        g1.entries@.to_multiset() == g2.entries@.to_multiset(),
        g1.policy_chains@ == g2.policy_chains@,
    ensures
        forall|u: UnitId| named_in_graph(g1, u) ==> named_in_graph(g2, u),
{
    lemma_perm_contains(g1.entries@, g2.entries@);
    assert forall|u: UnitId| named_in_graph(g1, u) implies named_in_graph(g2, u) by {
        let (i, k) = choose|i: int, k: int| 0 <= i < g1.entries@.len() && !g1.entries@[i].archived
            && g1.entries@[i].unit.header_spec().id == u
            && 0 <= k < g1.entries@[i].unit.needs_spec().len()
            && (#[trigger] need_conflict(g1, i, k)) is Some;
        let e = g1.entries@[i];
        assert(g1.entries@.contains(e));
        let i2 = choose|i2: int| 0 <= i2 < g2.entries@.len() && g2.entries@[i2] == e;
        let need = e.unit.needs_spec()[k];
        assert((exists|j: int| meets_need(g1, i, need, j)) == (exists|j: int| meets_need(g2, i2, need, j))) by {
            if exists|j: int| meets_need(g1, i, need, j) {
                let j = choose|j: int| meets_need(g1, i, need, j);
                assert(g1.entries@.contains(g1.entries@[j]));
                let j2 = choose|j2: int| 0 <= j2 < g2.entries@.len() && g2.entries@[j2] == g1.entries@[j];
                assert(meets_need(g2, i2, need, j2));
            }
            if exists|j: int| meets_need(g2, i2, need, j) {
                let j = choose|j: int| meets_need(g2, i2, need, j);
                assert(g2.entries@.contains(g2.entries@[j]));
                let j1 = choose|j1: int| 0 <= j1 < g1.entries@.len() && g1.entries@[j1] == g2.entries@[j];
                assert(meets_need(g1, i, need, j1));
            }
        }
        assert(need_conflict(g1, i, k) == need_conflict(g2, i2, k));
    }
}

/// The recovery dependencies of a graph do not depend on the order of its
/// entries.
proof fn lemma_rel_order_independent(g1: GraphSnapshot, g2: GraphSnapshot)
    requires
        g1.entries@.to_multiset() == g2.entries@.to_multiset(),
    ensures
        graph_rel(g1.entries@) == graph_rel(g2.entries@),
{
    let e1 = g1.entries@;
    let e2 = g2.entries@;
    lemma_perm_contains(e1, e2);
    assert forall|a: UnitId, b: UnitId| dep_edge(e1, a, b) == dep_edge(e2, a, b) by {
        if dep_edge(e1, a, b) {
            let i = choose|i: int| 0 <= i < e1.len() && !e1[i].archived
                && (#[trigger] e1[i]).unit.header_spec().id == a && crate::solver::cycle::depends_on(e1[i].unit, b);
            let j = choose|j: int| 0 <= j < e1.len() && !e1[j].archived && (#[trigger] e1[j]).unit.header_spec().id == b;
            assert(e1.contains(e1[i]) && e1.contains(e1[j]));
            let i2 = choose|i2: int| 0 <= i2 < e2.len() && e2[i2] == e1[i];
            let j2 = choose|j2: int| 0 <= j2 < e2.len() && e2[j2] == e1[j];
            assert(is_active(e2, b));
        }
        if dep_edge(e2, a, b) {
            let i = choose|i: int| 0 <= i < e2.len() && !e2[i].archived
                && (#[trigger] e2[i]).unit.header_spec().id == a && crate::solver::cycle::depends_on(e2[i].unit, b);
            let j = choose|j: int| 0 <= j < e2.len() && !e2[j].archived && (#[trigger] e2[j]).unit.header_spec().id == b;
            assert(e2.contains(e2[i]) && e2.contains(e2[j]));
            let i1 = choose|i1: int| 0 <= i1 < e1.len() && e1[i1] == e2[i];
            let j1 = choose|j1: int| 0 <= j1 < e1.len() && e1[j1] == e2[j];
            assert(is_active(e1, b));
        }
    }
    assert(graph_rel(e1) =~= graph_rel(e2));
}


/// The score of a node of the snapshot for the unit, if it can host it.
pub open spec fn node_score(unit: Unit, t: (NodeId, NodeCapabilitySet, NodeHealth)) -> Option<Ppm> {
    match score_spec(unit, t.1, t.2) {
        Some(sc) => Some(sc.total),
        None => None,
    }
}

/// No two nodes of the snapshot share an identifier.
pub open spec fn distinct_nodes(nodes: Seq<(NodeId, NodeCapabilitySet, NodeHealth)>) -> bool {
    forall|a: int, b: int| 0 <= a < b < nodes.len() ==> (#[trigger] nodes[a]).0 != (#[trigger] nodes[b]).0
}

proof fn lemma_scored_contains(unit: Unit, nodes: Seq<(NodeId, NodeCapabilitySet, NodeHealth)>, n: int)
    requires
        n <= nodes.len(),
        distinct_nodes(nodes),
    ensures
        forall|x: (NodeId, Ppm)| scored_prefix(unit, nodes, n).contains(x) <==> exists|k: int| 0 <= k < n
            && (#[trigger] nodes[k]).0 == x.0 && node_score(unit, nodes[k]) == Some(x.1),
    decreases n,
{
    if n > 0 {
        lemma_scored_contains(unit, nodes, n - 1);
        let rest = scored_prefix(unit, nodes, n - 1);
        let id = nodes[n - 1].0;
        lemma_first_node(nodes, id);
        assert(first_node(nodes, id) == Some(n - 1)) by {
            let f = first_node(nodes, id);
            if f is None {
                assert(nodes[n - 1].0 != id);
            } else {
                let i = f->0;
                if i != n - 1 {
                    if i < n - 1 {
                        assert(nodes[i].0 != nodes[n - 1].0);
                    } else {
                        assert(nodes[n - 1].0 != nodes[i].0);
                    }
                }
            }
        }
        assert forall|x: (NodeId, Ppm)| scored_prefix(unit, nodes, n).contains(x) <==> exists|k: int| 0 <= k < n
            && (#[trigger] nodes[k]).0 == x.0 && node_score(unit, nodes[k]) == Some(x.1) by {
            match score_result_spec(unit, id, nodes) {
                Some(Some(total)) => {
                    lemma_push_contains(rest, (id, total), x);
                },
                _ => {},
            }
            if exists|k: int| 0 <= k < n && (#[trigger] nodes[k]).0 == x.0 && node_score(unit, nodes[k]) == Some(x.1) {
                let k = choose|k: int| 0 <= k < n && (#[trigger] nodes[k]).0 == x.0 && node_score(unit, nodes[k]) == Some(x.1);
                if k < n - 1 {
                    assert(rest.contains(x));
                }
            }
        }
    }
}

/// A candidate set depends on the snapshot's nodes, not on their order.
proof fn lemma_candidates_order_independent(unit: Unit, m1: MembershipSnapshot, m2: MembershipSnapshot)
    requires
        m1.nodes@.to_multiset() == m2.nodes@.to_multiset(),
        distinct_nodes(m1.nodes@),
        distinct_nodes(m2.nodes@),
    ensures
        forall|x: (NodeId, Ppm)| candidates(unit, m1).contains(x) == candidates(unit, m2).contains(x),
{
    let n1 = m1.nodes@;
    let n2 = m2.nodes@;
    lemma_perm_contains(n1, n2);
    lemma_scored_contains(unit, n1, n1.len() as int);
    lemma_scored_contains(unit, n2, n2.len() as int);
    let p1 = |x: (NodeId, Ppm)| node_eligible(unit, n1, x.0);
    let p2 = |x: (NodeId, Ppm)| node_eligible(unit, n2, x.0);
    assert forall|id: NodeId| node_eligible(unit, n1, id) == node_eligible(unit, n2, id) by {
        if node_eligible(unit, n1, id) {
            let k = choose|k: int| 0 <= k < n1.len() && (#[trigger] n1[k]).0 == id
                && eligible_spec(unit, n1[k].1, Seq::<PromotionPolicy>::empty());
            assert(n1.contains(n1[k]));
            let k2 = choose|k2: int| 0 <= k2 < n2.len() && n2[k2] == n1[k];
            assert(n2[k2].0 == id);
        }
        if node_eligible(unit, n2, id) {
            let k = choose|k: int| 0 <= k < n2.len() && (#[trigger] n2[k]).0 == id
                && eligible_spec(unit, n2[k].1, Seq::<PromotionPolicy>::empty());
            assert(n2.contains(n2[k]));
            let k1 = choose|k1: int| 0 <= k1 < n1.len() && n1[k1] == n2[k];
            assert(n1[k1].0 == id);
        }
    }
    assert forall|x: (NodeId, Ppm)| candidates(unit, m1).contains(x) == candidates(unit, m2).contains(x) by {
        let s1 = scored_prefix(unit, n1, n1.len() as int);
        let s2 = scored_prefix(unit, n2, n2.len() as int);
        lemma_filter_contains_iff(s1, p1, x);
        lemma_filter_contains_iff(s2, p2, x);
        if s1.contains(x) {
            let k = choose|k: int| 0 <= k < n1.len() && (#[trigger] n1[k]).0 == x.0 && node_score(unit, n1[k]) == Some(x.1);
            assert(n1.contains(n1[k]));
            let k2 = choose|k2: int| 0 <= k2 < n2.len() && n2[k2] == n1[k];
            assert(n2[k2].0 == x.0);
            assert(s2.contains(x));
        }
        if s2.contains(x) {
            let k = choose|k: int| 0 <= k < n2.len() && (#[trigger] n2[k]).0 == x.0 && node_score(unit, n2[k]) == Some(x.1);
            assert(n2.contains(n2[k]));
            let k1 = choose|k1: int| 0 <= k1 < n1.len() && n1[k1] == n2[k];
            assert(n1[k1].0 == x.0);
            assert(s1.contains(x));
        }
    }
}

/// Solving does not depend on the order of its inputs: results that
/// solving two graphs with the same entries (in any order) and the same
/// policies, against two snapshots with the same nodes (in any order, each
/// node once), may return place the same units on the same nodes with the
/// same scores, in the same order, and report the same units unplaceable,
/// in the same order, for the same kind of reason.
pub proof fn lemma_solve_order_independent(
    g1: GraphSnapshot,
    g2: GraphSnapshot,
    m1: MembershipSnapshot,
    m2: MembershipSnapshot,
    r1: SolverResult,
    r2: SolverResult,
)
    requires
        g1.wf(),
        g2.wf(),
        g1.entries@.to_multiset() == g2.entries@.to_multiset(),
        g1.policy_chains@ == g2.policy_chains@,
        m1.nodes@.to_multiset() == m2.nodes@.to_multiset(),
        distinct_nodes(m1.nodes@),
        distinct_nodes(m2.nodes@),
        solved(g1, m1, r1),
        solved(g2, m2, r2),
    ensures
        r1.placements@ == r2.placements@,
        failed_units(r1) == failed_units(r2),
        forall|k: int| 0 <= k < r1.unplaceable@.len() ==> same_kind((#[trigger] r1.unplaceable@[k]).1, r2.unplaceable@[k].1),
{
    let e1 = g1.entries@;
    let e2 = g2.entries@;
    lemma_result_units(g1, m1, r1);
    lemma_result_units(g2, m2, r2);
    lemma_perm_contains(e1, e2);
    lemma_in_conflict_named(g1, r1.conflicts@);
    lemma_in_conflict_named(g2, r2.conflicts@);
    lemma_named_order_independent(g1, g2);
    assert(e2.to_multiset() == e1.to_multiset());
    lemma_named_order_independent(g2, g1);
    lemma_rel_order_independent(g1, g2);
    assert forall|u: UnitId| in_conflict(r1.conflicts@, u) == in_conflict(r2.conflicts@, u) by {
        assert(named_in_graph(g1, u) == named_in_graph(g2, u));
    }
    assert forall|u: UnitId| on_cycle(e1, u) == on_cycle(e2, u) by {}
    lemma_workload_ids(g1, e1.len() as int);
    lemma_workload_ids(g2, e2.len() as int);
    assert forall|u: UnitId| workload_ids(g1, e1.len() as int).contains(u) == workload_ids(g2, e2.len() as int).contains(u) by {
        if workload_ids(g1, e1.len() as int).contains(u) {
            let i = choose|i: int| 0 <= i < e1.len() && #[trigger] active_workload(g1, i) && e1[i].unit.header_spec().id == u;
            assert(e1.contains(e1[i]));
            let i2 = choose|i2: int| 0 <= i2 < e2.len() && e2[i2] == e1[i];
            assert(active_workload(g2, i2));
        }
        if workload_ids(g2, e2.len() as int).contains(u) {
            let i = choose|i: int| 0 <= i < e2.len() && #[trigger] active_workload(g2, i) && e2[i].unit.header_spec().id == u;
            assert(e2.contains(e2[i]));
            let i1 = choose|i1: int| 0 <= i1 < e1.len() && e1[i1] == e2[i];
            assert(active_workload(g1, i1));
        }
    }
    assert forall|u: UnitId| placeable(g1, m1, r1.conflicts@, u) == placeable(g2, m2, r2.conflicts@, u) by {
        if placeable(g1, m1, r1.conflicts@, u) {
            let i = choose|i: int| #[trigger] active_workload(g1, i) && e1[i].unit.header_spec().id == u
                && !in_conflict(r1.conflicts@, u) && !on_cycle(e1, u) && candidates(e1[i].unit, m1).len() > 0;
            assert(e1.contains(e1[i]));
            let i2 = choose|i2: int| 0 <= i2 < e2.len() && e2[i2] == e1[i];
            assert(active_workload(g2, i2));
            lemma_candidates_order_independent(e1[i].unit, m1, m2);
            assert(candidates(e1[i].unit, m1).contains(candidates(e1[i].unit, m1)[0]));
        }
        if placeable(g2, m2, r2.conflicts@, u) {
            let i = choose|i: int| #[trigger] active_workload(g2, i) && e2[i].unit.header_spec().id == u
                && !in_conflict(r2.conflicts@, u) && !on_cycle(e2, u) && candidates(e2[i].unit, m2).len() > 0;
            assert(e2.contains(e2[i]));
            let i1 = choose|i1: int| 0 <= i1 < e1.len() && e1[i1] == e2[i];
            assert(active_workload(g1, i1));
            lemma_candidates_order_independent(e2[i].unit, m1, m2);
            assert(candidates(e2[i].unit, m2).contains(candidates(e2[i].unit, m2)[0]));
        }
    }
    lemma_ascending_unique(placed_units(r1), placed_units(r2));
    lemma_ascending_unique(failed_units(r1), failed_units(r2));
    assert forall|k: int| 0 <= k < r1.placements@.len() implies r1.placements@[k] == r2.placements@[k] by {
        let p1 = r1.placements@[k];
        let p2 = r2.placements@[k];
        assert(placed_units(r1)[k] == placed_units(r2)[k]);
        assert(placed_ok(g1, m1, r1.conflicts@, p1));
        assert(placed_ok(g2, m2, r2.conflicts@, p2));
        let i1 = choose|i: int| #[trigger] active_workload(g1, i) && e1[i].unit.header_spec().id == p1.unit
            && !in_conflict(r1.conflicts@, p1.unit)
            && is_best(candidates(e1[i].unit, m1), (p1.node, p1.score));
        let i2 = choose|i: int| #[trigger] active_workload(g2, i) && e2[i].unit.header_spec().id == p2.unit
            && !in_conflict(r2.conflicts@, p2.unit)
            && is_best(candidates(e2[i].unit, m2), (p2.node, p2.score));
        assert(e1.contains(e1[i1]));
        let j = choose|j: int| 0 <= j < e2.len() && e2[j] == e1[i1];
        if j != i2 {
            if j < i2 {
                assert(e2[j].unit.header_spec().id != e2[i2].unit.header_spec().id);
            } else {
                assert(e2[i2].unit.header_spec().id != e2[j].unit.header_spec().id);
            }
        }
        let unit = e1[i1].unit;
        lemma_candidates_order_independent(unit, m1, m2);
        assert(candidates(unit, m1).contains((p2.node, p2.score)));
        assert(candidates(unit, m2).contains((p1.node, p1.score)));
        assert((p1.node, p1.score).le_spec((p2.node, p2.score)));
        assert((p2.node, p2.score).le_spec((p1.node, p1.score)));
    }
    assert(r1.placements@ =~= r2.placements@);
    assert forall|k: int| 0 <= k < r1.unplaceable@.len() implies same_kind((#[trigger] r1.unplaceable@[k]).1, r2.unplaceable@[k].1) by {
        let u = r1.unplaceable@[k].0;
        assert(failed_units(r1)[k] == failed_units(r2)[k]);
        assert(r2.unplaceable@[k].0 == u);
        assert(failed_ok(g1, m1, r1.conflicts@, u, r1.unplaceable@[k].1));
        assert(failed_ok(g2, m2, r2.conflicts@, u, r2.unplaceable@[k].1));
        assert(in_conflict(r1.conflicts@, u) == in_conflict(r2.conflicts@, u));
        assert(on_cycle(e1, u) == on_cycle(e2, u));
        if let SolverError::CyclicDependency { cycle } = r1.unplaceable@[k].1 {
            if !in_conflict(r1.conflicts@, u) {
                assert(is_cycle(graph_rel(e1), cycle.chain@));
                assert(on_cycle(e1, u));
            }
        }
        if let SolverError::CyclicDependency { cycle } = r2.unplaceable@[k].1 {
            if !in_conflict(r2.conflicts@, u) {
                assert(is_cycle(graph_rel(e2), cycle.chain@));
                assert(on_cycle(e2, u));
            }
        }
    }
}

/// Deterministic composition and placement.
pub trait Solver {
    /// Solves the graph against the membership.
    fn solve(&self, graph: &GraphSnapshot, membership: &MembershipSnapshot) -> (r: SolverResult)
        requires
            graph.wf(),
        ensures
            solved(*graph, *membership, r);

    /// Solves for the changed units only: the full result filtered to them.
    fn solve_incremental(&self, graph: &GraphSnapshot, membership: &MembershipSnapshot, changed: &Vec<UnitId>) -> (r: SolverResult)
        requires
            graph.wf(),
        ensures
            incrementally_solved(*graph, *membership, changed@, r);
}

impl Solver for DefaultSolver {
    fn solve(&self, graph: &GraphSnapshot, membership: &MembershipSnapshot) -> (r: SolverResult) {
        DefaultSolver::solve(self, graph, membership)
    }

    fn solve_incremental(&self, graph: &GraphSnapshot, membership: &MembershipSnapshot, changed: &Vec<UnitId>) -> (r: SolverResult) {
        DefaultSolver::solve_incremental(self, graph, membership, changed)
    }
}

proof fn lemma_failed_units_filter(s: Seq<(UnitId, SolverError)>, changed: Seq<UnitId>)
    ensures
        s.filter(failure_in(changed)).map_values(|f: (UnitId, SolverError)| f.0)
            == s.map_values(|f: (UnitId, SolverError)| f.0).filter(in_changed(changed)),
    decreases s.len(),
{
    let fp = failure_in(changed);
    let q = in_changed(changed);
    if s.len() == 0 {
        assert(s.filter(fp) =~= Seq::<(UnitId, SolverError)>::empty());
        assert(s.map_values(|f: (UnitId, SolverError)| f.0) =~= Seq::<UnitId>::empty());
        assert(Seq::<UnitId>::empty().filter(q) =~= Seq::<UnitId>::empty());
    } else {
        let t = s.drop_last();
        let x = s.last();
        lemma_failed_units_filter(t, changed);
        assert(s =~= t.push(x));
        t.lemma_filter_push(x, fp);
        let tm = t.map_values(|f: (UnitId, SolverError)| f.0);
        assert(s.map_values(|f: (UnitId, SolverError)| f.0) =~= tm.push(x.0));
        tm.lemma_filter_push(x.0, q);
        if fp(x) {
            assert(t.filter(fp).push(x).map_values(|f: (UnitId, SolverError)| f.0)
                =~= t.filter(fp).map_values(|f: (UnitId, SolverError)| f.0).push(x.0));
        }
    }
}

/// An incremental solve is the full solve filtered to the changed units:
/// against any result a full solve of the same graph and membership may
/// return, it holds exactly that result's placements of changed units, in
/// order, and reports exactly its unplaceable changed units, in order.
pub proof fn lemma_incremental_is_filtered_full(
    graph: GraphSnapshot,
    membership: MembershipSnapshot,
    changed: Seq<UnitId>,
    inc: SolverResult,
    full: SolverResult,
)
    requires
        graph.wf(),
        incrementally_solved(graph, membership, changed, inc),
        solved(graph, membership, full),
    ensures
        inc.placements@ == full.placements@.filter(placement_in(changed)),
        failed_units(inc) == failed_units(full).filter(in_changed(changed)),
{
    let f = choose|f: SolverResult| #[trigger] solved(graph, membership, f)
        && inc.placements@ == f.placements@.filter(placement_in(changed))
        && inc.unplaceable@ == f.unplaceable@.filter(failure_in(changed))
        && inc.conflicts@ == f.conflicts@;
    lemma_solve_determined(graph, membership, f, full);
    lemma_failed_units_filter(f.unplaceable@, changed);
}

} // verus!
