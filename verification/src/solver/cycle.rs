//! Cycle detection over recovery dependencies.
//!
//! A workload's recovery relationships name the units it depends on when
//! it fails. A cycle among them cannot be resolved without a policy, so
//! the solver reports it. Detection is a depth-first search over the
//! active units in identifier order; every reported chain is a cycle of
//! distinct units, rotated to start at its smallest identifier.

use vstd::prelude::*;
use crate::common::UnitId;
use crate::model::{GraphEntry, GraphSnapshot, Unit};
use crate::order::{Ordered, sort_le, sorted_le, lemma_perm_contains, lemma_perm_no_duplicates};
use crate::solver::placement::RecoveryCycle;

verus! {

// ---------------------------------------------------------------------------
// The dependency graph
// ---------------------------------------------------------------------------

/// Unit `id` is in the graph and not archived.
pub open spec fn is_active(entries: Seq<GraphEntry>, id: UnitId) -> bool {
    exists|i: int| 0 <= i < entries.len() && !entries[i].archived && (#[trigger] entries[i]).unit.header_spec().id == id
}

/// Unit `u` declares a recovery dependency on `b`.
pub open spec fn depends_on(u: Unit, b: UnitId) -> bool {
    match u {
        Unit::Workload(w) => exists|k: int| 0 <= k < w.recovery_relationships@.len()
            && (#[trigger] w.recovery_relationships@[k]).depends_on == b,
        _ => false,
    }
}

/// Edge `a -> b` of the dependency graph: active unit `a` depends on
/// active unit `b`.
pub open spec fn dep_edge(entries: Seq<GraphEntry>, a: UnitId, b: UnitId) -> bool {
    &&& exists|i: int| 0 <= i < entries.len() && !entries[i].archived
        && (#[trigger] entries[i]).unit.header_spec().id == a && depends_on(entries[i].unit, b)
    &&& is_active(entries, b)
}

/// Edge `a -> b` once `new_unit` is added: an edge of the graph, or a
/// dependency of the new unit on an active unit or on itself.
pub open spec fn dep_edge_with(entries: Seq<GraphEntry>, new_unit: Unit, a: UnitId, b: UnitId) -> bool {
    dep_edge(entries, a, b) || (a == new_unit.header_spec().id && depends_on(new_unit, b)
        && (is_active(entries, b) || b == new_unit.header_spec().id))
}

/// The elements of `s` are distinct.
pub open spec fn distinct_ids(s: Seq<UnitId>) -> bool {
    forall|i: int, j: int| 0 <= i < j < s.len() ==> s[i] != s[j]
}

/// `c` is a cycle of `edge`: each unit has an edge to the next and the
/// last to the first, and no unit occurs twice.
pub open spec fn is_cycle(edge: spec_fn(UnitId, UnitId) -> bool, c: Seq<UnitId>) -> bool {
    &&& c.len() > 0
    &&& forall|i: int| 0 <= i < c.len() - 1 ==> #[trigger] edge(c[i], c[i + 1])
    &&& edge(c[c.len() - 1], c[0])
    &&& distinct_ids(c)
}

/// `c` starts at its smallest identifier.
pub open spec fn starts_at_min(c: Seq<UnitId>) -> bool {
    c.len() > 0 && forall|i: int| 0 <= i < c.len() ==> c[0].0 <= (#[trigger] c[i]).0
}

// ---------------------------------------------------------------------------
// Adjacency lists
// ---------------------------------------------------------------------------

/// Edge of an adjacency list.
pub open spec fn adj_edge(adj: Seq<(UnitId, Vec<UnitId>)>, a: UnitId, b: UnitId) -> bool {
    exists|k: int| 0 <= k < adj.len() && (#[trigger] adj[k]).0 == a && adj[k].1@.contains(b)
}

/// The edge relation of an adjacency list.
pub open spec fn adj_rel(adj: Seq<(UnitId, Vec<UnitId>)>) -> spec_fn(UnitId, UnitId) -> bool {
    |a: UnitId, b: UnitId| adj_edge(adj, a, b)
}

/// Keys strictly ascending, every neighbour a key.
pub open spec fn adj_wf(adj: Seq<(UnitId, Vec<UnitId>)>) -> bool {
    &&& forall|k: int, l: int| 0 <= k < l < adj.len() ==> (#[trigger] adj[k]).0.0 < (#[trigger] adj[l]).0.0
    &&& forall|k: int, b: UnitId| 0 <= k < adj.len() && #[trigger] adj[k].1@.contains(b)
        ==> exists|l: int| 0 <= l < adj.len() && (#[trigger] adj[l]).0 == b
}

/// Units are ordered by identifier.
impl Ordered for UnitId {
    open spec fn le_spec(self, other: Self) -> bool {
        self.0 <= other.0
    }

    proof fn lemma_le_total(a: Self, b: Self) {
    }

    proof fn lemma_le_trans(a: Self, b: Self, c: Self) {
    }

    fn le(&self, other: &Self) -> (r: bool) {
        self.0 <= other.0
    }
}

/// Adjacency entries are ordered by key.
impl Ordered for (UnitId, Vec<UnitId>) {
    open spec fn le_spec(self, other: Self) -> bool {
        self.0.0 <= other.0.0
    }

    proof fn lemma_le_total(a: Self, b: Self) {
    }

    proof fn lemma_le_trans(a: Self, b: Self, c: Self) {
    }

    fn le(&self, other: &Self) -> (r: bool) {
        self.0.0 <= other.0.0
    }
}

/// Lexicographic order of identifier sequences (a prefix sorts first).
pub open spec fn ids_le(a: Seq<UnitId>, b: Seq<UnitId>) -> bool
    decreases a.len(),
{
    if a.len() == 0 {
        true
    } else if b.len() == 0 {
        false
    } else if a[0].0 != b[0].0 {
        a[0].0 < b[0].0
    } else {
        ids_le(a.drop_first(), b.drop_first())
    }
}

proof fn lemma_ids_le_total(a: Seq<UnitId>, b: Seq<UnitId>)
    ensures ids_le(a, b) || ids_le(b, a),
    decreases a.len(),
{
    if a.len() > 0 && b.len() > 0 && a[0].0 == b[0].0 {
        lemma_ids_le_total(a.drop_first(), b.drop_first());
    }
}

proof fn lemma_ids_le_trans(a: Seq<UnitId>, b: Seq<UnitId>, c: Seq<UnitId>)
    requires ids_le(a, b), ids_le(b, c),
    ensures ids_le(a, c),
    decreases a.len(),
{
    if a.len() > 0 && b.len() > 0 && c.len() > 0 && a[0].0 == b[0].0 && b[0].0 == c[0].0 {
        lemma_ids_le_trans(a.drop_first(), b.drop_first(), c.drop_first());
    }
}

/// Raw cycles are ordered lexicographically.
impl Ordered for Vec<UnitId> {
    open spec fn le_spec(self, other: Self) -> bool {
        ids_le(self@, other@)
    }

    proof fn lemma_le_total(a: Self, b: Self) {
        lemma_ids_le_total(a@, b@);
    }

    proof fn lemma_le_trans(a: Self, b: Self, c: Self) {
        lemma_ids_le_trans(a@, b@, c@);
    }

    fn le(&self, other: &Self) -> (r: bool)
        decreases self@.len(),
    {
        let mut i: usize = 0;
        proof {
            assert(self@.subrange(0, self@.len() as int) =~= self@);
            assert(other@.subrange(0, other@.len() as int) =~= other@);
        }
        while i < self.len() && i < other.len()
            invariant
                i <= self@.len(),
                i <= other@.len(),
                forall|j: int| 0 <= j < i ==> self@[j].0 == other@[j].0,
                ids_le(self@, other@) == ids_le(self@.subrange(i as int, self@.len() as int), other@.subrange(i as int, other@.len() as int)),
            decreases self@.len() - i,
        {
            if self[i].0 != other[i].0 {
                return self[i].0 < other[i].0;
            }
            proof {
                let a = self@.subrange(i as int, self@.len() as int);
                let b = other@.subrange(i as int, other@.len() as int);
                assert(a.drop_first() =~= self@.subrange(i + 1, self@.len() as int));
                assert(b.drop_first() =~= other@.subrange(i + 1, other@.len() as int));
            }
            i = i + 1;
        }
        i == self.len()
    }
}

// ---------------------------------------------------------------------------
// Building the adjacency
// ---------------------------------------------------------------------------

fn contains_id(v: &Vec<UnitId>, id: UnitId) -> (r: bool)
    ensures r == v@.contains(id),
{
    let mut i: usize = 0;
    while i < v.len()
        invariant
            i <= v@.len(),
            forall|j: int| 0 <= j < i ==> v@[j] != id,
        decreases v@.len() - i,
    {
        if v[i].0 == id.0 {
            return true;
        }
        i = i + 1;
    }
    false
}

/// The identifiers of the active units, in entry order.
fn active_ids(entries: &Vec<GraphEntry>) -> (r: Vec<UnitId>)
    ensures
        forall|id: UnitId| r@.contains(id) <==> is_active(entries@, id),
{
    let mut out: Vec<UnitId> = Vec::new();
    let ghost mut src: Seq<int> = Seq::empty();
    let mut i: usize = 0;
    while i < entries.len()
        invariant
            i <= entries@.len(),
            src.len() == out@.len(),
            forall|k: int| 0 <= k < out@.len() ==> 0 <= #[trigger] src[k] < i && !entries@[src[k]].archived
                && entries@[src[k]].unit.header_spec().id == out@[k],
            forall|j: int| 0 <= j < i && !entries@[j].archived ==> out@.contains((#[trigger] entries@[j]).unit.header_spec().id),
        decreases entries@.len() - i,
    {
        if !entries[i].archived {
            let id = entries[i].unit.id();
            let ghost before = out@;
            out.push(id);
            proof {
                src = src.push(i as int);
                assert forall|j: int| 0 <= j < i + 1 && !entries@[j].archived implies out@.contains((#[trigger] entries@[j]).unit.header_spec().id) by {
                    let x = entries@[j].unit.header_spec().id;
                    if j < i {
                        let k = choose|k: int| 0 <= k < before.len() && before[k] == x;
                        assert(out@[k] == x);
                    } else {
                        assert(out@[before.len() as int] == x);
                    }
                }
            }
        }
        i = i + 1;
    }
    proof {
        assert forall|id: UnitId| out@.contains(id) <==> is_active(entries@, id) by {
            if out@.contains(id) {
                let k = choose|k: int| 0 <= k < out@.len() && out@[k] == id;
                let j = src[k];
                assert(!entries@[j].archived && entries@[j].unit.header_spec().id == id);
            }
            if is_active(entries@, id) {
                let j = choose|j: int| 0 <= j < entries@.len() && !entries@[j].archived && (#[trigger] entries@[j]).unit.header_spec().id == id;
                assert(out@.contains(entries@[j].unit.header_spec().id));
            }
        }
    }
    out
}

/// The dependencies of `unit` among `active`, without repetition, in
/// ascending order.
fn neighbours(unit: &Unit, active: &Vec<UnitId>) -> (r: Vec<UnitId>)
    ensures
        forall|b: UnitId| r@.contains(b) <==> depends_on(*unit, b) && active@.contains(b),
        r@.no_duplicates(),
        sorted_le(r@),
{
    let mut out: Vec<UnitId> = Vec::new();
    match unit {
        Unit::Workload(w) => {
            let rr = &w.recovery_relationships;
            let mut k: usize = 0;
            while k < rr.len()
                invariant
                    k <= rr@.len(),
                    rr@ == w.recovery_relationships@,
                    out@.no_duplicates(),
                    forall|t: int| 0 <= t < out@.len() ==> active@.contains(#[trigger] out@[t])
                        && exists|q: int| 0 <= q < k && (#[trigger] rr@[q]).depends_on == out@[t],
                    forall|q: int| 0 <= q < k && active@.contains((#[trigger] rr@[q]).depends_on) ==> out@.contains(rr@[q].depends_on),
                decreases rr@.len() - k,
            {
                let b = rr[k].depends_on;
                let ghost before = out@;
                if contains_id(active, b) && !contains_id(&out, b) {
                    out.push(b);
                    proof {
                        assert forall|t: int| 0 <= t < out@.len() implies active@.contains(#[trigger] out@[t])
                            && exists|q: int| 0 <= q < k + 1 && (#[trigger] rr@[q]).depends_on == out@[t] by {
                            if t < before.len() {
                                assert(out@[t] == before[t]);
                            } else {
                                assert(rr@[k as int].depends_on == out@[t]);
                            }
                        }
                        assert forall|q: int| 0 <= q < k + 1 && active@.contains((#[trigger] rr@[q]).depends_on) implies out@.contains(rr@[q].depends_on) by {
                            let x = rr@[q].depends_on;
                            if q < k {
                                let t = choose|t: int| 0 <= t < before.len() && before[t] == x;
                                assert(out@[t] == x);
                            } else {
                                assert(out@[before.len() as int] == x);
                            }
                        }
                        assert forall|a: int, c: int| 0 <= a < out@.len() && 0 <= c < out@.len() && a != c implies out@[a] != out@[c] by {
                            if a < before.len() && c < before.len() {
                                assert(out@[a] == before[a] && out@[c] == before[c]);
                            } else if a < before.len() {
                                assert(out@[a] == before[a]);
                                assert(before.contains(before[a]));
                            } else {
                                assert(out@[c] == before[c]);
                                assert(before.contains(before[c]));
                            }
                        }
                    }
                } else {
                    proof {
                        assert forall|t: int| 0 <= t < out@.len() implies active@.contains(#[trigger] out@[t])
                            && exists|q: int| 0 <= q < k + 1 && (#[trigger] rr@[q]).depends_on == out@[t] by {
                            let q = choose|q: int| 0 <= q < k && (#[trigger] rr@[q]).depends_on == out@[t];
                        }
                    }
                }
                k = k + 1;
            }
            proof {
                assert forall|b: UnitId| out@.contains(b) <==> depends_on(*unit, b) && active@.contains(b) by {
                    if out@.contains(b) {
                        let t = choose|t: int| 0 <= t < out@.len() && out@[t] == b;
                        let q = choose|q: int| 0 <= q < k && (#[trigger] rr@[q]).depends_on == out@[t];
                        assert(w.recovery_relationships@[q].depends_on == b);
                    }
                    if depends_on(*unit, b) && active@.contains(b) {
                        let q = choose|q: int| 0 <= q < w.recovery_relationships@.len()
                            && (#[trigger] w.recovery_relationships@[q]).depends_on == b;
                        assert(active@.contains(rr@[q].depends_on));
                    }
                }
            }
        },
        _ => {},
    }
    let ghost unsorted = out@;
    let r = sort_le(out);
    proof {
        lemma_perm_contains(unsorted, r@);
        lemma_perm_no_duplicates(unsorted, r@);
    }
    r
}

/// The adjacency entry of an active unit: its identifier and its
/// dependencies among the active units.
pub open spec fn graph_pair_ok(entries: Seq<GraphEntry>, p: (UnitId, Vec<UnitId>)) -> bool {
    &&& is_active(entries, p.0)
    &&& sorted_le(p.1@)
    &&& p.1@.no_duplicates()
    &&& forall|b: UnitId| p.1@.contains(b) <==> dep_edge(entries, p.0, b)
}

proof fn lemma_new_pair(entries: Seq<GraphEntry>, i: int, nb: Seq<UnitId>, active: Seq<UnitId>, before: Seq<(UnitId, Vec<UnitId>)>, src: Seq<int>)
    requires
        0 <= i < entries.len(),
        !entries[i].archived,
        forall|a: int, c: int| 0 <= a < c < entries.len() ==> #[trigger] entries[a].unit.header_spec().id
            != #[trigger] entries[c].unit.header_spec().id,
        forall|id: UnitId| active.contains(id) <==> is_active(entries, id),
        forall|b: UnitId| nb.contains(b) <==> depends_on(entries[i].unit, b) && active.contains(b),
        src.len() == before.len(),
        forall|k: int| 0 <= k < before.len() ==> 0 <= #[trigger] src[k] < i
            && entries[src[k]].unit.header_spec().id == before[k].0,
    ensures
        forall|b: UnitId| nb.contains(b) <==> dep_edge(entries, entries[i].unit.header_spec().id, b),
        is_active(entries, entries[i].unit.header_spec().id),
        forall|k: int| 0 <= k < before.len() ==> (#[trigger] before[k]).0 != entries[i].unit.header_spec().id,
{
    let id = entries[i].unit.header_spec().id;
    assert forall|b: UnitId| nb.contains(b) <==> dep_edge(entries, id, b) by {
        if nb.contains(b) {
            assert(!entries[i].archived && entries[i].unit.header_spec().id == id);
        }
        if dep_edge(entries, id, b) {
            let j = choose|j: int| 0 <= j < entries.len() && !entries[j].archived
                && (#[trigger] entries[j]).unit.header_spec().id == id && depends_on(entries[j].unit, b);
            if j < i {
                assert(entries[j].unit.header_spec().id != entries[i].unit.header_spec().id);
            } else if j > i {
                assert(entries[i].unit.header_spec().id != entries[j].unit.header_spec().id);
            }
        }
    }
    assert(is_active(entries, id)) by {
        assert(!entries[i].archived && entries[i].unit.header_spec().id == id);
    }
    assert forall|k: int| 0 <= k < before.len() implies (#[trigger] before[k]).0 != id by {
        let j = src[k];
        assert(entries[j].unit.header_spec().id != entries[i].unit.header_spec().id);
    }
}

/// The adjacency lists of the active units of the graph, in entry order.
fn graph_pairs(graph: &GraphSnapshot, active: &Vec<UnitId>) -> (r: Vec<(UnitId, Vec<UnitId>)>)
    requires
        graph.wf(),
        forall|id: UnitId| active@.contains(id) <==> is_active(graph.entries@, id),
    ensures
        forall|k: int| 0 <= k < r@.len() ==> graph_pair_ok(graph.entries@, #[trigger] r@[k]),
        forall|id: UnitId| is_active(graph.entries@, id) ==> exists|k: int| 0 <= k < r@.len() && (#[trigger] r@[k]).0 == id,
        forall|k: int, l: int| 0 <= k < l < r@.len() ==> (#[trigger] r@[k]).0 != (#[trigger] r@[l]).0,
{
    let entries = &graph.entries;
    let mut pairs: Vec<(UnitId, Vec<UnitId>)> = Vec::new();
    let ghost mut src: Seq<int> = Seq::empty();
    let mut i: usize = 0;
    while i < entries.len()
        invariant
            i <= entries@.len(),
            entries@ == graph.entries@,
            graph.wf(),
            forall|id: UnitId| active@.contains(id) <==> is_active(graph.entries@, id),
            forall|k: int| 0 <= k < pairs@.len() ==> graph_pair_ok(entries@, #[trigger] pairs@[k]),
            src.len() == pairs@.len(),
            forall|k: int| 0 <= k < pairs@.len() ==> 0 <= #[trigger] src[k] < i
                && entries@[src[k]].unit.header_spec().id == pairs@[k].0,
            forall|j: int| 0 <= j < i && !entries@[j].archived ==> exists|k: int| 0 <= k < pairs@.len()
                && (#[trigger] pairs@[k]).0 == (#[trigger] entries@[j]).unit.header_spec().id,
            forall|k: int, l: int| 0 <= k < l < pairs@.len() ==> (#[trigger] pairs@[k]).0 != (#[trigger] pairs@[l]).0,
        decreases entries@.len() - i,
    {
        if !entries[i].archived {
            let id = entries[i].unit.id();
            let nb = neighbours(&entries[i].unit, active);
            let ghost before = pairs@;
            proof {
                lemma_new_pair(entries@, i as int, nb@, active@, before, src);
            }
            pairs.push((id, nb));
            proof {
                src = src.push(i as int);
                assert forall|j: int| 0 <= j < i + 1 && !entries@[j].archived implies exists|k: int| 0 <= k < pairs@.len()
                    && (#[trigger] pairs@[k]).0 == (#[trigger] entries@[j]).unit.header_spec().id by {
                    if j < i {
                        let k = choose|k: int| 0 <= k < before.len() && (#[trigger] before[k]).0 == entries@[j].unit.header_spec().id;
                        assert(pairs@[k] == before[k]);
                    } else {
                        assert(pairs@[before.len() as int].0 == id);
                    }
                }
            }
        }
        i = i + 1;
    }
    proof {
        assert forall|id: UnitId| is_active(graph.entries@, id) implies exists|k: int| 0 <= k < pairs@.len() && (#[trigger] pairs@[k]).0 == id by {
            let j = choose|j: int| 0 <= j < entries@.len() && !entries@[j].archived && (#[trigger] entries@[j]).unit.header_spec().id == id;
            assert(!entries@[j].archived);
        }
    }
    pairs
}

/// Adjacency lists under construction: distinct keys, each list ascending
/// without repetition, every neighbour a key, and edges those of `edge`.
pub open spec fn pairs_ok(pairs: Seq<(UnitId, Vec<UnitId>)>, edge: spec_fn(UnitId, UnitId) -> bool) -> bool {
    &&& forall|k: int, l: int| 0 <= k < l < pairs.len() ==> (#[trigger] pairs[k]).0 != (#[trigger] pairs[l]).0
    &&& forall|k: int| 0 <= k < pairs.len() ==> sorted_le((#[trigger] pairs[k]).1@) && pairs[k].1@.no_duplicates()
    &&& forall|k: int, b: UnitId| 0 <= k < pairs.len() && #[trigger] pairs[k].1@.contains(b)
        ==> exists|l: int| 0 <= l < pairs.len() && (#[trigger] pairs[l]).0 == b
    &&& forall|a: UnitId, b: UnitId| adj_edge(pairs, a, b) <==> #[trigger] edge(a, b)
}

/// The edge relation of the graph.
pub open spec fn graph_rel(entries: Seq<GraphEntry>) -> spec_fn(UnitId, UnitId) -> bool {
    |a: UnitId, b: UnitId| dep_edge(entries, a, b)
}

/// The edge relation of the graph with a new unit.
pub open spec fn graph_rel_with(entries: Seq<GraphEntry>, new_unit: Unit) -> spec_fn(UnitId, UnitId) -> bool {
    |a: UnitId, b: UnitId| dep_edge_with(entries, new_unit, a, b)
}

proof fn lemma_push_contains(s: Seq<UnitId>, x: UnitId, c: UnitId)
    ensures s.push(x).contains(c) <==> s.contains(c) || c == x,
{
    if s.push(x).contains(c) {
        let i = choose|i: int| 0 <= i < s.push(x).len() && s.push(x)[i] == c;
        if i < s.len() {
            assert(s[i] == c);
        }
    }
    if s.contains(c) {
        let i = choose|i: int| 0 <= i < s.len() && s[i] == c;
        assert(s.push(x)[i] == c);
    }
    if c == x {
        assert(s.push(x)[s.len() as int] == c);
    }
}

proof fn lemma_push_fresh(s: Seq<UnitId>, b: UnitId)
    requires
        s.no_duplicates(),
        !s.contains(b),
    ensures
        s.push(b).no_duplicates(),
{
    let t = s.push(b);
    assert forall|i: int, j: int| 0 <= i < t.len() && 0 <= j < t.len() && i != j implies t[i] != t[j] by {
        if i < s.len() && j < s.len() {
        } else if i < s.len() {
            assert(s.contains(s[i]));
        } else {
            assert(s.contains(s[j]));
        }
    }
}

proof fn lemma_adj_replace(before: Seq<(UnitId, Vec<UnitId>)>, after: Seq<(UnitId, Vec<UnitId>)>, x: int, nid: UnitId, merged: Seq<UnitId>, nb: Seq<UnitId>)
    requires
        0 <= x < before.len(),
        before[x].0 == nid,
        after.len() == before.len(),
        after[x].0 == nid,
        after[x].1@ == merged,
        forall|k: int| 0 <= k < before.len() && k != x ==> after[k] == before[k],
        forall|k: int, l: int| 0 <= k < l < before.len() ==> (#[trigger] before[k]).0 != (#[trigger] before[l]).0,
        forall|c: UnitId| merged.contains(c) <==> before[x].1@.contains(c) || nb.contains(c),
    ensures
        forall|a: UnitId, b: UnitId| adj_edge(after, a, b) <==> adj_edge(before, a, b) || (a == nid && nb.contains(b)),
        forall|k: int| 0 <= k < after.len() ==> (#[trigger] after[k]).0 == before[k].0,
{
    assert forall|a: UnitId, b: UnitId| adj_edge(after, a, b) <==> adj_edge(before, a, b) || (a == nid && nb.contains(b)) by {
        if adj_edge(after, a, b) {
            let k = choose|k: int| 0 <= k < after.len() && (#[trigger] after[k]).0 == a && after[k].1@.contains(b);
            if k != x {
                assert(before[k] == after[k]);
            }
        }
        if adj_edge(before, a, b) {
            let k = choose|k: int| 0 <= k < before.len() && (#[trigger] before[k]).0 == a && before[k].1@.contains(b);
            if k != x {
                assert(before[k] == after[k]);
            } else {
                assert(after[x].1@.contains(b));
            }
        }
        if a == nid && nb.contains(b) {
            assert(after[x].1@.contains(b));
        }
    }
    assert forall|k: int| 0 <= k < after.len() implies (#[trigger] after[k]).0 == before[k].0 by {
        if k != x {
            assert(after[k] == before[k]);
        }
    }
}

proof fn lemma_adj_push(before: Seq<(UnitId, Vec<UnitId>)>, after: Seq<(UnitId, Vec<UnitId>)>, nid: UnitId, nb: Seq<UnitId>)
    requires
        after.len() == before.len() + 1,
        forall|k: int| 0 <= k < before.len() ==> after[k] == before[k],
        after[before.len() as int].0 == nid,
        after[before.len() as int].1@ == nb,
        forall|k: int| 0 <= k < before.len() ==> (#[trigger] before[k]).0 != nid,
    ensures
        forall|a: UnitId, b: UnitId| adj_edge(after, a, b) <==> adj_edge(before, a, b) || (a == nid && nb.contains(b)),
{
    assert forall|a: UnitId, b: UnitId| adj_edge(after, a, b) <==> adj_edge(before, a, b) || (a == nid && nb.contains(b)) by {
        if adj_edge(after, a, b) {
            let k = choose|k: int| 0 <= k < after.len() && (#[trigger] after[k]).0 == a && after[k].1@.contains(b);
            if k < before.len() {
                assert(before[k] == after[k]);
            }
        }
        if adj_edge(before, a, b) {
            let k = choose|k: int| 0 <= k < before.len() && (#[trigger] before[k]).0 == a && before[k].1@.contains(b);
            assert(before[k] == after[k]);
        }
        if a == nid && nb.contains(b) {
            assert(after[before.len() as int].0 == a);
        }
    }
}

/// Sorting the lists by key keeps them well formed and makes the keys
/// ascending.
proof fn lemma_sorted_pairs(unsorted: Seq<(UnitId, Vec<UnitId>)>, r: Seq<(UnitId, Vec<UnitId>)>, edge: spec_fn(UnitId, UnitId) -> bool)
    requires
        pairs_ok(unsorted, edge),
        sorted_le(r),
        r.to_multiset() == unsorted.to_multiset(),
    ensures
        adj_wf(r),
        forall|k: int| 0 <= k < r.len() ==> sorted_le((#[trigger] r[k]).1@) && r[k].1@.no_duplicates(),
        forall|a: UnitId, b: UnitId| adj_edge(r, a, b) <==> edge(a, b),
{
    lemma_perm_contains(unsorted, r);
    assert forall|k: int| 0 <= k < r.len() implies exists|j: int| 0 <= j < unsorted.len() && unsorted[j] == #[trigger] r[k] by {
        assert(r.contains(r[k]));
        assert(unsorted.contains(r[k]));
    }
    assert forall|k: int, l: int| 0 <= k < l < r.len() implies (#[trigger] r[k]).0.0 < (#[trigger] r[l]).0.0 by {
        assert(r[k].le_spec(r[l]));
        let jk = choose|j: int| 0 <= j < unsorted.len() && unsorted[j] == r[k];
        let jl = choose|j: int| 0 <= j < unsorted.len() && unsorted[j] == r[l];
        if r[k].0 == r[l].0 {
            if jk == jl {
                assert(r[k] == r[l]);
                assert(false) by {
                    lemma_keys_distinct_no_dups(unsorted);
                    lemma_perm_no_duplicates(unsorted, r);
                }
            } else if jk < jl {
                assert(unsorted[jk].0 != unsorted[jl].0);
            } else {
                assert(unsorted[jl].0 != unsorted[jk].0);
            }
        }
    }
    assert forall|k: int| 0 <= k < r.len() implies sorted_le((#[trigger] r[k]).1@) && r[k].1@.no_duplicates() by {
        let j = choose|j: int| 0 <= j < unsorted.len() && unsorted[j] == r[k];
        assert(sorted_le(unsorted[j].1@));
    }
    assert forall|k: int, b: UnitId| 0 <= k < r.len() && #[trigger] r[k].1@.contains(b)
        implies exists|l: int| 0 <= l < r.len() && (#[trigger] r[l]).0 == b by {
        let j = choose|j: int| 0 <= j < unsorted.len() && unsorted[j] == r[k];
        assert(unsorted[j].1@.contains(b));
        let l = choose|l: int| 0 <= l < unsorted.len() && (#[trigger] unsorted[l]).0 == b;
        assert(unsorted.contains(unsorted[l]));
        assert(r.contains(unsorted[l]));
        let m = choose|m: int| 0 <= m < r.len() && r[m] == unsorted[l];
        assert(r[m].0 == b);
    }
    assert forall|a: UnitId, b: UnitId| adj_edge(r, a, b) <==> edge(a, b) by {
        if adj_edge(r, a, b) {
            let k = choose|k: int| 0 <= k < r.len() && (#[trigger] r[k]).0 == a && r[k].1@.contains(b);
            let j = choose|j: int| 0 <= j < unsorted.len() && unsorted[j] == r[k];
            assert(adj_edge(unsorted, a, b));
        }
        if edge(a, b) {
            assert(adj_edge(unsorted, a, b));
            let k = choose|k: int| 0 <= k < unsorted.len() && (#[trigger] unsorted[k]).0 == a && unsorted[k].1@.contains(b);
            assert(unsorted.contains(unsorted[k]));
            let m = choose|m: int| 0 <= m < r.len() && r[m] == unsorted[k];
            assert(r[m].0 == a);
        }
    }
}

proof fn lemma_keys_distinct_no_dups(s: Seq<(UnitId, Vec<UnitId>)>)
    requires
        forall|k: int, l: int| 0 <= k < l < s.len() ==> (#[trigger] s[k]).0 != (#[trigger] s[l]).0,
    ensures
        s.no_duplicates(),
{
    assert forall|i: int, j: int| 0 <= i < s.len() && 0 <= j < s.len() && i != j implies s[i] != s[j] by {
        if i < j {
            assert(s[i].0 != s[j].0);
        } else {
            assert(s[j].0 != s[i].0);
        }
    }
}

/// The identifiers in `a` or `b`, each once.
fn union_ids(a: &Vec<UnitId>, b: &Vec<UnitId>) -> (r: Vec<UnitId>)
    requires
        a@.no_duplicates(),
    ensures
        r@.no_duplicates(),
        forall|c: UnitId| r@.contains(c) <==> a@.contains(c) || b@.contains(c),
{
    let mut merged: Vec<UnitId> = Vec::new();
    let mut t: usize = 0;
    while t < a.len()
        invariant
            t <= a@.len(),
            merged@ == a@.subrange(0, t as int),
        decreases a@.len() - t,
    {
        merged.push(a[t]);
        t = t + 1;
        proof {
            assert(merged@ =~= a@.subrange(0, t as int));
        }
    }
    assert(merged@ =~= a@);
    let mut t: usize = 0;
    while t < b.len()
        invariant
            t <= b@.len(),
            merged@.no_duplicates(),
            forall|c: UnitId| merged@.contains(c) <==> a@.contains(c) || b@.subrange(0, t as int).contains(c),
        decreases b@.len() - t,
    {
        let x = b[t];
        let ghost mbefore = merged@;
        proof {
            assert(b@.subrange(0, t + 1) =~= b@.subrange(0, t as int).push(x));
        }
        if !contains_id(&merged, x) {
            merged.push(x);
            proof {
                lemma_push_fresh(mbefore, x);
            }
        }
        proof {
            assert forall|c: UnitId| merged@.contains(c) <==> a@.contains(c) || b@.subrange(0, t + 1).contains(c) by {
                lemma_push_contains(mbefore, x, c);
                lemma_push_contains(b@.subrange(0, t as int), x, c);
            }
        }
        t = t + 1;
    }
    assert(b@.subrange(0, b@.len() as int) =~= b@);
    merged
}

/// The adjacency lists of the graph, plus the new unit if given: one entry
/// per active unit (and the new unit), by ascending identifier, each list
/// ascending and without repetition.
fn build_adjacency(graph: &GraphSnapshot, new_unit: Option<&Unit>) -> (r: Vec<(UnitId, Vec<UnitId>)>)
    requires
        graph.wf(),
    ensures
        adj_wf(r@),
        forall|k: int| 0 <= k < r@.len() ==> sorted_le((#[trigger] r@[k]).1@) && r@[k].1@.no_duplicates(),
        forall|a: UnitId, b: UnitId| adj_edge(r@, a, b) <==> match new_unit {
            None => dep_edge(graph.entries@, a, b),
            Some(u) => dep_edge_with(graph.entries@, *u, a, b),
        },
{
    let active = active_ids(&graph.entries);
    let mut pairs = graph_pairs(graph, &active);
    let ghost entries = graph.entries@;
    proof {
        assert forall|a: UnitId, b: UnitId| adj_edge(pairs@, a, b) <==> #[trigger] graph_rel(entries)(a, b) by {
            if dep_edge(entries, a, b) {
                let j = choose|j: int| 0 <= j < entries.len() && !entries[j].archived
                    && (#[trigger] entries[j]).unit.header_spec().id == a && depends_on(entries[j].unit, b);
                assert(is_active(entries, a));
                let k = choose|k: int| 0 <= k < pairs@.len() && (#[trigger] pairs@[k]).0 == a;
                assert(graph_pair_ok(entries, pairs@[k]));
            }
            if adj_edge(pairs@, a, b) {
                let k = choose|k: int| 0 <= k < pairs@.len() && (#[trigger] pairs@[k]).0 == a && pairs@[k].1@.contains(b);
                assert(graph_pair_ok(entries, pairs@[k]));
            }
        }
        assert forall|k: int, b: UnitId| 0 <= k < pairs@.len() && #[trigger] pairs@[k].1@.contains(b)
            implies exists|l: int| 0 <= l < pairs@.len() && (#[trigger] pairs@[l]).0 == b by {
            assert(graph_pair_ok(entries, pairs@[k]));
            assert(dep_edge(entries, pairs@[k].0, b));
        }
        assert(pairs_ok(pairs@, graph_rel(entries)));
    }
    match new_unit {
        None => {
            let ghost unsorted = pairs@;
            let r = sort_le(pairs);
            proof {
                lemma_sorted_pairs(unsorted, r@, graph_rel(entries));
            }
            r
        },
        Some(u) => {
            let nid = u.id();
            let mut act2: Vec<UnitId> = Vec::new();
            let mut q: usize = 0;
            while q < active.len()
                invariant
                    q <= active@.len(),
                    act2@ == active@.subrange(0, q as int),
                decreases active@.len() - q,
            {
                act2.push(active[q]);
                q = q + 1;
                proof {
                    assert(act2@ =~= active@.subrange(0, q as int));
                }
            }
            assert(act2@ =~= active@);
            act2.push(nid);
            let nb = neighbours(u, &act2);
            proof {
                assert forall|b: UnitId| act2@.contains(b) <==> is_active(entries, b) || b == nid by {
                    lemma_push_contains(active@, nid, b);
                }
            }
            let mut k: usize = 0;
            let mut at: Option<usize> = None;
            while k < pairs.len()
                invariant
                    k <= pairs@.len(),
                    at matches Some(x) ==> x < pairs@.len() && pairs@[x as int].0 == nid,
                    at is None ==> forall|j: int| 0 <= j < k ==> (#[trigger] pairs@[j]).0 != nid,
                decreases pairs@.len() - k,
            {
                if pairs[k].0.0 == nid.0 {
                    at = Some(k);
                }
                k = k + 1;
            }
            let ghost before = pairs@;
            match at {
                Some(x) => {
                    let merged = union_ids(&pairs[x].1, &nb);
                    let ghost unsorted_m = merged@;
                    let merged = sort_le(merged);
                    proof {
                        lemma_perm_contains(unsorted_m, merged@);
                        lemma_perm_no_duplicates(unsorted_m, merged@);
                        assert forall|c: UnitId| merged@.contains(c) <==> before[x as int].1@.contains(c) || nb@.contains(c) by {
                        }
                    }
                    pairs.set(x, (nid, merged));
                    proof {
                        lemma_adj_replace(before, pairs@, x as int, nid, merged@, nb@);
                    }
                },
                None => {
                    pairs.push((nid, nb));
                    proof {
                        lemma_adj_push(before, pairs@, nid, nb@);
                    }
                },
            }
            proof {
                let rel = graph_rel_with(entries, *u);
                assert forall|a: UnitId, b: UnitId| adj_edge(pairs@, a, b) <==> #[trigger] rel(a, b) by {
                    assert(adj_edge(before, a, b) <==> graph_rel(entries)(a, b));
                    assert(adj_edge(pairs@, a, b) <==> adj_edge(before, a, b) || (a == nid && nb@.contains(b)));
                    assert(nb@.contains(b) <==> depends_on(*u, b) && act2@.contains(b));
                    assert(act2@.contains(b) <==> is_active(entries, b) || b == nid);
                }
                assert forall|kk: int, ll: int| 0 <= kk < ll < pairs@.len() implies (#[trigger] pairs@[kk]).0 != (#[trigger] pairs@[ll]).0 by {
                    if at is Some {
                        assert(pairs@[kk].0 == before[kk].0 && pairs@[ll].0 == before[ll].0);
                    } else if ll < before.len() {
                        assert(pairs@[kk] == before[kk] && pairs@[ll] == before[ll]);
                    } else {
                        assert(pairs@[kk] == before[kk]);
                    }
                }
                assert forall|kk: int| 0 <= kk < pairs@.len() implies sorted_le((#[trigger] pairs@[kk]).1@) && pairs@[kk].1@.no_duplicates() by {
                    if kk < before.len() && !(at == Some(kk as usize)) {
                        assert(pairs@[kk] == before[kk]);
                    }
                }
                assert forall|kk: int, b: UnitId| 0 <= kk < pairs@.len() && #[trigger] pairs@[kk].1@.contains(b)
                    implies exists|l: int| 0 <= l < pairs@.len() && (#[trigger] pairs@[l]).0 == b by {
                    assert(adj_edge(pairs@, pairs@[kk].0, b));
                    if b == nid {
                        match at {
                            Some(x) => { assert(pairs@[x as int].0 == nid); },
                            None => { assert(pairs@[before.len() as int].0 == nid); },
                        }
                    } else {
                        assert(graph_rel_with(entries, *u)(pairs@[kk].0, b));
                        assert(dep_edge(entries, pairs@[kk].0, b) || act2@.contains(b));
                        assert(is_active(entries, b));
                        let l = choose|l: int| 0 <= l < before.len() && (#[trigger] before[l]).0 == b;
                        if at is Some {
                            assert(pairs@[l].0 == before[l].0);
                        } else {
                            assert(pairs@[l] == before[l]);
                        }
                    }
                }
                assert(pairs_ok(pairs@, rel));
            }
            let ghost unsorted = pairs@;
            let r = sort_le(pairs);
            proof {
                lemma_sorted_pairs(unsorted, r@, graph_rel_with(entries, *u));
            }
            r
        },
    }
}

// ---------------------------------------------------------------------------
// Depth-first search
// ---------------------------------------------------------------------------

/// Search state: visited and on-path marks by adjacency index, the current
/// path, and the cycles found so far.
pub struct DfsState {
    /// Visited marks.
    pub visited: Vec<bool>,
    /// On-path marks.
    pub on_path: Vec<bool>,
    /// The current path, as adjacency indices.
    pub path: Vec<usize>,
    /// The cycles found.
    pub found: Vec<Vec<UnitId>>,
    /// Finishing numbers of the units whose search is complete.
    pub finish: Ghost<Seq<int>>,
    /// The next finishing number.
    pub clock: Ghost<int>,
}

/// Unit `i`'s search is complete: visited and no longer on the path.
pub open spec fn done(st: DfsState, i: int) -> bool {
    st.visited@[i] && !st.on_path@[i]
}

/// Finishing numbers: below the clock for completed units, and, while no
/// cycle has been found, every edge out of a completed unit leads to a
/// completed unit that finished earlier.
pub open spec fn finish_ok(adj: Seq<(UnitId, Vec<UnitId>)>, st: DfsState) -> bool {
    &&& st.finish@.len() == adj.len()
    &&& forall|i: int| 0 <= i < adj.len() && done(st, i) ==> #[trigger] st.finish@[i] < st.clock@
    &&& st.found@.len() == 0 ==> forall|i: int, j: int| 0 <= i < adj.len() && 0 <= j < adj.len() && done(st, i)
        && #[trigger] key_edge(adj, i, j) ==> done(st, j) && st.finish@[j] < st.finish@[i]
}

/// Number of unvisited marks.
pub open spec fn unvisited(v: Seq<bool>) -> nat
    decreases v.len(),
{
    if v.len() == 0 {
        0
    } else {
        unvisited(v.drop_last()) + if v.last() { 0nat } else { 1nat }
    }
}

proof fn lemma_unvisited_mono(v1: Seq<bool>, v2: Seq<bool>)
    requires
        v1.len() == v2.len(),
        forall|i: int| 0 <= i < v1.len() && #[trigger] v1[i] ==> v2[i],
    ensures
        unvisited(v2) <= unvisited(v1),
    decreases v1.len(),
{
    if v1.len() > 0 {
        let a = v1.drop_last();
        let b = v2.drop_last();
        assert forall|i: int| 0 <= i < a.len() && #[trigger] a[i] implies b[i] by {
            assert(v1[i] ==> v2[i]);
        }
        lemma_unvisited_mono(a, b);
    }
}

proof fn lemma_unvisited_set(v: Seq<bool>, i: int)
    requires
        0 <= i < v.len(),
        !v[i],
    ensures
        unvisited(v.update(i, true)) + 1 == unvisited(v),
    decreases v.len(),
{
    let w = v.update(i, true);
    if i == v.len() - 1 {
        assert(w.drop_last() =~= v.drop_last());
    } else {
        assert(w.drop_last() =~= v.drop_last().update(i, true));
        lemma_unvisited_set(v.drop_last(), i);
    }
}

/// An edge between adjacency indices.
pub open spec fn key_edge(adj: Seq<(UnitId, Vec<UnitId>)>, i: int, j: int) -> bool {
    adj[i].1@.contains(adj[j].0)
}

/// A path of distinct adjacency indices along edges.
pub open spec fn path_ok(adj: Seq<(UnitId, Vec<UnitId>)>, path: Seq<usize>) -> bool {
    &&& forall|k: int| 0 <= k < path.len() ==> (#[trigger] path[k]) < adj.len()
    &&& path.no_duplicates()
    &&& forall|k: int| 0 <= k < path.len() - 1 ==> key_edge(adj, #[trigger] path[k] as int, path[k + 1] as int)
}

/// A well-formed search state.
pub open spec fn state_ok(adj: Seq<(UnitId, Vec<UnitId>)>, st: DfsState) -> bool {
    &&& st.visited@.len() == adj.len()
    &&& st.on_path@.len() == adj.len()
    &&& forall|i: usize| (i as int) < adj.len() ==> (#[trigger] st.on_path@[i as int] <==> st.path@.contains(i))
    &&& forall|k: int| 0 <= k < st.path@.len() ==> st.visited@[#[trigger] st.path@[k] as int]
    &&& path_ok(adj, st.path@)
    &&& forall|c: int| 0 <= c < st.found@.len() ==> is_cycle(adj_rel(adj), (#[trigger] st.found@[c])@)
}

/// Some cycle found so far passes through `id`.
pub open spec fn found_has(st: DfsState, id: UnitId) -> bool {
    exists|c: int| 0 <= c < st.found@.len() && (#[trigger] st.found@[c])@.contains(id)
}

/// Every edge out of a completed unit leads to a visited unit.
pub open spec fn closure_ok(adj: Seq<(UnitId, Vec<UnitId>)>, st: DfsState) -> bool {
    forall|x: int, j: int| 0 <= x < adj.len() && 0 <= j < adj.len() && done(st, x) && #[trigger] key_edge(adj, x, j)
        ==> st.visited@[j]
}

/// A completed unit with an edge to `root` has closed a cycle through it.
pub open spec fn root_ok(adj: Seq<(UnitId, Vec<UnitId>)>, st: DfsState, root: int) -> bool {
    forall|x: int| 0 <= x < adj.len() && done(st, x) && #[trigger] key_edge(adj, x, root) ==> found_has(st, adj[root].0)
}

/// Each of the first `t` neighbours of `node` is visited, and a neighbour
/// that is `root` has closed a cycle through it.
#[verifier::opaque]
pub open spec fn seen_upto(adj: Seq<(UnitId, Vec<UnitId>)>, node: int, t: int, st: DfsState, root: int) -> bool {
    &&& forall|q: int, j: int| #![trigger adj[node].1@[q], adj[j]]
        0 <= q < t && 0 <= j < adj.len() && adj[j].0 == adj[node].1@[q] ==> st.visited@[j]
    &&& forall|q: int| 0 <= q < t && #[trigger] adj[node].1@[q] == adj[root].0 ==> found_has(st, adj[root].0)
}

proof fn lemma_seen_start(adj: Seq<(UnitId, Vec<UnitId>)>, node: int, st: DfsState, root: int)
    ensures seen_upto(adj, node, 0, st, root),
{
    reveal(seen_upto);
}

proof fn lemma_seen_step(adj: Seq<(UnitId, Vec<UnitId>)>, node: int, t: int, j: int, root: int, before: DfsState, after: DfsState)
    requires
        adj_wf(adj),
        0 <= node < adj.len(),
        0 <= t < adj[node].1@.len(),
        0 <= j < adj.len(),
        0 <= root < adj.len(),
        adj[j].0 == adj[node].1@[t],
        seen_upto(adj, node, t, before, root),
        before.visited@.len() == adj.len(),
        after.visited@.len() == adj.len(),
        forall|i: int| 0 <= i < adj.len() && #[trigger] before.visited@[i] ==> after.visited@[i],
        after.found@.len() >= before.found@.len(),
        forall|c: int| 0 <= c < before.found@.len() ==> #[trigger] after.found@[c] == before.found@[c],
        after.visited@[j],
        j == root ==> found_has(after, adj[root].0),
    ensures
        seen_upto(adj, node, t + 1, after, root),
{
    reveal(seen_upto);
    assert forall|q: int, jj: int| #![trigger adj[node].1@[q], adj[jj]]
        0 <= q < t + 1 && 0 <= jj < adj.len() && adj[jj].0 == adj[node].1@[q] implies after.visited@[jj] by {
        if q < t {
            assert(before.visited@[jj]);
        } else if jj != j {
            if jj < j {
                assert(adj[jj].0.0 < adj[j].0.0);
            } else {
                assert(adj[j].0.0 < adj[jj].0.0);
            }
        }
    }
    assert forall|q: int| 0 <= q < t + 1 && #[trigger] adj[node].1@[q] == adj[root].0 implies found_has(after, adj[root].0) by {
        if q < t {
            assert(found_has(before, adj[root].0));
            let c0 = choose|c0: int| 0 <= c0 < before.found@.len() && (#[trigger] before.found@[c0])@.contains(adj[root].0);
            assert(after.found@[c0] == before.found@[c0]);
        } else if root != j {
            if root < j {
                assert(adj[root].0.0 < adj[j].0.0);
            } else {
                assert(adj[j].0.0 < adj[root].0.0);
            }
        }
    }
}

/// At the end of `node`'s search, every edge out of it leads to a visited
/// unit, and an edge to `root` has closed a cycle through it.
proof fn lemma_seen_all(adj: Seq<(UnitId, Vec<UnitId>)>, node: int, st: DfsState, root: int)
    requires
        0 <= node < adj.len(),
        0 <= root < adj.len(),
        seen_upto(adj, node, adj[node].1@.len() as int, st, root),
    ensures
        forall|jj: int| 0 <= jj < adj.len() && #[trigger] key_edge(adj, node, jj) ==> st.visited@[jj],
        key_edge(adj, node, root) ==> found_has(st, adj[root].0),
{
    reveal(seen_upto);
    assert forall|jj: int| 0 <= jj < adj.len() && #[trigger] key_edge(adj, node, jj) implies st.visited@[jj] by {
        let q = choose|q: int| 0 <= q < adj[node].1@.len() && adj[node].1@[q] == adj[jj].0;
    }
    if key_edge(adj, node, root) {
        let q = choose|q: int| 0 <= q < adj[node].1@.len() && adj[node].1@[q] == adj[root].0;
    }
}

/// Adding cycles keeps what completed units have shown.
proof fn lemma_found_grow(adj: Seq<(UnitId, Vec<UnitId>)>, before: DfsState, after: DfsState, root: int)
    requires
        after.visited@ == before.visited@,
        after.on_path@ == before.on_path@,
        after.found@.len() >= before.found@.len(),
        forall|c: int| 0 <= c < before.found@.len() ==> #[trigger] after.found@[c] == before.found@[c],
    ensures
        closure_ok(adj, before) ==> closure_ok(adj, after),
        root_ok(adj, before, root) ==> root_ok(adj, after, root),
        forall|id: UnitId| found_has(before, id) ==> #[trigger] found_has(after, id),
{
    assert forall|id: UnitId| found_has(before, id) implies #[trigger] found_has(after, id) by {
        let c = choose|c: int| 0 <= c < before.found@.len() && (#[trigger] before.found@[c])@.contains(id);
        assert(after.found@[c] == before.found@[c]);
    }
    if root_ok(adj, before, root) {
        assert forall|x: int| 0 <= x < adj.len() && done(after, x) && #[trigger] key_edge(adj, x, root) implies found_has(after, adj[root].0) by {
            assert(done(before, x));
        }
    }
    if closure_ok(adj, before) {
        assert forall|x: int, j: int| 0 <= x < adj.len() && 0 <= j < adj.len() && done(after, x) && #[trigger] key_edge(adj, x, j)
            implies after.visited@[j] by {
            assert(done(before, x));
        }
    }
}

/// The identifiers at positions `p..` of the path.
pub open spec fn path_ids(adj: Seq<(UnitId, Vec<UnitId>)>, path: Seq<usize>, p: int) -> Seq<UnitId> {
    path.subrange(p, path.len() as int).map_values(|x: usize| adj[x as int].0)
}

proof fn lemma_path_cycle(adj: Seq<(UnitId, Vec<UnitId>)>, path: Seq<usize>, p: int)
    requires
        adj_wf(adj),
        path_ok(adj, path),
        0 <= p < path.len(),
        key_edge(adj, path[path.len() - 1] as int, path[p] as int),
    ensures
        is_cycle(adj_rel(adj), path_ids(adj, path, p)),
{
    let c = path_ids(adj, path, p);
    let n = path.len();
    assert(c.len() == n - p);
    assert forall|i: int| 0 <= i < c.len() implies #[trigger] c[i] == adj[path[p + i] as int].0 by {
    }
    assert forall|i: int| 0 <= i < c.len() - 1 implies #[trigger] adj_rel(adj)(c[i], c[i + 1]) by {
        let k = path[p + i] as int;
        assert(key_edge(adj, path[p + i] as int, path[p + i + 1] as int));
        assert(c[i] == adj[k].0);
        assert(c[i + 1] == adj[path[p + i + 1] as int].0);
        assert(adj_edge(adj, c[i], c[i + 1]));
    }
    assert(adj_rel(adj)(c[c.len() - 1], c[0])) by {
        let k = path[n - 1] as int;
        assert(c[c.len() - 1] == adj[k].0);
        assert(c[0] == adj[path[p] as int].0);
        assert(adj_edge(adj, c[c.len() - 1], c[0]));
    }
    assert forall|i: int, j: int| 0 <= i < j < c.len() implies c[i] != c[j] by {
        let a = path[p + i] as int;
        let b = path[p + j] as int;
        assert(c[i] == adj[a].0);
        assert(c[j] == adj[b].0);
        assert(path[p + i] != path[p + j]);
        if a < b {
            assert(adj[a].0.0 < adj[b].0.0);
        } else {
            assert(adj[b].0.0 < adj[a].0.0);
        }
    }
}

/// The index of the adjacency entry with key `id`.
fn key_index(adj: &Vec<(UnitId, Vec<UnitId>)>, id: UnitId) -> (r: usize)
    requires
        exists|l: int| 0 <= l < adj@.len() && (#[trigger] adj@[l]).0 == id,
    ensures
        r < adj@.len(),
        adj@[r as int].0 == id,
{
    let mut i: usize = 0;
    while i < adj.len()
        invariant
            i <= adj@.len(),
            forall|j: int| 0 <= j < i ==> (#[trigger] adj@[j]).0 != id,
            exists|l: int| 0 <= l < adj@.len() && (#[trigger] adj@[l]).0 == id,
        decreases adj@.len() - i,
    {
        if adj[i].0.0 == id.0 {
            return i;
        }
        i = i + 1;
    }
    proof {
        let l = choose|l: int| 0 <= l < adj@.len() && (#[trigger] adj@[l]).0 == id;
        assert(adj@[l].0 != id);
    }
    0
}

/// The position of `j` on the path.
fn path_position(path: &Vec<usize>, j: usize) -> (r: usize)
    requires
        path@.contains(j),
    ensures
        r < path@.len(),
        path@[r as int] == j,
{
    let mut i: usize = 0;
    while i < path.len()
        invariant
            i <= path@.len(),
            forall|q: int| 0 <= q < i ==> path@[q] != j,
            path@.contains(j),
        decreases path@.len() - i,
    {
        if path[i] == j {
            return i;
        }
        i = i + 1;
    }
    0
}

/// The identifiers at positions `p..` of the path.
fn ids_from(adj: &Vec<(UnitId, Vec<UnitId>)>, path: &Vec<usize>, p: usize) -> (r: Vec<UnitId>)
    requires
        p <= path@.len(),
        forall|k: int| 0 <= k < path@.len() ==> (#[trigger] path@[k]) < adj@.len(),
    ensures
        r@ == path_ids(adj@, path@, p as int),
{
    let mut out: Vec<UnitId> = Vec::new();
    let mut i: usize = p;
    while i < path.len()
        invariant
            p <= i <= path@.len(),
            forall|k: int| 0 <= k < path@.len() ==> (#[trigger] path@[k]) < adj@.len(),
            out@ == path@.subrange(p as int, i as int).map_values(|x: usize| adj@[x as int].0),
        decreases path@.len() - i,
    {
        out.push(adj[path[i]].0);
        i = i + 1;
        proof {
            assert(out@ =~= path@.subrange(p as int, i as int).map_values(|x: usize| adj@[x as int].0));
        }
    }
    out
}

/// Whether two identifier sequences are equal.
fn ids_equal(a: &Vec<UnitId>, b: &Vec<UnitId>) -> (r: bool)
    ensures r == (a@ == b@),
{
    if a.len() != b.len() {
        return false;
    }
    let mut i: usize = 0;
    while i < a.len()
        invariant
            i <= a@.len(),
            a@.len() == b@.len(),
            forall|q: int| 0 <= q < i ==> a@[q] == b@[q],
        decreases a@.len() - i,
    {
        if a[i].0 != b[i].0 {
            return false;
        }
        i = i + 1;
    }
    assert(a@ =~= b@);
    true
}

/// Whether `found` holds a cycle equal to `c`.
fn found_contains(found: &Vec<Vec<UnitId>>, c: &Vec<UnitId>) -> (r: bool)
    ensures r == exists|q: int| 0 <= q < found@.len() && (#[trigger] found@[q])@ == c@,
{
    let mut i: usize = 0;
    while i < found.len()
        invariant
            i <= found@.len(),
            forall|q: int| 0 <= q < i ==> (#[trigger] found@[q])@ != c@,
        decreases found@.len() - i,
    {
        if ids_equal(&found[i], c) {
            return true;
        }
        i = i + 1;
    }
    false
}

/// Depth-first search from `node`: marks what it reaches, records each
/// back edge's cycle, and restores the path.
#[verifier::rlimit(60)]
fn dfs(node: usize, adj: &Vec<(UnitId, Vec<UnitId>)>, st0: DfsState, Ghost(root): Ghost<int>) -> (r: DfsState)
    requires
        adj_wf(adj@),
        state_ok(adj@, st0),
        node < adj@.len(),
        !st0.visited@[node as int],
        st0.path@.len() > 0 ==> key_edge(adj@, st0.path@.last() as int, node as int),
        finish_ok(adj@, st0),
        closure_ok(adj@, st0),
        0 <= root < adj@.len(),
        root == node || st0.on_path@[root],
        root_ok(adj@, st0, root),
    ensures
        state_ok(adj@, r),
        finish_ok(adj@, r),
        closure_ok(adj@, r),
        root_ok(adj@, r, root),
        forall|c: int| 0 <= c < st0.found@.len() ==> #[trigger] r.found@[c] == st0.found@[c],
        r.found@.len() >= st0.found@.len(),
        r.visited@[node as int],
        r.clock@ >= st0.clock@,
        forall|i: int| 0 <= i < adj@.len() && #[trigger] done(st0, i) ==> done(r, i) && r.finish@[i] == st0.finish@[i],
        r.path@ == st0.path@,
        r.on_path@ == st0.on_path@,
        forall|i: int| 0 <= i < adj@.len() && #[trigger] st0.visited@[i] ==> r.visited@[i],
        unvisited(r.visited@) < unvisited(st0.visited@),
    decreases unvisited(st0.visited@),
{
    let ghost old_path = st0.path@;
    let ghost old_on = st0.on_path@;
    let ghost old_visited = st0.visited@;
    let mut st = st0;
    proof {
        assert(!old_path.contains(node)) by {
            if old_path.contains(node) {
                let k = choose|k: int| 0 <= k < old_path.len() && old_path[k] == node;
                assert(st0.visited@[st0.path@[k] as int]);
            }
        }
        lemma_unvisited_set(old_visited, node as int);
    }
    st.visited.set(node, true);
    st.on_path.set(node, true);
    st.path.push(node);
    proof {
        assert(st.path@ == old_path.push(node));
        assert forall|i: usize| (i as int) < adj@.len() implies (#[trigger] st.on_path@[i as int] <==> st.path@.contains(i)) by {
            lemma_push_contains_usize(old_path, node, i);
            assert(old_on[i as int] <==> old_path.contains(i));
        }
        assert forall|k: int| 0 <= k < st.path@.len() implies st.visited@[#[trigger] st.path@[k] as int] by {
            if k < old_path.len() {
                assert(old_visited[old_path[k] as int]);
            }
        }
        assert forall|a: int, b: int| 0 <= a < st.path@.len() && 0 <= b < st.path@.len() && a != b implies st.path@[a] != st.path@[b] by {
            if a < old_path.len() && b < old_path.len() {
            } else if a < old_path.len() {
                assert(old_path.contains(old_path[a]));
            } else {
                assert(old_path.contains(old_path[b]));
            }
        }
        assert forall|k: int| 0 <= k < st.path@.len() - 1 implies key_edge(adj@, #[trigger] st.path@[k] as int, st.path@[k + 1] as int) by {
            if k < old_path.len() - 1 {
                assert(st.path@[k] == old_path[k] && st.path@[k + 1] == old_path[k + 1]);
            }
        }
    }
    proof {
        assert forall|x: int| 0 <= x < adj@.len() && done(st, x) && #[trigger] key_edge(adj@, x, root)
            implies found_has(st, adj@[root].0) by {
            assert(done(st0, x));
            assert(found_has(st0, adj@[root].0));
            let c0 = choose|c0: int| 0 <= c0 < st0.found@.len() && (#[trigger] st0.found@[c0])@.contains(adj@[root].0);
            assert(st.found@[c0] == st0.found@[c0]);
        }
        assert forall|x: int, jj: int| 0 <= x < adj@.len() && 0 <= jj < adj@.len() && done(st, x) && #[trigger] key_edge(adj@, x, jj)
            implies st.visited@[jj] by {
            assert(done(st0, x));
            assert(st0.visited@[jj]);
        }
    }
    let n_nb = adj[node].1.len();
    proof {
        lemma_seen_start(adj@, node as int, st, root);
    }
    let mut t: usize = 0;
    while t < n_nb
        invariant
            adj_wf(adj@),
            node < adj@.len(),
            n_nb == adj@[node as int].1@.len(),
            t <= n_nb,
            state_ok(adj@, st),
            finish_ok(adj@, st),
            st.path@ == old_path.push(node),
            st.on_path@ == old_on.update(node as int, true),
            old_on.len() == adj@.len(),
            old_visited.len() == adj@.len(),
            forall|i: int| 0 <= i < adj@.len() && #[trigger] old_visited[i] ==> st.visited@[i],
            st.visited@[node as int],
            unvisited(st.visited@) < unvisited(old_visited),
            old_visited == st0.visited@,
            old_on == st0.on_path@,
            st.found@.len() >= st0.found@.len(),
            st.clock@ >= st0.clock@,
            forall|i: int| 0 <= i < adj@.len() && #[trigger] done(st0, i) ==> done(st, i) && st.finish@[i] == st0.finish@[i],
            st.found@.len() == 0 ==> forall|q: int, j: int| #![trigger adj@[node as int].1@[q], adj@[j]]
                0 <= q < t && 0 <= j < adj@.len() && adj@[j].0 == adj@[node as int].1@[q] ==> done(st, j),
            closure_ok(adj@, st),
            0 <= root < adj@.len(),
            st.on_path@[root],
            root_ok(adj@, st, root),
            forall|c: int| 0 <= c < st0.found@.len() ==> #[trigger] st.found@[c] == st0.found@[c],
            seen_upto(adj@, node as int, t as int, st, root),
        decreases n_nb - t,
    {
        let nb = adj[node].1[t];
        proof {
            assert(adj@[node as int].1@.contains(nb)) by {
                assert(adj@[node as int].1@[t as int] == nb);
            }
        }
        let j = key_index(adj, nb);
        proof {
            assert(key_edge(adj@, node as int, j as int));
        }
        let ghost st_before = st;
        if st.on_path[j] {
            let p = path_position(&st.path, j);
            let cyc = ids_from(adj, &st.path, p);
            proof {
                assert(st.path@[st.path@.len() - 1] == node);
                lemma_path_cycle(adj@, st.path@, p as int);
            }
            let ghost cyc_view = cyc@;
            proof {
                assert(cyc_view[0] == adj@[j as int].0);
                assert(cyc_view.contains(adj@[j as int].0));
            }
            if !found_contains(&st.found, &cyc) {
                let ghost fbefore = st.found@;
                st.found.push(cyc);
                proof {
                    assert forall|c: int| 0 <= c < st.found@.len() implies is_cycle(adj_rel(adj@), (#[trigger] st.found@[c])@) by {
                        if c < fbefore.len() {
                            assert(st.found@[c] == fbefore[c]);
                        }
                    }
                    lemma_found_grow(adj@, st_before, st, root);
                    assert(st.found@[fbefore.len() as int]@ == cyc_view);
                }
            }
            proof {
                assert(st.found@.len() > 0);
                assert(found_has(st, adj@[j as int].0));
            }
        } else if !st.visited[j] {
            let ghost before_visited = st.visited@;
            proof {
                assert(st.path@.last() == node);
            }
            st = dfs(j, adj, st, Ghost(root));
            proof {
                assert forall|i: int| 0 <= i < adj@.len() && #[trigger] old_visited[i] implies st.visited@[i] by {
                    assert(before_visited[i]);
                }
                assert(before_visited[node as int]);
                assert(!st_before.on_path@[j as int]) by {
                    if st_before.on_path@[j as int] {
                        assert(st_before.path@.contains(j));
                        let k = choose|k: int| 0 <= k < st_before.path@.len() && st_before.path@[k] == j;
                        assert(st_before.visited@[st_before.path@[k] as int]);
                    }
                }
                assert(done(st, j as int));
                assert forall|i: int| 0 <= i < adj@.len() && #[trigger] done(st0, i) implies done(st, i) && st.finish@[i] == st0.finish@[i] by {
                    assert(done(st_before, i));
                    assert(st_before.finish@[i] == st0.finish@[i]);
                }
            }
        }
        proof {
            assert forall|c: int| 0 <= c < st_before.found@.len() implies #[trigger] st.found@[c] == st_before.found@[c] by {}
            assert forall|c: int| 0 <= c < st0.found@.len() implies #[trigger] st.found@[c] == st0.found@[c] by {
                assert(st_before.found@[c] == st0.found@[c]);
            }
            assert(st.visited@[j as int]) by {
                if st_before.on_path@[j as int] {
                    assert(st_before.path@.contains(j));
                    let k = choose|k: int| 0 <= k < st_before.path@.len() && st_before.path@[k] == j;
                    assert(st_before.visited@[st_before.path@[k] as int]);
                }
            }
            assert(j as int == root ==> found_has(st, adj@[root].0)) by {
                if j as int == root {
                    assert(st_before.on_path@[root]);
                }
            }
            lemma_seen_step(adj@, node as int, t as int, j as int, root, st_before, st);
            if st.found@.len() == 0 {
                assert(st_before.found@.len() == 0);
                assert forall|q: int, jj: int| #![trigger adj@[node as int].1@[q], adj@[jj]]
                    0 <= q < t + 1 && 0 <= jj < adj@.len() && adj@[jj].0 == adj@[node as int].1@[q] implies done(st, jj) by {
                    if q < t {
                        assert(done(st_before, jj));
                    } else {
                        if jj != j as int {
                            if jj < j as int {
                                assert(adj@[jj].0.0 < adj@[j as int].0.0);
                            } else {
                                assert(adj@[j as int].0.0 < adj@[jj].0.0);
                            }
                        }
                    }
                }
            }
        }
        t = t + 1;
    }
    let ghost st_end = st;
    let ghost c = st.clock@;
    st.path.pop();
    st.on_path.set(node, false);
    proof {
        st.finish@ = st.finish@.update(node as int, c);
        st.clock@ = c + 1;
    }
    proof {
        assert(st.path@ =~= old_path);
        assert(st.on_path@ =~= old_on) by {
            assert(!old_path.contains(node));
            assert(!old_on[node as int]);
        }
        assert(!done(st_end, node as int));
        assert forall|i: int| 0 <= i < adj@.len() && done(st, i) implies #[trigger] st.finish@[i] < st.clock@ by {
            if i != node as int {
                assert(done(st_end, i));
            }
        }
        if st.found@.len() == 0 {
            assert forall|i: int, jj: int| 0 <= i < adj@.len() && 0 <= jj < adj@.len() && done(st, i)
                && #[trigger] key_edge(adj@, i, jj) implies done(st, jj) && st.finish@[jj] < st.finish@[i] by {
                if i == node as int {
                    let q = choose|q: int| 0 <= q < adj@[node as int].1@.len() && adj@[node as int].1@[q] == adj@[jj].0;
                    assert(done(st_end, jj));
                    assert(jj != node as int);
                } else {
                    assert(done(st_end, i));
                    assert(done(st_end, jj));
                    assert(jj != node as int);
                }
            }
        }
        assert forall|i: int| 0 <= i < adj@.len() && #[trigger] done(st0, i) implies done(st, i) && st.finish@[i] == st0.finish@[i] by {
            assert(done(st_end, i));
            assert(i != node as int);
        }
        assert forall|x: int, jj: int| 0 <= x < adj@.len() && 0 <= jj < adj@.len() && done(st, x) && #[trigger] key_edge(adj@, x, jj)
            implies st.visited@[jj] by {
            if x == node as int {
                lemma_seen_all(adj@, node as int, st_end, root);
                assert(st_end.visited@[jj]);
            } else {
                assert(done(st_end, x));
            }
        }
        assert forall|x: int| 0 <= x < adj@.len() && done(st, x) && #[trigger] key_edge(adj@, x, root) implies found_has(st, adj@[root].0) by {
            if x == node as int {
                lemma_seen_all(adj@, node as int, st_end, root);
                assert(found_has(st_end, adj@[root].0));
            } else {
                assert(done(st_end, x));
            }
        }
    }
    st
}

/// The adjacency index of key `id`.
pub open spec fn key_at(adj: Seq<(UnitId, Vec<UnitId>)>, id: UnitId) -> int {
    choose|l: int| 0 <= l < adj.len() && (#[trigger] adj[l]).0 == id
}

/// An edge of the lists joins the entries of its two keys.
proof fn lemma_edge_keys(adj: Seq<(UnitId, Vec<UnitId>)>, a: UnitId, b: UnitId)
    requires
        adj_wf(adj),
        adj_edge(adj, a, b),
    ensures
        0 <= key_at(adj, a) < adj.len() && adj[key_at(adj, a)].0 == a,
        0 <= key_at(adj, b) < adj.len() && adj[key_at(adj, b)].0 == b,
        key_edge(adj, key_at(adj, a), key_at(adj, b)),
{
    let k = choose|k: int| 0 <= k < adj.len() && (#[trigger] adj[k]).0 == a && adj[k].1@.contains(b);
    assert(adj[k].1@.contains(b));
    let l = choose|l: int| 0 <= l < adj.len() && (#[trigger] adj[l]).0 == b;
    let ka = key_at(adj, a);
    let kb = key_at(adj, b);
    assert(0 <= ka < adj.len() && adj[ka].0 == a);
    assert(0 <= kb < adj.len() && adj[kb].0 == b);
    if ka != k {
        if ka < k {
            assert(adj[ka].0.0 < adj[k].0.0);
        } else {
            assert(adj[k].0.0 < adj[ka].0.0);
        }
    }
}

/// Position `m + k` of a cycle of length `n`, going round.
pub open spec fn round(n: int, m: int, k: int) -> int {
    if m + k < n { m + k } else { m + k - n }
}

/// From a visited unit of a cycle, closure under edges visits the units
/// that follow it round the cycle.
proof fn lemma_cycle_visited(adj: Seq<(UnitId, Vec<UnitId>)>, st: DfsState, c: Seq<UnitId>, m: int, k: int)
    requires
        adj_wf(adj),
        is_cycle(adj_rel(adj), c),
        0 <= m < c.len(),
        0 <= k < c.len(),
        st.visited@.len() == adj.len(),
        st.on_path@.len() == adj.len(),
        closure_ok(adj, st),
        forall|x: int| 0 <= x < adj.len() ==> !(#[trigger] st.on_path@[x]),
        0 <= key_at(adj, c[m]) < adj.len() && adj[key_at(adj, c[m])].0 == c[m],
        st.visited@[key_at(adj, c[m])],
    ensures
        0 <= key_at(adj, c[round(c.len() as int, m, k)]) < adj.len(),
        st.visited@[key_at(adj, c[round(c.len() as int, m, k)])],
    decreases k,
{
    let n = c.len() as int;
    if k > 0 {
        lemma_cycle_visited(adj, st, c, m, k - 1);
        let a = round(n, m, k - 1);
        let b = round(n, m, k);
        if a < n - 1 {
            assert(b == a + 1);
            assert(adj_rel(adj)(c[a], c[a + 1]));
        } else {
            assert(b == 0);
            assert(adj_rel(adj)(c[n - 1], c[0]));
        }
        lemma_edge_keys(adj, c[a], c[b]);
        assert(done(st, key_at(adj, c[a])));
    }
}

/// Once every unit is complete with no cycle found, each edge leads to a
/// unit that finished earlier.
proof fn lemma_edge_finish(adj: Seq<(UnitId, Vec<UnitId>)>, st: DfsState, a: UnitId, b: UnitId)
    requires
        adj_wf(adj),
        finish_ok(adj, st),
        st.found@.len() == 0,
        forall|q: int| 0 <= q < adj.len() ==> done(st, q),
        adj_edge(adj, a, b),
    ensures
        0 <= key_at(adj, a) < adj.len() && adj[key_at(adj, a)].0 == a,
        0 <= key_at(adj, b) < adj.len() && adj[key_at(adj, b)].0 == b,
        st.finish@[key_at(adj, b)] < st.finish@[key_at(adj, a)],
{
    let k = choose|k: int| 0 <= k < adj.len() && (#[trigger] adj[k]).0 == a && adj[k].1@.contains(b);
    assert(adj[k].1@.contains(b));
    let l = choose|l: int| 0 <= l < adj.len() && (#[trigger] adj[l]).0 == b;
    let ka = key_at(adj, a);
    let kb = key_at(adj, b);
    assert(0 <= ka < adj.len() && adj[ka].0 == a);
    assert(0 <= kb < adj.len() && adj[kb].0 == b);
    if ka != k {
        if ka < k {
            assert(adj[ka].0.0 < adj[k].0.0);
        } else {
            assert(adj[k].0.0 < adj[ka].0.0);
        }
    }
    assert(key_edge(adj, ka, kb));
    assert(done(st, ka));
}

/// Finishing numbers fall by at least one along each step of a chain.
proof fn lemma_chain_finish(adj: Seq<(UnitId, Vec<UnitId>)>, st: DfsState, c: Seq<UnitId>, i: int)
    requires
        adj_wf(adj),
        finish_ok(adj, st),
        st.found@.len() == 0,
        forall|q: int| 0 <= q < adj.len() ==> done(st, q),
        is_cycle(adj_rel(adj), c),
        0 <= i < c.len(),
    ensures
        st.finish@[key_at(adj, c[i])] + i <= st.finish@[key_at(adj, c[0])],
    decreases i,
{
    if i > 0 {
        lemma_chain_finish(adj, st, c, i - 1);
        assert(adj_rel(adj)(c[i - 1], c[(i - 1) + 1]));
        lemma_edge_finish(adj, st, c[i - 1], c[i]);
    }
}

/// A search that completed every unit without finding a cycle proves that
/// there is none.
proof fn lemma_acyclic(adj: Seq<(UnitId, Vec<UnitId>)>, st: DfsState)
    requires
        adj_wf(adj),
        finish_ok(adj, st),
        st.found@.len() == 0,
        forall|q: int| 0 <= q < adj.len() ==> done(st, q),
    ensures
        forall|c: Seq<UnitId>| !is_cycle(adj_rel(adj), c),
{
    assert forall|c: Seq<UnitId>| !is_cycle(adj_rel(adj), c) by {
        if is_cycle(adj_rel(adj), c) {
            let n = c.len() as int;
            lemma_chain_finish(adj, st, c, n - 1);
            lemma_edge_finish(adj, st, c[n - 1], c[0]);
        }
    }
}

proof fn lemma_push_contains_usize(s: Seq<usize>, x: usize, c: usize)
    ensures s.push(x).contains(c) <==> s.contains(c) || c == x,
{
    if s.push(x).contains(c) {
        let i = choose|i: int| 0 <= i < s.push(x).len() && s.push(x)[i] == c;
        if i < s.len() {
            assert(s[i] == c);
        }
    }
    if s.contains(c) {
        let i = choose|i: int| 0 <= i < s.len() && s[i] == c;
        assert(s.push(x)[i] == c);
    }
    if c == x {
        assert(s.push(x)[s.len() as int] == c);
    }
}

/// Every cycle that a depth-first search from each unvisited unit, in key
/// order, finds through a back edge, each once, in lexicographic order.
fn search_all(adj: &Vec<(UnitId, Vec<UnitId>)>) -> (r: Vec<Vec<UnitId>>)
    requires
        adj_wf(adj@),
    ensures
        forall|c: int| 0 <= c < r@.len() ==> is_cycle(adj_rel(adj@), (#[trigger] r@[c])@),
        sorted_le(r@),
        r@.len() == 0 ==> forall|c: Seq<UnitId>| !is_cycle(adj_rel(adj@), c),
{
    let n = adj.len();
    let mut visited: Vec<bool> = Vec::new();
    let mut on_path: Vec<bool> = Vec::new();
    let mut i: usize = 0;
    while i < n
        invariant
            i <= n,
            n == adj@.len(),
            visited@.len() == i,
            on_path@.len() == i,
            forall|q: int| 0 <= q < i ==> !(#[trigger] on_path@[q]),
            forall|q: int| 0 <= q < i ==> !(#[trigger] visited@[q]),
        decreases n - i,
    {
        visited.push(false);
        on_path.push(false);
        i = i + 1;
    }
    let mut st = DfsState {
        visited,
        on_path,
        path: Vec::new(),
        found: Vec::new(),
        finish: Ghost(Seq::new(n as nat, |q: int| 0int)),
        clock: Ghost(0int),
    };
    let mut s: usize = 0;
    while s < n
        invariant
            s <= n,
            n == adj@.len(),
            adj_wf(adj@),
            state_ok(adj@, st),
            finish_ok(adj@, st),
            closure_ok(adj@, st),
            st.path@.len() == 0,
            forall|q: int| 0 <= q < s ==> #[trigger] st.visited@[q],
        decreases n - s,
    {
        if !st.visited[s] {
            let ghost before = st.visited@;
            proof {
                assert forall|x: int| 0 <= x < adj@.len() && done(st, x) && #[trigger] key_edge(adj@, x, s as int)
                    implies found_has(st, adj@[s as int].0) by {
                    assert(st.visited@[s as int]);
                }
            }
            st = dfs(s, adj, st, Ghost(s as int));
            proof {
                assert forall|q: int| 0 <= q < s implies #[trigger] st.visited@[q] by {
                    assert(before[q]);
                }
            }
        }
        s = s + 1;
    }
    proof {
        assert forall|q: int| 0 <= q < n implies done(st, q) by {
            assert(st.visited@[q]);
            assert(!st.path@.contains(q as usize));
            assert(st.on_path@[(q as usize) as int] <==> st.path@.contains(q as usize));
        }
        if st.found@.len() == 0 {
            lemma_acyclic(adj@, st);
        }
    }
    let ghost unsorted = st.found@;
    let r = sort_le(st.found);
    proof {
        vstd::seq_lib::to_multiset_len(unsorted);
        vstd::seq_lib::to_multiset_len(r@);
        lemma_perm_contains(unsorted, r@);
        assert forall|c: int| 0 <= c < r@.len() implies is_cycle(adj_rel(adj@), (#[trigger] r@[c])@) by {
            assert(r@.contains(r@[c]));
            let q = choose|q: int| 0 <= q < unsorted.len() && unsorted[q] == r@[c];
        }
    }
    r
}

/// `c` rotated to start at position `m`.
pub open spec fn rotate(c: Seq<UnitId>, m: int) -> Seq<UnitId> {
    c.subrange(m, c.len() as int) + c.subrange(0, m)
}

/// `m` is the first position of the smallest identifier of `c`.
pub open spec fn first_min_at(c: Seq<UnitId>, m: int) -> bool {
    &&& 0 <= m < c.len()
    &&& forall|i: int| 0 <= i < c.len() ==> c[m].0 <= (#[trigger] c[i]).0
    &&& forall|i: int| 0 <= i < m ==> c[m].0 < (#[trigger] c[i]).0
}

/// The normal form of a chain: rotated to start at its first smallest
/// identifier; an empty chain is left as it is.
pub open spec fn normalized(c: Seq<UnitId>, r: Seq<UnitId>) -> bool {
    if c.len() == 0 {
        r == c
    } else {
        exists|m: int| first_min_at(c, m) && r == rotate(c, m)
    }
}

proof fn lemma_rotate_cycle(edge: spec_fn(UnitId, UnitId) -> bool, c: Seq<UnitId>, m: int)
    requires
        is_cycle(edge, c),
        first_min_at(c, m),
    ensures
        is_cycle(edge, rotate(c, m)),
        starts_at_min(rotate(c, m)),
        forall|x: UnitId| c.contains(x) ==> rotate(c, m).contains(x),
{
    let r = rotate(c, m);
    let n = c.len();
    assert(r.len() == n);
    assert forall|i: int| 0 <= i < n implies #[trigger] r[i] == c[if i + m < n { i + m } else { i + m - n }] by {
    }
    assert forall|i: int| 0 <= i < n - 1 implies #[trigger] edge(r[i], r[i + 1]) by {
        let a = if i + m < n { i + m } else { i + m - n };
        let b = if i + 1 + m < n { i + 1 + m } else { i + 1 + m - n };
        assert(r[i] == c[a]);
        assert(r[i + 1] == c[b]);
        if a == n - 1 {
            assert(b == 0);
        } else {
            assert(b == a + 1);
            assert(edge(c[a], c[a + 1]));
        }
    }
    assert(edge(r[n - 1], r[0])) by {
        assert(r[0] == c[m]);
        if m == 0 {
            assert(r[n - 1] == c[n - 1]);
        } else {
            assert(r[n - 1] == c[m - 1]);
            assert(edge(c[m - 1], c[(m - 1) + 1]));
        }
    }
    assert forall|i: int, j: int| 0 <= i < j < n implies r[i] != r[j] by {
        let a = if i + m < n { i + m } else { i + m - n };
        let b = if j + m < n { j + m } else { j + m - n };
        assert(r[i] == c[a] && r[j] == c[b]);
        assert(a != b);
        if a < b {
            assert(c[a] != c[b]);
        } else {
            assert(c[b] != c[a]);
        }
    }
    assert forall|x: UnitId| c.contains(x) implies r.contains(x) by {
        let j = choose|j: int| 0 <= j < n && c[j] == x;
        let i = if j >= m { j - m } else { j + n - m };
        assert(r[i] == c[j]);
    }
    assert forall|i: int| 0 <= i < n implies r[0].0 <= (#[trigger] r[i]).0 by {
        let a = if i + m < n { i + m } else { i + m - n };
        assert(r[i] == c[a]);
        assert(r[0] == c[m]);
        assert(c[m].0 <= c[a].0);
    }
}

/// Rotates a chain to start at its smallest identifier.
pub fn normalize_cycle(chain: Vec<UnitId>) -> (r: RecoveryCycle)
    ensures normalized(chain@, r.chain@),
{
    if chain.len() == 0 {
        return RecoveryCycle { chain };
    }
    let mut m: usize = 0;
    let mut i: usize = 1;
    while i < chain.len()
        invariant
            1 <= i <= chain@.len(),
            m < i,
            forall|q: int| 0 <= q < i ==> chain@[m as int].0 <= (#[trigger] chain@[q]).0,
            forall|q: int| 0 <= q < m ==> chain@[m as int].0 < (#[trigger] chain@[q]).0,
        decreases chain@.len() - i,
    {
        if chain[i].0 < chain[m].0 {
            m = i;
        }
        i = i + 1;
    }
    let mut rotated: Vec<UnitId> = Vec::new();
    let mut k: usize = m;
    while k < chain.len()
        invariant
            m <= k <= chain@.len(),
            rotated@ == chain@.subrange(m as int, k as int),
        decreases chain@.len() - k,
    {
        rotated.push(chain[k]);
        k = k + 1;
        proof {
            assert(rotated@ =~= chain@.subrange(m as int, k as int));
        }
    }
    let mut k: usize = 0;
    while k < m
        invariant
            k <= m,
            m < chain@.len(),
            rotated@ == chain@.subrange(m as int, chain@.len() as int) + chain@.subrange(0, k as int),
        decreases m - k,
    {
        rotated.push(chain[k]);
        k = k + 1;
        proof {
            assert(rotated@ =~= chain@.subrange(m as int, chain@.len() as int) + chain@.subrange(0, k as int));
        }
    }
    proof {
        assert(first_min_at(chain@, m as int));
    }
    RecoveryCycle { chain: rotated }
}

/// Default, stateless cycle detector.
#[derive(Clone, Copy, Debug, Default, PartialEq, Eq)]
pub struct DefaultCycleDetector;

impl DefaultCycleDetector {
    /// Creates a detector.
    pub fn new() -> (r: Self)
        ensures r == DefaultCycleDetector,
    {
        DefaultCycleDetector
    }

    /// The recovery cycles among the active units. Every chain reported is
    /// a cycle of distinct units of the dependency graph, starting at its
    /// smallest identifier; no chain is reported twice; every unit that lies
    /// on a cycle is in some reported chain; and nothing is reported exactly
    /// when the dependency graph has no cycle. The depth-first search
    /// reports the cycles closed by its back edges; a unit on a cycle that
    /// none of them passes through gets a cycle of its own.
    pub fn detect_cycles(&self, graph: &GraphSnapshot) -> (r: Vec<RecoveryCycle>)
        requires
            graph.wf(),
        ensures
            forall|k: int| 0 <= k < r@.len() ==> is_cycle(graph_rel(graph.entries@), (#[trigger] r@[k]).chain@)
                && starts_at_min(r@[k].chain@),
            chains_distinct(r@),
            forall|u: UnitId| on_cycle(graph.entries@, u) ==> covered(r@, u),
            r@.len() == 0 <==> forall|c: Seq<UnitId>| !is_cycle(graph_rel(graph.entries@), c),
    {
        let adj = build_adjacency(graph, None);
        let found = search_all(&adj);
        let mut out: Vec<RecoveryCycle> = Vec::new();
        let mut i: usize = 0;
        while i < found.len()
            invariant
                i <= found@.len(),
                forall|c: int| 0 <= c < found@.len() ==> is_cycle(adj_rel(adj@), (#[trigger] found@[c])@),
                forall|a: UnitId, b: UnitId| adj_edge(adj@, a, b) <==> dep_edge(graph.entries@, a, b),
                forall|k: int| 0 <= k < out@.len() ==> is_cycle(graph_rel(graph.entries@), (#[trigger] out@[k]).chain@)
                    && starts_at_min(out@[k].chain@),
                chains_distinct(out@),
                i > 0 ==> out@.len() > 0,
            decreases found@.len() - i,
        {
            let mut copy: Vec<UnitId> = Vec::new();
            let mut q: usize = 0;
            while q < found[i].len()
                invariant
                    i < found@.len(),
                    q <= found@[i as int]@.len(),
                    copy@ == found@[i as int]@.subrange(0, q as int),
                decreases found@[i as int]@.len() - q,
            {
                copy.push(found[i][q]);
                q = q + 1;
                proof {
                    assert(copy@ =~= found@[i as int]@.subrange(0, q as int));
                }
            }
            assert(copy@ =~= found@[i as int]@);
            let c = normalize_cycle(copy);
            proof {
                let m = choose|m: int| first_min_at(found@[i as int]@, m) && c.chain@ == rotate(found@[i as int]@, m);
                lemma_cycle_rel(adj_rel(adj@), graph_rel(graph.entries@), found@[i as int]@);
                lemma_rotate_cycle(graph_rel(graph.entries@), found@[i as int]@, m);
            }
            if !has_chain(&out, &c.chain) {
                let ghost before = out@;
                out.push(c);
                proof {
                    assert forall|k: int| 0 <= k < out@.len() implies is_cycle(graph_rel(graph.entries@), (#[trigger] out@[k]).chain@)
                        && starts_at_min(out@[k].chain@) by {
                        if k < before.len() {
                            assert(out@[k] == before[k]);
                        }
                    }
                    assert forall|a: int, b: int| 0 <= a < b < out@.len() implies (#[trigger] out@[a]).chain@ != (#[trigger] out@[b]).chain@ by {
                        if b < before.len() {
                            assert(out@[a] == before[a] && out@[b] == before[b]);
                        } else {
                            assert(out@[a] == before[a]);
                        }
                    }
                }
            }
            i = i + 1;
        }
        let ghost rel = graph_rel(graph.entries@);
        let mut k: usize = 0;
        while k < adj.len()
            invariant
                k <= adj@.len(),
                graph.wf(),
                rel == graph_rel(graph.entries@),
                forall|a: UnitId, b: UnitId| adj_edge(adj@, a, b) <==> dep_edge(graph.entries@, a, b),
                forall|j: int| 0 <= j < out@.len() ==> is_cycle(rel, (#[trigger] out@[j]).chain@)
                    && starts_at_min(out@[j].chain@),
                chains_distinct(out@),
                found@.len() > 0 ==> out@.len() > 0,
                forall|q: int| 0 <= q < k && on_cycle(graph.entries@, (#[trigger] adj@[q]).0) ==> covered(out@, adj@[q].0),
            decreases adj@.len() - k,
        {
            let id = adj[k].0;
            if !covers(&out, id) {
                match self.cycle_through(graph, id) {
                    Some(c) => {
                        let ghost before = out@;
                        out.push(c);
                        proof {
                            assert forall|j: int| 0 <= j < out@.len() implies is_cycle(rel, (#[trigger] out@[j]).chain@)
                                && starts_at_min(out@[j].chain@) by {
                                if j < before.len() {
                                    assert(out@[j] == before[j]);
                                }
                            }
                            assert forall|a: int, b: int| 0 <= a < b < out@.len() implies (#[trigger] out@[a]).chain@ != (#[trigger] out@[b]).chain@ by {
                                assert(out@[a] == before[a]);
                                if b < before.len() {
                                    assert(out@[b] == before[b]);
                                } else {
                                    assert(out@[b].chain@.contains(id));
                                    assert(!before[a].chain@.contains(id));
                                }
                            }
                            assert(out@[before.len() as int].chain@.contains(id));
                            lemma_covered_grow(before, out@);
                        }
                    },
                    None => {},
                }
            }
            k = k + 1;
        }
        proof {
            assert forall|u: UnitId| on_cycle(graph.entries@, u) implies covered(out@, u) by {
                let q = lemma_on_cycle_key(graph.entries@, adj@, u);
                assert(on_cycle(graph.entries@, adj@[q].0));
            }
            if out@.len() == 0 {
                assert forall|c: Seq<UnitId>| !is_cycle(graph_rel(graph.entries@), c) by {
                    if is_cycle(graph_rel(graph.entries@), c) {
                        lemma_cycle_rel(graph_rel(graph.entries@), adj_rel(adj@), c);
                    }
                }
            } else {
                assert(is_cycle(graph_rel(graph.entries@), out@[0].chain@));
            }
        }
        out
    }
}

/// Some chain of `cs` passes through `u`.
pub open spec fn covered(cs: Seq<RecoveryCycle>, u: UnitId) -> bool {
    exists|k: int| 0 <= k < cs.len() && (#[trigger] cs[k]).chain@.contains(u)
}

/// No chain of `cs` occurs twice.
pub open spec fn chains_distinct(cs: Seq<RecoveryCycle>) -> bool {
    forall|a: int, b: int| 0 <= a < b < cs.len() ==> (#[trigger] cs[a]).chain@ != (#[trigger] cs[b]).chain@
}

/// A unit stays covered when chains are added.
proof fn lemma_covered_grow(before: Seq<RecoveryCycle>, after: Seq<RecoveryCycle>)
    requires
        before.len() <= after.len(),
        forall|j: int| 0 <= j < before.len() ==> after[j] == before[j],
    ensures
        forall|u: UnitId| covered(before, u) ==> covered(after, u),
{
    assert forall|u: UnitId| covered(before, u) implies covered(after, u) by {
        let j = choose|j: int| 0 <= j < before.len() && (#[trigger] before[j]).chain@.contains(u);
        assert(after[j] == before[j]);
    }
}

/// A unit on a cycle is a key of the adjacency lists.
proof fn lemma_on_cycle_key(entries: Seq<GraphEntry>, adj: Seq<(UnitId, Vec<UnitId>)>, u: UnitId) -> (q: int)
    requires
        on_cycle(entries, u),
        forall|a: UnitId, b: UnitId| adj_edge(adj, a, b) <==> dep_edge(entries, a, b),
    ensures
        0 <= q < adj.len() && adj[q].0 == u,
{
    let c = choose|c: Seq<UnitId>| #[trigger] is_cycle(graph_rel(entries), c) && c.contains(u);
    let m = choose|m: int| 0 <= m < c.len() && c[m] == u;
    let n = c.len() as int;
    let next = if m < n - 1 { m + 1 } else { 0 };
    if m < n - 1 {
        assert(graph_rel(entries)(c[m], c[m + 1]));
    } else {
        assert(graph_rel(entries)(c[n - 1], c[0]));
    }
    assert(adj_edge(adj, u, c[next]));
    choose|q: int| 0 <= q < adj.len() && (#[trigger] adj[q]).0 == u && adj[q].1@.contains(c[next])
}

/// Whether `a` and `b` hold the same identifiers in the same order.
fn same_ids(a: &Vec<UnitId>, b: &Vec<UnitId>) -> (r: bool)
    ensures r == (a@ == b@),
{
    if a.len() != b.len() {
        return false;
    }
    let mut i: usize = 0;
    while i < a.len()
        invariant
            i <= a@.len(),
            a@.len() == b@.len(),
            forall|j: int| 0 <= j < i ==> a@[j] == b@[j],
        decreases a@.len() - i,
    {
        if a[i].0 != b[i].0 {
            return false;
        }
        i = i + 1;
    }
    assert(a@ =~= b@);
    true
}

/// Whether `c` is already one of the chains of `cs`.
fn has_chain(cs: &Vec<RecoveryCycle>, c: &Vec<UnitId>) -> (r: bool)
    ensures r == exists|k: int| 0 <= k < cs@.len() && (#[trigger] cs@[k]).chain@ == c@,
{
    let mut i: usize = 0;
    while i < cs.len()
        invariant
            i <= cs@.len(),
            forall|j: int| 0 <= j < i ==> (#[trigger] cs@[j]).chain@ != c@,
        decreases cs@.len() - i,
    {
        if same_ids(&cs[i].chain, c) {
            return true;
        }
        i = i + 1;
    }
    false
}

/// Whether some chain of `cs` passes through `u`.
fn covers(cs: &Vec<RecoveryCycle>, u: UnitId) -> (r: bool)
    ensures r == covered(cs@, u),
{
    let mut i: usize = 0;
    while i < cs.len()
        invariant
            i <= cs@.len(),
            forall|j: int| 0 <= j < i ==> !(#[trigger] cs@[j]).chain@.contains(u),
        decreases cs@.len() - i,
    {
        if contains_id(&cs[i].chain, u) {
            return true;
        }
        i = i + 1;
    }
    false
}

impl DefaultCycleDetector {
    /// Whether adding `new_unit` would close a recovery cycle through it:
    /// the first such cycle found, normalized, or `Ok` when the search
    /// finds none. Into a graph without cycles, a unit that closes one is
    /// always refused.
    pub fn would_cycle(&self, graph: &GraphSnapshot, new_unit: &Unit) -> (r: Result<(), RecoveryCycle>)
        requires
            graph.wf(),
        ensures
            r matches Err(c) ==> is_cycle(graph_rel_with(graph.entries@, *new_unit), c.chain@)
                && starts_at_min(c.chain@) && c.chain@.contains(new_unit.header_spec().id),
            (forall|c: Seq<UnitId>| !is_cycle(graph_rel(graph.entries@), c))
                && (exists|c: Seq<UnitId>| is_cycle(graph_rel_with(graph.entries@, *new_unit), c)) ==> r is Err,
    {
        let adj = build_adjacency(graph, Some(new_unit));
        let found = search_all(&adj);
        let nid = new_unit.id();
        let mut i: usize = 0;
        while i < found.len()
            invariant
                i <= found@.len(),
                nid == new_unit.header_spec().id,
                forall|c: int| 0 <= c < found@.len() ==> is_cycle(adj_rel(adj@), (#[trigger] found@[c])@),
                forall|a: UnitId, b: UnitId| adj_edge(adj@, a, b) <==> dep_edge_with(graph.entries@, *new_unit, a, b),
                forall|q: int| 0 <= q < i ==> !(#[trigger] found@[q])@.contains(nid),
            decreases found@.len() - i,
        {
            if contains_id(&found[i], nid) {
                let mut copy: Vec<UnitId> = Vec::new();
                let mut q: usize = 0;
                while q < found[i].len()
                    invariant
                        i < found@.len(),
                        q <= found@[i as int]@.len(),
                        copy@ == found@[i as int]@.subrange(0, q as int),
                    decreases found@[i as int]@.len() - q,
                {
                    copy.push(found[i][q]);
                    q = q + 1;
                    proof {
                        assert(copy@ =~= found@[i as int]@.subrange(0, q as int));
                    }
                }
                assert(copy@ =~= found@[i as int]@);
                let c = normalize_cycle(copy);
                proof {
                    let m = choose|m: int| first_min_at(found@[i as int]@, m) && c.chain@ == rotate(found@[i as int]@, m);
                    lemma_cycle_rel(adj_rel(adj@), graph_rel_with(graph.entries@, *new_unit), found@[i as int]@);
                    lemma_rotate_cycle(graph_rel_with(graph.entries@, *new_unit), found@[i as int]@, m);
                }
                return Err(c);
            }
            i = i + 1;
        }
        proof {
            let rel = graph_rel_with(graph.entries@, *new_unit);
            if (forall|c: Seq<UnitId>| !is_cycle(graph_rel(graph.entries@), c)) && (exists|c: Seq<UnitId>| is_cycle(rel, c)) {
                let c = choose|c: Seq<UnitId>| is_cycle(rel, c);
                lemma_cycle_rel(rel, adj_rel(adj@), c);
                assert(found@.len() > 0);
                lemma_cycle_rel(adj_rel(adj@), rel, found@[0]@);
                lemma_cycle_without_new(graph.entries@, *new_unit, found@[0]@);
            }
        }
        Ok(())
    }
}

/// A cycle once a unit is added that does not pass through it is a cycle of
/// the graph.
proof fn lemma_cycle_without_new(entries: Seq<GraphEntry>, new_unit: Unit, c: Seq<UnitId>)
    requires
        is_cycle(graph_rel_with(entries, new_unit), c),
        !c.contains(new_unit.header_spec().id),
    ensures
        is_cycle(graph_rel(entries), c),
{
    let nid = new_unit.header_spec().id;
    assert forall|i: int| 0 <= i < c.len() - 1 implies #[trigger] graph_rel(entries)(c[i], c[i + 1]) by {
        assert(graph_rel_with(entries, new_unit)(c[i], c[i + 1]));
        assert(c[i] != nid) by {
            if c[i] == nid {
                assert(c.contains(nid));
            }
        }
    }
    assert(graph_rel(entries)(c[c.len() - 1], c[0])) by {
        assert(c[c.len() - 1] != nid) by {
            if c[c.len() - 1] == nid {
                assert(c.contains(nid));
            }
        }
    }
}

/// Unit `u` lies on a recovery cycle of the graph.
pub open spec fn on_cycle(entries: Seq<GraphEntry>, u: UnitId) -> bool {
    exists|c: Seq<UnitId>| #[trigger] is_cycle(graph_rel(entries), c) && c.contains(u)
}

impl DefaultCycleDetector {
    /// A recovery cycle through `u`, rotated to start at its smallest
    /// identifier, when `u` lies on one; `None` exactly when it lies on none.
    pub fn cycle_through(&self, graph: &GraphSnapshot, u: UnitId) -> (r: Option<RecoveryCycle>)
        requires
            graph.wf(),
        ensures
            match r {
                Some(c) => is_cycle(graph_rel(graph.entries@), c.chain@) && starts_at_min(c.chain@) && c.chain@.contains(u),
                None => !on_cycle(graph.entries@, u),
            },
    {
        let adj = build_adjacency(graph, None);
        let ghost rel = graph_rel(graph.entries@);
        proof {
            assert forall|a: UnitId, b: UnitId| #[trigger] adj_rel(adj@)(a, b) <==> #[trigger] rel(a, b) by {}
        }
        let mut k: usize = 0;
        let mut at: Option<usize> = None;
        while k < adj.len()
            invariant
                k <= adj@.len(),
                at matches Some(x) ==> x < adj@.len() && adj@[x as int].0 == u,
                at is None ==> forall|q: int| 0 <= q < k ==> (#[trigger] adj@[q]).0 != u,
            decreases adj@.len() - k,
        {
            if adj[k].0.0 == u.0 {
                at = Some(k);
            }
            k = k + 1;
        }
        let root = match at {
            Some(x) => x,
            None => {
                proof {
                    if on_cycle(graph.entries@, u) {
                        let c = choose|c: Seq<UnitId>| #[trigger] is_cycle(rel, c) && c.contains(u);
                        lemma_cycle_rel(rel, adj_rel(adj@), c);
                        let m = choose|m: int| 0 <= m < c.len() && c[m] == u;
                        let n = c.len() as int;
                        let next = if m < n - 1 { m + 1 } else { 0 };
                        if m < n - 1 {
                            assert(adj_rel(adj@)(c[m], c[m + 1]));
                        } else {
                            assert(adj_rel(adj@)(c[n - 1], c[0]));
                        }
                        assert(adj_edge(adj@, u, c[next]));
                        let q = choose|q: int| 0 <= q < adj@.len() && (#[trigger] adj@[q]).0 == u && adj@[q].1@.contains(c[next]);
                        assert(adj@[q].0 != u);
                    }
                }
                return None;
            },
        };
        let n = adj.len();
        let mut visited: Vec<bool> = Vec::new();
        let mut on_path: Vec<bool> = Vec::new();
        let mut i: usize = 0;
        while i < n
            invariant
                i <= n,
                n == adj@.len(),
                visited@.len() == i,
                on_path@.len() == i,
                forall|q: int| 0 <= q < i ==> !(#[trigger] on_path@[q]),
                forall|q: int| 0 <= q < i ==> !(#[trigger] visited@[q]),
            decreases n - i,
        {
            visited.push(false);
            on_path.push(false);
            i = i + 1;
        }
        let st = DfsState {
            visited,
            on_path,
            path: Vec::new(),
            found: Vec::new(),
            finish: Ghost(Seq::new(n as nat, |q: int| 0int)),
            clock: Ghost(0int),
        };
        let st = dfs(root, &adj, st, Ghost(root as int));
        let mut f: usize = 0;
        while f < st.found.len()
            invariant
                f <= st.found@.len(),
                forall|q: int| 0 <= q < f ==> !(#[trigger] st.found@[q])@.contains(u),
                state_ok(adj@, st),
                adj_wf(adj@),
                forall|a: UnitId, b: UnitId| #[trigger] adj_rel(adj@)(a, b) <==> #[trigger] rel(a, b),
                rel == graph_rel(graph.entries@),
            decreases st.found@.len() - f,
        {
            if contains_id(&st.found[f], u) {
                let mut copy: Vec<UnitId> = Vec::new();
                let mut q: usize = 0;
                while q < st.found[f].len()
                    invariant
                        f < st.found@.len(),
                        q <= st.found@[f as int]@.len(),
                        copy@ == st.found@[f as int]@.subrange(0, q as int),
                    decreases st.found@[f as int]@.len() - q,
                {
                    copy.push(st.found[f][q]);
                    q = q + 1;
                    proof {
                        assert(copy@ =~= st.found@[f as int]@.subrange(0, q as int));
                    }
                }
                assert(copy@ =~= st.found@[f as int]@);
                let c = normalize_cycle(copy);
                proof {
                    let m = choose|m: int| first_min_at(st.found@[f as int]@, m) && c.chain@ == rotate(st.found@[f as int]@, m);
                    lemma_cycle_rel(adj_rel(adj@), rel, st.found@[f as int]@);
                    lemma_rotate_cycle(rel, st.found@[f as int]@, m);
                }
                return Some(c);
            }
            f = f + 1;
        }
        proof {
            assert forall|x: int| 0 <= x < adj@.len() implies !(#[trigger] st.on_path@[x]) by {
                assert(st.on_path@[(x as usize) as int] <==> st.path@.contains(x as usize));
            }
            if on_cycle(graph.entries@, u) {
                let c = choose|c: Seq<UnitId>| #[trigger] is_cycle(rel, c) && c.contains(u);
                lemma_cycle_rel(rel, adj_rel(adj@), c);
                let m = choose|m: int| 0 <= m < c.len() && c[m] == u;
                let len = c.len() as int;
                let r0 = root as int;
                assert(adj@[key_at(adj@, u)].0 == u);
                if key_at(adj@, u) != r0 {
                    if key_at(adj@, u) < r0 {
                        assert(adj@[key_at(adj@, u)].0.0 < adj@[r0].0.0);
                    } else {
                        assert(adj@[r0].0.0 < adj@[key_at(adj@, u)].0.0);
                    }
                }
                lemma_cycle_visited(adj@, st, c, m, len - 1);
                let p = round(len, m, len - 1);
                if p < len - 1 {
                    assert(p + 1 == m);
                    assert(adj_rel(adj@)(c[p], c[p + 1]));
                } else {
                    assert(m == 0);
                    assert(adj_rel(adj@)(c[len - 1], c[0]));
                }
                lemma_edge_keys(adj@, c[p], u);
                assert(done(st, key_at(adj@, c[p])));
                assert(key_edge(adj@, key_at(adj@, c[p]), r0));
                assert(found_has(st, adj@[r0].0));
                let q = choose|q: int| 0 <= q < st.found@.len() && (#[trigger] st.found@[q])@.contains(adj@[r0].0);
                assert(!st.found@[q]@.contains(u));
            }
        }
        None
    }
}

/// Detects circular recovery dependencies among units.
pub trait CycleDetector {
    /// All recovery cycles of the graph: each a cycle of distinct units
    /// starting at its smallest identifier, none twice, every unit that
    /// lies on a cycle in one of them, and none exactly when there is no
    /// cycle.
    fn detect_cycles(&self, graph: &GraphSnapshot) -> (r: Vec<RecoveryCycle>)
        requires
            graph.wf(),
        ensures
            forall|k: int| 0 <= k < r@.len() ==> is_cycle(graph_rel(graph.entries@), (#[trigger] r@[k]).chain@)
                && starts_at_min(r@[k].chain@),
            chains_distinct(r@),
            forall|u: UnitId| on_cycle(graph.entries@, u) ==> covered(r@, u),
            r@.len() == 0 <==> forall|c: Seq<UnitId>| !is_cycle(graph_rel(graph.entries@), c);

    /// Whether adding `new_unit` would close a recovery cycle: the cycle
    /// through it when refused; into a graph without cycles, a unit that
    /// closes one is always refused.
    fn would_cycle(&self, graph: &GraphSnapshot, new_unit: &Unit) -> (r: Result<(), RecoveryCycle>)
        requires
            graph.wf(),
        ensures
            r matches Err(c) ==> is_cycle(graph_rel_with(graph.entries@, *new_unit), c.chain@)
                && starts_at_min(c.chain@) && c.chain@.contains(new_unit.header_spec().id),
            (forall|c: Seq<UnitId>| !is_cycle(graph_rel(graph.entries@), c))
                && (exists|c: Seq<UnitId>| is_cycle(graph_rel_with(graph.entries@, *new_unit), c)) ==> r is Err;
}

impl CycleDetector for DefaultCycleDetector {
    fn detect_cycles(&self, graph: &GraphSnapshot) -> (r: Vec<RecoveryCycle>) {
        DefaultCycleDetector::detect_cycles(self, graph)
    }

    fn would_cycle(&self, graph: &GraphSnapshot, new_unit: &Unit) -> (r: Result<(), RecoveryCycle>) {
        DefaultCycleDetector::would_cycle(self, graph, new_unit)
    }
}

/// A cycle of one relation is a cycle of an equivalent one.
proof fn lemma_cycle_rel(r1: spec_fn(UnitId, UnitId) -> bool, r2: spec_fn(UnitId, UnitId) -> bool, c: Seq<UnitId>)
    requires
        is_cycle(r1, c),
        forall|a: UnitId, b: UnitId| #[trigger] r1(a, b) <==> #[trigger] r2(a, b),
    ensures
        is_cycle(r2, c),
{
    assert forall|i: int| 0 <= i < c.len() - 1 implies #[trigger] r2(c[i], c[i + 1]) by {
        assert(r1(c[i], c[i + 1]));
    }
}

} // verus!
