//! Resource ranking: soft constraints for best-fit placement.
//!
//! Eligible nodes are ranked by a fixed-point score of their available
//! memory, idle CPU and available GPUs; nodes without a resource snapshot
//! score zero. Ties are broken by node identifier.

use vstd::prelude::*;
use crate::common::{NodeId, Ppm, PPM_ONE};
use crate::model::{ResourceSnapshot, Unit};
use crate::order::{sort_le, sorted_le};

verus! {

/// One gibibyte.
pub const GIB: u64 = 1_073_741_824;

/// Memory factor: 50,000 per whole GiB available, at most 1,000,000; zero
/// when nothing is available.
pub open spec fn memory_score_spec(rs: ResourceSnapshot) -> u64 {
    if rs.memory_available_bytes == 0 {
        0
    } else if (rs.memory_available_bytes / GIB) * 50_000 >= 1_000_000 {
        1_000_000
    } else {
        ((rs.memory_available_bytes / GIB) * 50_000) as u64
    }
}

/// CPU factor: 1,000,000 minus the load, floored at zero.
pub open spec fn cpu_score_spec(rs: ResourceSnapshot) -> u64 {
    if rs.cpu_load_ppm.0 >= PPM_ONE { 0 } else { (PPM_ONE - rs.cpu_load_ppm.0) as u64 }
}

/// GPU factor: 100,000 per available GPU.
pub open spec fn gpu_score_spec(rs: ResourceSnapshot) -> u64 {
    (rs.gpu_available * 100_000) as u64
}

/// The resource score of a snapshot: the sum of the three factors.
pub open spec fn total_score_spec(rs: ResourceSnapshot) -> u64 {
    (memory_score_spec(rs) + cpu_score_spec(rs) + gpu_score_spec(rs)) as u64
}

/// `i` is the first snapshot of node `id`.
pub open spec fn first_resource_at(resources: Seq<(NodeId, ResourceSnapshot)>, id: NodeId, i: int) -> bool {
    &&& 0 <= i < resources.len()
    &&& resources[i].0 == id
    &&& forall|j: int| 0 <= j < i ==> (#[trigger] resources[j]).0 != id
}

/// The resource score of node `id`: that of its first snapshot, or zero.
pub open spec fn node_resource_score(resources: Seq<(NodeId, ResourceSnapshot)>, id: NodeId) -> u64 {
    if exists|i: int| first_resource_at(resources, id, i) {
        total_score_spec(resources[choose|i: int| first_resource_at(resources, id, i)].1)
    } else {
        0
    }
}

/// Default, stateless resource ranker.
#[derive(Clone, Copy, Debug, Default, PartialEq, Eq)]
pub struct DefaultResourceRanker;

impl DefaultResourceRanker {
    /// Creates a ranker.
    pub fn new() -> (r: Self)
        ensures r == DefaultResourceRanker,
    {
        DefaultResourceRanker
    }

    /// Memory factor of a snapshot.
    pub fn memory_score(rs: &ResourceSnapshot) -> (r: Ppm)
        ensures r == Ppm(memory_score_spec(*rs)),
    {
        if rs.memory_available_bytes == 0 {
            return Ppm(0);
        }
        let gib_count: u64 = rs.memory_available_bytes / GIB;
        assert(gib_count <= 17_179_869_184) by (nonlinear_arith)
            requires gib_count == rs.memory_available_bytes / GIB;
        let score: u64 = gib_count * 50_000;
        if score >= 1_000_000 { Ppm(1_000_000) } else { Ppm(score) }
    }

    /// CPU factor of a snapshot.
    pub fn cpu_score(rs: &ResourceSnapshot) -> (r: Ppm)
        ensures r == Ppm(cpu_score_spec(*rs)),
    {
        Ppm(PPM_ONE).saturating_sub(rs.cpu_load_ppm)
    }

    /// GPU factor of a snapshot.
    pub fn gpu_score(rs: &ResourceSnapshot) -> (r: Ppm)
        ensures r == Ppm(gpu_score_spec(*rs)),
    {
        Ppm((rs.gpu_available as u64) * 100_000)
    }

    /// Resource score of a snapshot.
    pub fn total_score(rs: &ResourceSnapshot) -> (r: Ppm)
        ensures r == Ppm(total_score_spec(*rs)),
    {
        Self::memory_score(rs).saturating_add(Self::cpu_score(rs)).saturating_add(Self::gpu_score(rs))
    }

    /// The resource score of node `id`.
    pub fn node_score(id: NodeId, resources: &Vec<(NodeId, ResourceSnapshot)>) -> (r: Ppm)
        ensures r == Ppm(node_resource_score(resources@, id)),
    {
        let mut i: usize = 0;
        while i < resources.len()
            invariant
                i <= resources@.len(),
                forall|j: int| 0 <= j < i ==> (#[trigger] resources@[j]).0 != id,
            decreases resources@.len() - i,
        {
            if resources[i].0.0 == id.0 {
                proof {
                    assert(first_resource_at(resources@, id, i as int));
                    let c = choose|c: int| first_resource_at(resources@, id, c);
                    if c < i {
                        assert(resources@[c].0 != id);
                    }
                    if c > i {
                        assert(resources@[i as int].0 != id);
                    }
                    assert(c == i as int);
                }
                return Self::total_score(&resources[i].1);
            }
            i = i + 1;
        }
        proof {
            if exists|c: int| first_resource_at(resources@, id, c) {
                let c = choose|c: int| first_resource_at(resources@, id, c);
                assert(resources@[c].0 != id);
            }
        }
        Ppm(0)
    }

    /// Ranks the distinct eligible nodes by resource score descending, then
    /// node identifier ascending.
    pub fn rank(&self, unit: &Unit, eligible_nodes: &Vec<NodeId>, resources: &Vec<(NodeId, ResourceSnapshot)>) -> (r: Vec<(NodeId, Ppm)>)
        ensures
            sorted_le(r@),
            forall|i: int, j: int| 0 <= i < j < r@.len() ==> (#[trigger] r@[i]).0 != (#[trigger] r@[j]).0,
            forall|k: int| 0 <= k < r@.len() ==> eligible_nodes@.contains((#[trigger] r@[k]).0)
                && r@[k].1 == Ppm(node_resource_score(resources@, r@[k].0)),
            forall|n: NodeId| eligible_nodes@.contains(n) ==> exists|k: int| 0 <= k < r@.len() && (#[trigger] r@[k]).0 == n,
    {
        let mut scored: Vec<(NodeId, Ppm)> = Vec::new();
        let mut i: usize = 0;
        while i < eligible_nodes.len()
            invariant
                i <= eligible_nodes@.len(),
                forall|a: int, b: int| 0 <= a < b < scored@.len() ==> (#[trigger] scored@[a]).0 != (#[trigger] scored@[b]).0,
                forall|k: int| 0 <= k < scored@.len() ==> eligible_nodes@.contains((#[trigger] scored@[k]).0)
                    && scored@[k].1 == Ppm(node_resource_score(resources@, scored@[k].0)),
                forall|j: int| #![trigger eligible_nodes@[j]] 0 <= j < i ==> exists|k: int| 0 <= k < scored@.len() && (#[trigger] scored@[k]).0 == eligible_nodes@[j],
            decreases eligible_nodes@.len() - i,
        {
            let id = eligible_nodes[i];
            let mut seen = false;
            let mut k: usize = 0;
            while k < scored.len()
                invariant
                    k <= scored@.len(),
                    seen == exists|q: int| 0 <= q < k && (#[trigger] scored@[q]).0 == id,
                decreases scored@.len() - k,
            {
                if scored[k].0.0 == id.0 {
                    seen = true;
                }
                k = k + 1;
            }
            if !seen {
                let s = Self::node_score(id, resources);
                proof {
                    assert(eligible_nodes@.contains(id)) by {
                        assert(eligible_nodes@[i as int] == id);
                    }
                }
                let ghost before = scored@;
                scored.push((id, s));
                proof {
                    assert forall|j: int| 0 <= j <= i implies exists|q: int| 0 <= q < scored@.len() && (#[trigger] scored@[q]).0 == #[trigger] eligible_nodes@[j] by {
                        if j < i {
                            let q = choose|q: int| 0 <= q < before.len() && (#[trigger] before[q]).0 == eligible_nodes@[j];
                            assert(scored@[q] == before[q]);
                        } else {
                            assert(scored@[before.len() as int].0 == eligible_nodes@[j]);
                        }
                    }
                }
            }
            i = i + 1;
        }
        let ghost unsorted = scored@;
        let r = sort_le(scored);
        proof {
            broadcast use vstd::seq_lib::group_to_multiset_ensures;
            assert forall|k: int| 0 <= k < r@.len() implies eligible_nodes@.contains((#[trigger] r@[k]).0)
                && r@[k].1 == Ppm(node_resource_score(resources@, r@[k].0)) by {
                assert(r@.contains(r@[k]));
                assert(r@.to_multiset().count(r@[k]) > 0);
                assert(unsorted.to_multiset().count(r@[k]) > 0);
                assert(unsorted.contains(r@[k]));
            }
            assert forall|n: NodeId| eligible_nodes@.contains(n) implies exists|k: int| 0 <= k < r@.len() && (#[trigger] r@[k]).0 == n by {
                let j = choose|j: int| 0 <= j < eligible_nodes@.len() && eligible_nodes@[j] == n;
                let q = choose|q: int| 0 <= q < unsorted.len() && (#[trigger] unsorted[q]).0 == eligible_nodes@[j];
                assert(unsorted.to_multiset().count(unsorted[q]) > 0);
                assert(r@.to_multiset().count(unsorted[q]) > 0);
                assert(r@.contains(unsorted[q]));
            }
            assert forall|a: int, b: int| 0 <= a < b < r@.len() implies (#[trigger] r@[a]).0 != (#[trigger] r@[b]).0 by {
                if r@[a].0 == r@[b].0 {
                    assert(r@[a].1 == r@[b].1);
                    assert(r@[a] == r@[b]);
                    lemma_count_two(r@, a, b);
                    lemma_distinct_count_one(unsorted, r@[a]);
                }
            }
        }
        r
    }
}

/// A value at two positions of a sequence occurs at least twice in it.
proof fn lemma_count_two(s: Seq<(NodeId, Ppm)>, a: int, b: int)
    requires
        0 <= a < b < s.len(),
        s[a] == s[b],
    ensures
        s.to_multiset().count(s[a]) >= 2,
    decreases s.len(),
{
    broadcast use vstd::seq_lib::group_to_multiset_ensures;
    let last = s.len() - 1;
    let d = s.drop_last();
    assert(s =~= d.push(s[last]));
    if b < last {
        lemma_count_two(d, a, b);
        assert(d[a] == s[a]);
    } else {
        assert(d[a] == s[a]);
        assert(d.contains(s[a]));
    }
}

/// In a sequence whose identifiers are distinct, every value occurs at most
/// once.
proof fn lemma_distinct_count_one(s: Seq<(NodeId, Ppm)>, x: (NodeId, Ppm))
    requires
        forall|a: int, b: int| 0 <= a < b < s.len() ==> (#[trigger] s[a]).0 != (#[trigger] s[b]).0,
    ensures
        s.to_multiset().count(x) <= 1,
    decreases s.len(),
{
    broadcast use vstd::seq_lib::group_to_multiset_ensures;
    if s.len() > 0 {
        let last = s.len() - 1;
        let d = s.drop_last();
        assert(s =~= d.push(s[last]));
        assert forall|a: int, b: int| 0 <= a < b < d.len() implies (#[trigger] d[a]).0 != (#[trigger] d[b]).0 by {
            assert(d[a] == s[a] && d[b] == s[b]);
        }
        lemma_distinct_count_one(d, x);
        if x == s[last] {
            assert(!d.contains(x)) by {
                if d.contains(x) {
                    let a = choose|a: int| 0 <= a < d.len() && d[a] == x;
                    assert(s[a] == d[a]);
                }
            }
        }
    }
}

} // verus!
