//! Membership snapshot: the nodes available for placement, with their
//! capabilities and health.

use vstd::prelude::*;
use crate::common::NodeId;
use crate::model::NodeCapabilitySet;
use crate::order::{Ordered, sort_le, sorted_le};
use vstd::multiset::Multiset;
use vstd::seq_lib::{to_multiset_build, to_multiset_insert};

verus! {

/// Health of a node as observed by the membership protocol.
#[derive(Clone, Copy, Debug, PartialEq, Eq, Structural, Hash)]
pub enum NodeHealth {
    /// Healthy and serving.
    Active,
    /// Suspected unhealthy: penalized but not removed.
    Suspected,
}

impl Ordered for (NodeId, NodeCapabilitySet, NodeHealth) {
    open spec fn le_spec(self, other: Self) -> bool {
        self.0.0 <= other.0.0
    }

    proof fn lemma_le_total(a: Self, b: Self) {
    }

    proof fn lemma_le_trans(a: Self, b: Self, c: Self) {
    }

    fn le(&self, other: &Self) -> (r: bool) {
        self.0.0 <= other.0.0
    }
}

/// Immutable point-in-time view of cluster membership.
#[derive(Clone, Debug, PartialEq, Eq)]
pub struct MembershipSnapshot {
    /// Nodes, sorted by identifier.
    pub nodes: Vec<(NodeId, NodeCapabilitySet, NodeHealth)>,
    /// Generation counter, incremented on every membership change.
    pub generation: u64,
}

/// Index of the first node with identifier `id`.
pub open spec fn first_node(nodes: Seq<(NodeId, NodeCapabilitySet, NodeHealth)>, id: NodeId) -> Option<int>
    decreases nodes.len(),
{
    if nodes.len() == 0 {
        None
    } else {
        match first_node(nodes.drop_last(), id) {
            Some(i) => Some(i),
            None => if nodes.last().0 == id { Some(nodes.len() - 1) } else { None },
        }
    }
}

pub proof fn lemma_first_node(nodes: Seq<(NodeId, NodeCapabilitySet, NodeHealth)>, id: NodeId)
    ensures
        first_node(nodes, id) matches Some(i) ==> 0 <= i < nodes.len() && nodes[i].0 == id
            && forall|j: int| 0 <= j < i ==> nodes[j].0 != id,
        first_node(nodes, id) is None ==> forall|j: int| 0 <= j < nodes.len() ==> nodes[j].0 != id,
    decreases nodes.len(),
{
    if nodes.len() > 0 {
        let d = nodes.drop_last();
        lemma_first_node(d, id);
        assert forall|j: int| 0 <= j < d.len() implies d[j] == nodes[j] by {}
    }
}

/// Holds of the nodes whose identifier is not `id`.
pub open spec fn other_than(id: NodeId) -> spec_fn((NodeId, NodeCapabilitySet, NodeHealth)) -> bool {
    |n: (NodeId, NodeCapabilitySet, NodeHealth)| n.0 != id
}

impl MembershipSnapshot {
    /// An empty snapshot with the given generation.
    pub fn empty(generation: u64) -> (r: Self)
        ensures r.nodes@.len() == 0, r.generation == generation,
    {
        MembershipSnapshot { nodes: Vec::new(), generation }
    }

    /// A snapshot with the single local node, active, at generation 1.
    pub fn single_node(node_id: NodeId, caps: NodeCapabilitySet) -> (r: Self)
        ensures
            r.nodes@.len() == 1,
            r.nodes@[0].0 == node_id,
            r.nodes@[0].1 == caps,
            r.nodes@[0].2 == NodeHealth::Active,
            r.generation == 1,
    {
        let mut nodes = Vec::new();
        nodes.push((node_id, caps, NodeHealth::Active));
        MembershipSnapshot { nodes, generation: 1 }
    }

    /// Number of nodes.
    pub fn len(&self) -> (r: usize)
        ensures r == self.nodes@.len(),
    {
        self.nodes.len()
    }

    /// Whether there is no node.
    pub fn is_empty(&self) -> (r: bool)
        ensures r == (self.nodes@.len() == 0),
    {
        self.nodes.len() == 0
    }

    /// The first node with the given identifier.
    pub fn get(&self, id: &NodeId) -> (r: Option<&(NodeId, NodeCapabilitySet, NodeHealth)>)
        ensures
            match first_node(self.nodes@, *id) {
                Some(i) => r == Some(&self.nodes@[i]),
                None => r is None,
            },
    {
        let mut i: usize = 0;
        while i < self.nodes.len()
            invariant
                i <= self.nodes@.len(),
                forall|j: int| 0 <= j < i ==> self.nodes@[j].0 != *id,
            decreases self.nodes@.len() - i,
        {
            if self.nodes[i].0.0 == id.0 {
                proof {
                    lemma_first_node(self.nodes@, *id);
                }
                return Some(&self.nodes[i]);
            }
            i = i + 1;
        }
        proof {
            lemma_first_node(self.nodes@, *id);
        }
        None
    }

    /// Whether the node is in the snapshot and active.
    pub fn is_active(&self, id: &NodeId) -> (r: bool)
        ensures r == exists|j: int| 0 <= j < self.nodes@.len() && self.nodes@[j].0 == *id && self.nodes@[j].2 == NodeHealth::Active,
    {
        let mut i: usize = 0;
        while i < self.nodes.len()
            invariant
                i <= self.nodes@.len(),
                forall|j: int| 0 <= j < i ==> !(self.nodes@[j].0 == *id && self.nodes@[j].2 == NodeHealth::Active),
            decreases self.nodes@.len() - i,
        {
            if self.nodes[i].0.0 == id.0 && self.nodes[i].2 == NodeHealth::Active {
                return true;
            }
            i = i + 1;
        }
        false
    }

    /// The node identifiers, in snapshot order.
    pub fn node_ids(&self) -> (r: Vec<NodeId>)
        ensures
            r@.len() == self.nodes@.len(),
            forall|j: int| 0 <= j < r@.len() ==> r@[j] == self.nodes@[j].0,
    {
        let mut out: Vec<NodeId> = Vec::new();
        let mut i: usize = 0;
        while i < self.nodes.len()
            invariant
                i <= self.nodes@.len(),
                out@.len() == i,
                forall|j: int| 0 <= j < i ==> out@[j] == self.nodes@[j].0,
            decreases self.nodes@.len() - i,
        {
            out.push(self.nodes[i].0);
            i = i + 1;
        }
        out
    }

    /// Adds a node, replacing any node with the same identifier, and keeps
    /// the nodes sorted by identifier. The generation is unchanged.
    pub fn add_node(&mut self, node_id: NodeId, caps: NodeCapabilitySet, health: NodeHealth)
        ensures
            final(self).generation == old(self).generation,
            sorted_le(final(self).nodes@),
            final(self).nodes@.to_multiset() == old(self).nodes@.filter(other_than(node_id)).push((node_id, caps, health)).to_multiset(),
    {
        let ghost old_nodes = self.nodes@;
        let mut src: Vec<(NodeId, NodeCapabilitySet, NodeHealth)> = Vec::new();
        std::mem::swap(&mut src, &mut self.nodes);
        let mut kept: Vec<(NodeId, NodeCapabilitySet, NodeHealth)> = Vec::new();
        proof {
            assert(old_nodes.subrange(old_nodes.len() as int, old_nodes.len() as int).filter(other_than(node_id)) =~= Seq::empty());
            assert(kept@.to_multiset() =~= Multiset::empty()) by {
                broadcast use vstd::seq_lib::group_to_multiset_ensures;
            }
            assert(Seq::<(NodeId, NodeCapabilitySet, NodeHealth)>::empty().to_multiset() =~= Multiset::empty()) by {
                broadcast use vstd::seq_lib::group_to_multiset_ensures;
            }
        }
        while src.len() > 0
            invariant
                src@.len() <= old_nodes.len(),
                src@ == old_nodes.subrange(0, src@.len() as int),
                kept@.to_multiset() == old_nodes.subrange(src@.len() as int, old_nodes.len() as int).filter(other_than(node_id)).to_multiset(),
            decreases src@.len(),
        {
            let ghost k = src@.len() - 1;
            let ghost kept_before = kept@;
            let x = src.pop().unwrap();
            proof {
                let tail = old_nodes.subrange(k + 1, old_nodes.len() as int);
                assert(x == old_nodes[k]);
                assert(old_nodes.subrange(k, old_nodes.len() as int) =~= seq![x] + tail);
                tail.lemma_filter_prepend(x, other_than(node_id));
                assert(seq![x] + tail.filter(other_than(node_id)) =~= tail.filter(other_than(node_id)).insert(0, x));
                to_multiset_insert(tail.filter(other_than(node_id)), 0, x);
                to_multiset_build(kept_before, x);
                assert(Seq::<(NodeId, NodeCapabilitySet, NodeHealth)>::empty() + tail.filter(other_than(node_id)) =~= tail.filter(other_than(node_id)));
                assert(src@ =~= old_nodes.subrange(0, k));
            }
            if x.0.0 != node_id.0 {
                kept.push(x);
                proof {
                    assert(other_than(node_id)(x));
                    assert(kept@ == kept_before.push(x));
                }
            } else {
                proof {
                    assert(!other_than(node_id)(x));
                }
            }
        }
        proof {
            assert(old_nodes.subrange(0, old_nodes.len() as int) =~= old_nodes);
            to_multiset_build(kept@, (node_id, caps, health));
            to_multiset_build(old_nodes.filter(other_than(node_id)), (node_id, caps, health));
        }
        kept.push((node_id, caps, health));
        self.nodes = sort_le(kept);
    }
}

} // verus!
