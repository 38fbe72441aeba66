//! Capability filtering: hard constraints for node eligibility.
//!
//! A workload can be placed on a node only if a runtime of the node runs
//! its artifact, every requirement of the artifact is met by the node, and
//! the node's environment admits the unit. Units that are not workloads
//! are not filtered.

use vstd::prelude::*;
use crate::common::NodeId;
use crate::model::{NodeCapabilitySet, PrivilegeLevel, PromotionPolicy, RuntimeCapability, ArtifactType, Unit};
use crate::order::{Ordered, sort_le, sorted_le};
use crate::solver::scorer::{can_host_spec, DefaultPlacementScorer};
use crate::text::str_eq;

verus! {

/// Nodes are ordered by identifier.
impl Ordered for NodeId {
    open spec fn le_spec(self, other: Self) -> bool {
        self.0 <= other.0
    }

    proof fn lemma_le_total(a: Self, b: Self) {
    }

    proof fn lemma_le_trans(a: Self, b: Self, c: Self) {
    }

    fn le(&self, other: &Self) -> (r: bool) {
        self.0 <= other.0
    }
}

/// `"root"`.
pub open spec fn root_text() -> Seq<char> {
    seq!['r', 'o', 'o', 't']
}

/// `"privileged"`.
pub open spec fn privileged_text() -> Seq<char> {
    seq!['p', 'r', 'i', 'v', 'i', 'l', 'e', 'g', 'e', 'd']
}

/// `"env:dev"`.
pub open spec fn dev_env_text() -> Seq<char> {
    seq!['e', 'n', 'v', ':', 'd', 'e', 'v']
}

/// Whether the node meets one requirement: it names the node's
/// architecture or OS; `"root"` and `"privileged"` ask for root privilege
/// or privileged ports; anything else must be the key or value of a tag.
pub open spec fn requirement_met(req: Seq<char>, caps: NodeCapabilitySet) -> bool {
    if req == caps.arch@ || req == caps.os@ {
        true
    } else if req == root_text() || req == privileged_text() {
        caps.privilege == PrivilegeLevel::Root || caps.ports_privileged
    } else {
        exists|t: int| 0 <= t < caps.custom_tags@.len()
            && ((#[trigger] caps.custom_tags@[t]).0@ == req || caps.custom_tags@[t].1@ == req)
    }
}

/// Whether the node meets every requirement.
pub open spec fn requires_met(reqs: Seq<String>, caps: NodeCapabilitySet) -> bool {
    forall|i: int| 0 <= i < reqs.len() ==> requirement_met((#[trigger] reqs[i])@, caps)
}

/// Whether the node's environment admits the unit: no environment admits
/// all; `env:dev` admits the author of the node's affinity, or anyone
/// without one; another environment needs a promotion of the unit to it.
pub open spec fn environment_ok(unit: Unit, caps: NodeCapabilitySet, promotions: Seq<PromotionPolicy>) -> bool {
    match caps.environment {
        None => true,
        Some(env) => if env@ == dev_env_text() {
            match caps.author_affinity {
                Some(a) => unit.header_spec().author == a,
                None => true,
            }
        } else {
            exists|p: int| 0 <= p < promotions.len() && (#[trigger] promotions[p]).unit_ref == unit.header_spec().id
                && promotions[p].target_environment@ == env@
        },
    }
}

/// Whether a workload can be placed on a node.
pub open spec fn eligible_spec(unit: Unit, caps: NodeCapabilitySet, promotions: Seq<PromotionPolicy>) -> bool {
    match unit {
        Unit::Workload(w) => can_host_spec(w.artifact.artifact_type, caps.runtimes@)
            && requires_met(w.artifact.requires@, caps)
            && environment_ok(unit, caps, promotions),
        _ => true,
    }
}

/// The identifiers of the eligible nodes among the first `n`, in input order.
pub open spec fn eligible_prefix(unit: Unit, nodes: Seq<(NodeId, NodeCapabilitySet)>, promotions: Seq<PromotionPolicy>, n: int) -> Seq<NodeId>
    decreases n,
{
    if n <= 0 {
        Seq::empty()
    } else {
        let rest = eligible_prefix(unit, nodes, promotions, n - 1);
        if eligible_spec(unit, nodes[n - 1].1, promotions) { rest.push(nodes[n - 1].0) } else { rest }
    }
}

/// Default, stateless capability filter.
#[derive(Clone, Copy, Debug, Default, PartialEq, Eq)]
pub struct DefaultCapabilityFilter;

impl DefaultCapabilityFilter {
    /// Creates a filter.
    pub fn new() -> (r: Self)
        ensures r == DefaultCapabilityFilter,
    {
        DefaultCapabilityFilter
    }

    /// Whether some runtime of the node runs the artifact type.
    pub fn artifact_runtime_match(artifact_type: ArtifactType, runtimes: &Vec<RuntimeCapability>) -> (r: bool)
        ensures r == can_host_spec(artifact_type, runtimes@),
    {
        DefaultPlacementScorer::can_host(artifact_type, runtimes)
    }

    /// Whether the node meets one requirement.
    pub fn requirement_satisfied(req: &String, caps: &NodeCapabilitySet) -> (r: bool)
        ensures r == requirement_met(req@, *caps),
    {
        if str_eq(req.as_str(), caps.arch.as_str()) || str_eq(req.as_str(), caps.os.as_str()) {
            return true;
        }
        proof {
            reveal_strlit("root");
            reveal_strlit("privileged");
            assert("root"@ == root_text());
            assert("privileged"@ == privileged_text());
        }
        if str_eq(req.as_str(), "root") || str_eq(req.as_str(), "privileged") {
            return caps.privilege == PrivilegeLevel::Root || caps.ports_privileged;
        }
        let mut t: usize = 0;
        while t < caps.custom_tags.len()
            invariant
                t <= caps.custom_tags@.len(),
                req@ != caps.arch@ && req@ != caps.os@,
                req@ != root_text() && req@ != privileged_text(),
                forall|j: int| 0 <= j < t ==> !((#[trigger] caps.custom_tags@[j]).0@ == req@ || caps.custom_tags@[j].1@ == req@),
            decreases caps.custom_tags@.len() - t,
        {
            if str_eq(caps.custom_tags[t].0.as_str(), req.as_str()) || str_eq(caps.custom_tags[t].1.as_str(), req.as_str()) {
                return true;
            }
            t = t + 1;
        }
        false
    }

    /// Whether the node meets every requirement of the artifact.
    pub fn requires_satisfied(reqs: &Vec<String>, caps: &NodeCapabilitySet) -> (r: bool)
        ensures r == requires_met(reqs@, *caps),
    {
        let mut i: usize = 0;
        while i < reqs.len()
            invariant
                i <= reqs@.len(),
                forall|j: int| 0 <= j < i ==> requirement_met((#[trigger] reqs@[j])@, *caps),
            decreases reqs@.len() - i,
        {
            if !Self::requirement_satisfied(&reqs[i], caps) {
                return false;
            }
            i = i + 1;
        }
        true
    }

    /// Whether the node's environment admits the unit.
    pub fn environment_matches(unit: &Unit, caps: &NodeCapabilitySet, promotions: &Vec<PromotionPolicy>) -> (r: bool)
        ensures r == environment_ok(*unit, *caps, promotions@),
    {
        let env = match &caps.environment {
            None => return true,
            Some(e) => e,
        };
        proof {
            reveal_strlit("env:dev");
            assert("env:dev"@ == dev_env_text());
        }
        if str_eq(env.as_str(), "env:dev") {
            return match caps.author_affinity {
                Some(a) => unit.header().author.0 == a.0,
                None => true,
            };
        }
        let id = unit.id();
        let mut p: usize = 0;
        while p < promotions.len()
            invariant
                p <= promotions@.len(),
                id == unit.header_spec().id,
                caps.environment == Some(*env),
                env@ != dev_env_text(),
                forall|j: int| 0 <= j < p ==> !((#[trigger] promotions@[j]).unit_ref == id
                    && promotions@[j].target_environment@ == env@),
            decreases promotions@.len() - p,
        {
            if promotions[p].unit_ref.0 == id.0 && str_eq(promotions[p].target_environment.as_str(), env.as_str()) {
                return true;
            }
            p = p + 1;
        }
        false
    }

    /// The identifiers of the nodes that can host the unit, sorted by
    /// identifier; every node for a unit that is not a workload.
    pub fn filter(&self, unit: &Unit, nodes: &Vec<(NodeId, NodeCapabilitySet)>, promotions: &Vec<PromotionPolicy>) -> (r: Vec<NodeId>)
        ensures
            sorted_le(r@),
            r@.to_multiset() == eligible_prefix(*unit, nodes@, promotions@, nodes@.len() as int).to_multiset(),
    {
        let mut eligible: Vec<NodeId> = Vec::new();
        let mut i: usize = 0;
        while i < nodes.len()
            invariant
                i <= nodes@.len(),
                eligible@ == eligible_prefix(*unit, nodes@, promotions@, i as int),
            decreases nodes@.len() - i,
        {
            let ok = match unit {
                Unit::Workload(w) => Self::artifact_runtime_match(w.artifact.artifact_type, &nodes[i].1.runtimes)
                    && Self::requires_satisfied(&w.artifact.requires, &nodes[i].1)
                    && Self::environment_matches(unit, &nodes[i].1, promotions),
                _ => true,
            };
            if ok {
                eligible.push(nodes[i].0);
            }
            i = i + 1;
        }
        sort_le(eligible)
    }
}

/// A workload is eligible on a node outside `env:dev` only when one of the
/// promotions is of that very unit to the node's environment.
pub proof fn lemma_environment_needs_promotion(unit: Unit, caps: NodeCapabilitySet, promotions: Seq<PromotionPolicy>)
    requires
        unit is Workload,
        caps.environment matches Some(env) && env@ != "env:dev"@,
        eligible_spec(unit, caps, promotions),
    ensures
        exists|p: int| 0 <= p < promotions.len() && (#[trigger] promotions[p]).unit_ref == unit.header_spec().id
            && promotions[p].target_environment@ == caps.environment->0@,
{
    reveal_strlit("env:dev");
    assert("env:dev"@ =~= dev_env_text());
}

/// Only the unit's own promotions matter: two promotion lists that hold
/// the same promotions of the unit make the same nodes eligible for it.
pub proof fn lemma_other_promotions_ignored(unit: Unit, caps: NodeCapabilitySet, p1: Seq<PromotionPolicy>, p2: Seq<PromotionPolicy>)
    requires
        forall|q: PromotionPolicy| q.unit_ref == unit.header_spec().id ==> (p1.contains(q) <==> p2.contains(q)),
    ensures
        eligible_spec(unit, caps, p1) == eligible_spec(unit, caps, p2),
{
    if let Some(env) = caps.environment {
        if env@ != dev_env_text() {
            if exists|p: int| 0 <= p < p1.len() && (#[trigger] p1[p]).unit_ref == unit.header_spec().id
                && p1[p].target_environment@ == env@ {
                let p = choose|p: int| 0 <= p < p1.len() && (#[trigger] p1[p]).unit_ref == unit.header_spec().id
                    && p1[p].target_environment@ == env@;
                assert(p1.contains(p1[p]));
                let q = choose|q: int| 0 <= q < p2.len() && p2[q] == p1[p];
                assert(p2[q].unit_ref == unit.header_spec().id);
            }
            if exists|p: int| 0 <= p < p2.len() && (#[trigger] p2[p]).unit_ref == unit.header_spec().id
                && p2[p].target_environment@ == env@ {
                let p = choose|p: int| 0 <= p < p2.len() && (#[trigger] p2[p]).unit_ref == unit.header_spec().id
                    && p2[p].target_environment@ == env@;
                assert(p2.contains(p2[p]));
                let q = choose|q: int| 0 <= q < p1.len() && p1[q] == p2[p];
                assert(p1[q].unit_ref == unit.header_spec().id);
            }
        }
    }
}

proof fn lemma_eligible_prefix_sound(unit: Unit, nodes: Seq<(NodeId, NodeCapabilitySet)>, promotions: Seq<PromotionPolicy>, n: int, id: NodeId)
    requires
        0 <= n <= nodes.len(),
        eligible_prefix(unit, nodes, promotions, n).contains(id),
    ensures
        exists|k: int| 0 <= k < n && (#[trigger] nodes[k]).0 == id && eligible_spec(unit, nodes[k].1, promotions),
    decreases n,
{
    if n > 0 {
        let rest = eligible_prefix(unit, nodes, promotions, n - 1);
        if eligible_spec(unit, nodes[n - 1].1, promotions) {
            crate::order::lemma_push_contains(rest, nodes[n - 1].0, id);
            if rest.contains(id) {
                lemma_eligible_prefix_sound(unit, nodes, promotions, n - 1, id);
            }
        } else {
            lemma_eligible_prefix_sound(unit, nodes, promotions, n - 1, id);
        }
    }
}

/// Every node the filter returns for a workload is a node of the input
/// whose environment admits the unit: outside `env:dev`, a promotion of
/// that very unit to the node's environment exists.
pub proof fn lemma_filtered_node_promoted(unit: Unit, nodes: Seq<(NodeId, NodeCapabilitySet)>, promotions: Seq<PromotionPolicy>, r: Seq<NodeId>, id: NodeId)
    requires
        unit is Workload,
        r.to_multiset() == eligible_prefix(unit, nodes, promotions, nodes.len() as int).to_multiset(),
        r.contains(id),
    ensures
        exists|k: int| 0 <= k < nodes.len() && (#[trigger] nodes[k]).0 == id
            && match nodes[k].1.environment {
                Some(e) => e@ != "env:dev"@ ==> exists|p: int| 0 <= p < promotions.len()
                    && (#[trigger] promotions[p]).unit_ref == unit.header_spec().id && promotions[p].target_environment@ == e@,
                None => true,
            },
{
    crate::order::lemma_perm_contains(r, eligible_prefix(unit, nodes, promotions, nodes.len() as int));
    lemma_eligible_prefix_sound(unit, nodes, promotions, nodes.len() as int, id);
    let k = choose|k: int| 0 <= k < nodes.len() && (#[trigger] nodes[k]).0 == id && eligible_spec(unit, nodes[k].1, promotions);
    reveal_strlit("env:dev");
    assert("env:dev"@ =~= dev_env_text());
}

/// Which environments admit a unit: a node without an environment admits
/// every unit; `env:dev` admits the author the node is reserved for, or
/// every author when it is reserved for none; any other environment admits
/// exactly the units promoted to it by one of the promotions.
pub proof fn lemma_environment_admits(unit: Unit, caps: NodeCapabilitySet, promotions: Seq<PromotionPolicy>)
    ensures
        caps.environment is None ==> environment_ok(unit, caps, promotions),
        caps.environment matches Some(e) && e@ == "env:dev"@ ==> (environment_ok(unit, caps, promotions) <==> match caps.author_affinity {
            Some(a) => unit.header_spec().author == a,
            None => true,
        }),
        caps.environment matches Some(e) && e@ != "env:dev"@ ==> (environment_ok(unit, caps, promotions) <==> exists|p: int|
            0 <= p < promotions.len() && (#[trigger] promotions[p]).unit_ref == unit.header_spec().id
                && promotions[p].target_environment@ == caps.environment->0@),
{
    reveal_strlit("env:dev");
    assert("env:dev"@ =~= dev_env_text());
}

} // verus!
