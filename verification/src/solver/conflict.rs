//! Conflict detection: capability needs that nothing meets, and the
//! supersession chain of the policies that resolve a conflict.
//!
//! A need is met by another active unit that provides a matching
//! capability in the same trust domain, or across domains when a policy
//! resolves the pair. An unmet need is a conflict unless a policy resolves
//! it; conflicts fail closed.

use vstd::prelude::*;
use crate::common::UnitId;
use crate::model::{Capability, ConflictTuple, GraphSnapshot, PolicyChain, PolicyVersion};
use crate::order::{sort_le, sorted_le, lemma_map_perm};

use crate::solver::error::SolverError;
use crate::solver::placement::{Conflict, ConflictStatus, SupersessionChain};
use crate::text::{decimal, push_decimal, str_eq};

verus! {

// ---------------------------------------------------------------------------
// Matching
// ---------------------------------------------------------------------------

/// `"-compatible"`.
pub open spec fn compatible_suffix() -> Seq<char> {
    seq!['-', 'c', 'o', 'm', 'p', 'a', 't', 'i', 'b', 'l', 'e']
}

/// The provided name serves the needed one: equal, or the needed name
/// followed by `-compatible`.
pub open spec fn name_compatible(need: Capability, provide: Capability) -> bool {
    need.name@ == provide.name@ || provide.name@ == need.name@ + compatible_suffix()
}

/// Same type and a compatible name, whatever the purposes.
pub open spec fn matches_type_name_spec(need: Capability, provide: Capability) -> bool {
    need.cap_type@ == provide.cap_type@ && name_compatible(need, provide)
}

/// A purpose on the need must be the provide's purpose.
pub open spec fn purpose_ok(need: Capability, provide: Capability) -> bool {
    match need.purpose {
        None => true,
        Some(np) => match provide.purpose {
            Some(pp) => pp@ == np@,
            None => false,
        },
    }
}

/// The provide meets the need.
pub open spec fn satisfiable_spec(need: Capability, provide: Capability) -> bool {
    matches_type_name_spec(need, provide) && purpose_ok(need, provide)
}

// ---------------------------------------------------------------------------
// Policy chains
// ---------------------------------------------------------------------------

/// Two identifier lists hold the same set.
pub open spec fn same_ids(a: Seq<UnitId>, b: Seq<UnitId>) -> bool {
    forall|x: UnitId| a.contains(x) <==> b.contains(x)
}

/// Entry `i` is the first chain of the tuple (`ids`, `name`).
pub open spec fn first_chain_at(chains: Seq<(ConflictTuple, PolicyChain)>, ids: Seq<UnitId>, name: Seq<char>, i: int) -> bool {
    &&& 0 <= i < chains.len()
    &&& same_ids(chains[i].0.unit_ids@, ids) && chains[i].0.capability_name@ == name
    &&& forall|j: int| 0 <= j < i ==> !(same_ids((#[trigger] chains[j]).0.unit_ids@, ids) && chains[j].0.capability_name@ == name)
}

/// The non-revoked versions of a chain.
pub open spec fn live_versions(v: Seq<PolicyVersion>) -> Seq<PolicyVersion> {
    v.filter(|p: PolicyVersion| !p.revoked)
}

/// How a tuple's policies resolve it.
#[derive(Clone, Copy, Debug, PartialEq, Eq, Structural)]
pub enum Resolution {
    /// Exactly one live policy.
    Resolved(UnitId),
    /// Every policy revoked.
    Revoked,
    /// More than one live policy.
    Ambiguous,
}

/// The resolution of a chain by its live versions.
pub open spec fn chain_resolution(v: Seq<PolicyVersion>) -> Resolution {
    let live = live_versions(v);
    if live.len() == 0 {
        Resolution::Revoked
    } else if live.len() > 1 {
        Resolution::Ambiguous
    } else {
        Resolution::Resolved(live[0].policy_id)
    }
}

/// The resolution of the tuple (`ids`, `name`): none when no chain exists.
pub open spec fn policy_status_spec(chains: Seq<(ConflictTuple, PolicyChain)>, ids: Seq<UnitId>, name: Seq<char>) -> Option<Resolution> {
    if exists|i: int| first_chain_at(chains, ids, name, i) {
        let i = choose|i: int| first_chain_at(chains, ids, name, i);
        Some(chain_resolution(chains[i].1.versions@))
    } else {
        None
    }
}

// ---------------------------------------------------------------------------
// Conflicts
// ---------------------------------------------------------------------------

/// Entry `j` meets the need of active unit `i`: another active unit that
/// provides a matching capability, in the same trust domain or with a
/// policy resolving the pair.
pub open spec fn meets_need(graph: GraphSnapshot, i: int, need: Capability, j: int) -> bool {
    let e = graph.entries@;
    &&& 0 <= j < e.len()
    &&& !e[j].archived
    &&& e[j].unit.header_spec().id != e[i].unit.header_spec().id
    &&& exists|p: int| 0 <= p < e[j].unit.provides_spec().len()
        && satisfiable_spec(need, #[trigger] e[j].unit.provides_spec()[p])
        && (e[i].unit.header_spec().trust_domain == e[j].unit.header_spec().trust_domain
            || policy_status_spec(graph.policy_chains@, seq![e[i].unit.header_spec().id, e[j].unit.header_spec().id],
                need.cap_type@) matches Some(Resolution::Resolved(_)))
}

/// What a conflict shows: its units, capability and status.
pub open spec fn conflict_view(c: Conflict) -> (Seq<UnitId>, Capability, ConflictStatus) {
    (c.units@, c.capability, c.status)
}

/// The conflict of need `k` of entry `i`, if any.
pub open spec fn need_conflict(graph: GraphSnapshot, i: int, k: int) -> Option<(Seq<UnitId>, Capability, ConflictStatus)> {
    let e = graph.entries@;
    let need = e[i].unit.needs_spec()[k];
    let id = e[i].unit.header_spec().id;
    if exists|j: int| meets_need(graph, i, need, j) {
        None
    } else {
        match policy_status_spec(graph.policy_chains@, seq![id], need.cap_type@) {
            Some(Resolution::Resolved(_)) => None,
            Some(Resolution::Revoked) => Some((seq![id], need, ConflictStatus::Revoked)),
            Some(Resolution::Ambiguous) => Some((seq![id], need, ConflictStatus::Ambiguous)),
            None => Some((seq![id], need, ConflictStatus::Unresolved)),
        }
    }
}

/// The conflicts of the first `n` needs of entry `i`.
pub open spec fn needs_conflicts(graph: GraphSnapshot, i: int, n: int) -> Seq<(Seq<UnitId>, Capability, ConflictStatus)>
    decreases n,
{
    if n <= 0 {
        Seq::empty()
    } else {
        let rest = needs_conflicts(graph, i, n - 1);
        match need_conflict(graph, i, n - 1) {
            Some(c) => rest.push(c),
            None => rest,
        }
    }
}

/// The conflicts of the active units among the first `n` entries.
pub open spec fn graph_conflicts(graph: GraphSnapshot, n: int) -> Seq<(Seq<UnitId>, Capability, ConflictStatus)>
    decreases n,
{
    if n <= 0 {
        Seq::empty()
    } else {
        let rest = graph_conflicts(graph, n - 1);
        if graph.entries@[n - 1].archived {
            rest
        } else {
            rest + needs_conflicts(graph, n - 1, graph.entries@[n - 1].unit.needs_spec().len() as int)
        }
    }
}

/// Number of live versions.
pub open spec fn live_count(v: Seq<PolicyVersion>) -> nat {
    live_versions(v).len()
}

/// The reason text of a tuple with `n` live policies.
pub open spec fn ambiguous_reason(n: nat) -> Seq<char> {
    seq!['m', 'u', 'l', 't', 'i', 'p', 'l', 'e', ' ', 'n', 'o', 'n', '-', 'r', 'e', 'v', 'o', 'k', 'e', 'd', ' ',
        'p', 'o', 'l', 'i', 'c', 'i', 'e', 's', ' ', '('] + decimal(n) + seq![')', ' ', 'f', 'o', 'r', ' ', 'c',
        'o', 'n', 'f', 'l', 'i', 'c', 't', ' ', 't', 'u', 'p', 'l', 'e', ' ', '\u{2014}', ' ', 'I', 'N', 'V', '-',
        'C', '7', ' ', 'r', 'e', 'q', 'u', 'i', 'r', 'e', 's', ' ', 'e', 'x', 'a', 'c', 't', 'l', 'y', ' ', 'z',
        'e', 'r', 'o', ' ', 'o', 'r', ' ', 'o', 'n', 'e']
}

/// Detects capability conflicts among the units of a graph.
pub trait ConflictDetector {
    /// The unmet needs of the active units, each with the status of the
    /// policies for it, excluding those a policy resolves; sorted by unit
    /// and then capability.
    fn detect_conflicts(&self, graph: &GraphSnapshot) -> (r: Vec<Conflict>)
        ensures
            sorted_le(r@),
            r@.map_values(|c: Conflict| conflict_view(c)).to_multiset()
                == graph_conflicts(*graph, graph.entries@.len() as int).to_multiset();
}

/// Default, stateless conflict detector.
#[derive(Clone, Copy, Debug, Default, PartialEq, Eq)]
pub struct DefaultConflictDetector;

fn contains_unit(v: &Vec<UnitId>, id: UnitId) -> (r: bool)
    ensures r == v@.contains(id),
{
    let mut i: usize = 0;
    while i < v.len()
        invariant
            i <= v@.len(),
            forall|j: int| 0 <= j < i ==> v@[j] != id,
        decreases v@.len() - i,
    {
        if v[i].0 == id.0 {
            return true;
        }
        i = i + 1;
    }
    false
}

fn same_ids_exec(a: &Vec<UnitId>, b: &Vec<UnitId>) -> (r: bool)
    ensures r == same_ids(a@, b@),
{
    let mut i: usize = 0;
    while i < a.len()
        invariant
            i <= a@.len(),
            forall|j: int| 0 <= j < i ==> b@.contains(#[trigger] a@[j]),
        decreases a@.len() - i,
    {
        if !contains_unit(b, a[i]) {
            proof {
                assert(a@.contains(a@[i as int]));
            }
            return false;
        }
        i = i + 1;
    }
    let mut i: usize = 0;
    while i < b.len()
        invariant
            i <= b@.len(),
            forall|j: int| 0 <= j < a@.len() ==> b@.contains(#[trigger] a@[j]),
            forall|j: int| 0 <= j < i ==> a@.contains(#[trigger] b@[j]),
        decreases b@.len() - i,
    {
        if !contains_unit(a, b[i]) {
            proof {
                assert(b@.contains(b@[i as int]));
            }
            return false;
        }
        i = i + 1;
    }
    proof {
        assert forall|x: UnitId| a@.contains(x) <==> b@.contains(x) by {
            if a@.contains(x) {
                let j = choose|j: int| 0 <= j < a@.len() && a@[j] == x;
                assert(b@.contains(a@[j]));
            }
            if b@.contains(x) {
                let j = choose|j: int| 0 <= j < b@.len() && b@[j] == x;
                assert(a@.contains(b@[j]));
            }
        }
    }
    true
}

impl DefaultConflictDetector {
    /// Creates a detector.
    pub fn new() -> (r: Self)
        ensures r == DefaultConflictDetector,
    {
        DefaultConflictDetector
    }

    /// Whether the provided name serves the needed one.
    fn name_compatible_exec(need: &Capability, provide: &Capability) -> (r: bool)
        ensures r == name_compatible(*need, *provide),
    {
        if str_eq(need.name.as_str(), provide.name.as_str()) {
            return true;
        }
        let mut expected = String::new();
        expected.append(need.name.as_str());
        proof {
            reveal_strlit("-compatible");
        }
        expected.append("-compatible");
        assert("-compatible"@ == compatible_suffix());
        assert(expected@ == need.name@ + compatible_suffix());
        str_eq(provide.name.as_str(), expected.as_str())
    }

    /// Whether the provide has the need's type and a compatible name.
    pub fn matches_type_name(need: &Capability, provide: &Capability) -> (r: bool)
        ensures r == matches_type_name_spec(*need, *provide),
    {
        str_eq(need.cap_type.as_str(), provide.cap_type.as_str()) && Self::name_compatible_exec(need, provide)
    }

    /// Whether the provide meets the need, purpose included.
    pub fn is_satisfiable(need: &Capability, provide: &Capability) -> (r: bool)
        ensures r == satisfiable_spec(*need, *provide),
    {
        if !Self::matches_type_name(need, provide) {
            return false;
        }
        match &need.purpose {
            None => true,
            Some(np) => match &provide.purpose {
                Some(pp) => str_eq(pp.as_str(), np.as_str()),
                None => false,
            },
        }
    }

    /// The resolution of the tuple (`ids`, `name`) by the graph's chains.
    pub fn policy_status(graph: &GraphSnapshot, ids: &Vec<UnitId>, name: &String) -> (r: Option<Resolution>)
        ensures r == policy_status_spec(graph.policy_chains@, ids@, name@),
    {
        let chains = &graph.policy_chains;
        let mut i: usize = 0;
        while i < chains.len()
            invariant
                i <= chains@.len(),
                chains@ == graph.policy_chains@,
                forall|j: int| 0 <= j < i ==> !(same_ids((#[trigger] chains@[j]).0.unit_ids@, ids@)
                    && chains@[j].0.capability_name@ == name@),
            decreases chains@.len() - i,
        {
            if same_ids_exec(&chains[i].0.unit_ids, ids) && str_eq(chains[i].0.capability_name.as_str(), name.as_str()) {
                proof {
                    assert(first_chain_at(chains@, ids@, name@, i as int));
                    let c = choose|c: int| first_chain_at(chains@, ids@, name@, c);
                    if c < i {
                        assert(!(same_ids(chains@[c].0.unit_ids@, ids@) && chains@[c].0.capability_name@ == name@));
                    }
                    if c > i {
                        assert(!(same_ids(chains@[i as int].0.unit_ids@, ids@) && chains@[i as int].0.capability_name@ == name@));
                    }
                    assert(c == i as int);
                }
                return Some(Self::resolution_of(&chains[i].1.versions));
            }
            i = i + 1;
        }
        proof {
            if exists|c: int| first_chain_at(chains@, ids@, name@, c) {
                let c = choose|c: int| first_chain_at(chains@, ids@, name@, c);
                assert(!(same_ids(chains@[c].0.unit_ids@, ids@) && chains@[c].0.capability_name@ == name@));
            }
        }
        None
    }

    /// Number of live versions of a chain.
    pub fn live_count(versions: &Vec<PolicyVersion>) -> (r: usize)
        ensures r == live_count(versions@),
    {
        let mut count: usize = 0;
        let mut i: usize = 0;
        while i < versions.len()
            invariant
                i <= versions@.len(),
                count == live_versions(versions@.subrange(0, i as int)).len(),
                count <= i,
            decreases versions@.len() - i,
        {
            proof {
                assert(versions@.subrange(0, i + 1) =~= versions@.subrange(0, i as int).push(versions@[i as int]));
                versions@.subrange(0, i as int).lemma_filter_push(versions@[i as int], |p: PolicyVersion| !p.revoked);
            }
            if !versions[i].revoked {
                count = count + 1;
            }
            i = i + 1;
        }
        assert(versions@.subrange(0, versions@.len() as int) =~= versions@);
        count
    }

    /// The resolution of a chain by its live versions.
    pub fn resolution_of(versions: &Vec<PolicyVersion>) -> (r: Resolution)
        ensures r == chain_resolution(versions@),
    {
        let mut first: Option<UnitId> = None;
        let mut count: usize = 0;
        let mut i: usize = 0;
        while i < versions.len()
            invariant
                i <= versions@.len(),
                count == live_versions(versions@.subrange(0, i as int)).len(),
                count <= i,
                count == 0 <==> first is None,
                first matches Some(f) ==> f == live_versions(versions@.subrange(0, i as int))[0].policy_id,
            decreases versions@.len() - i,
        {
            proof {
                assert(versions@.subrange(0, i + 1) =~= versions@.subrange(0, i as int).push(versions@[i as int]));
                versions@.subrange(0, i as int).lemma_filter_push(versions@[i as int], |p: PolicyVersion| !p.revoked);
            }
            if !versions[i].revoked {
                if count == 0 {
                    first = Some(versions[i].policy_id);
                }
                count = count + 1;
            }
            i = i + 1;
        }
        assert(versions@.subrange(0, versions@.len() as int) =~= versions@);
        if count == 0 {
            Resolution::Revoked
        } else if count > 1 {
            Resolution::Ambiguous
        } else {
            match first {
                Some(f) => Resolution::Resolved(f),
                None => Resolution::Revoked,
            }
        }
    }
}

impl DefaultConflictDetector {
    /// Whether some other active unit meets need `need` of entry `i`.
    pub fn need_met(graph: &GraphSnapshot, i: usize, need: &Capability) -> (r: bool)
        requires
            i < graph.entries@.len(),
        ensures
            r == exists|j: int| meets_need(*graph, i as int, *need, j),
    {
        let entries = &graph.entries;
        let needer = &entries[i].unit;
        let needer_id = needer.id();
        let needer_td = needer.header().trust_domain;
        let mut j: usize = 0;
        while j < entries.len()
            invariant
                j <= entries@.len(),
                i < entries@.len(),
                entries@ == graph.entries@,
                needer_id == entries@[i as int].unit.header_spec().id,
                needer_td == entries@[i as int].unit.header_spec().trust_domain,
                forall|q: int| 0 <= q < j ==> !meets_need(*graph, i as int, *need, q),
            decreases entries@.len() - j,
        {
            if !entries[j].archived {
                let provider = &entries[j].unit;
                let provider_id = provider.id();
                if provider_id.0 != needer_id.0 {
                    let provides = provider.provides();
                    let mut p: usize = 0;
                    while p < provides.len()
                        invariant
                            p <= provides@.len(),
                            j < entries@.len(),
                            i < entries@.len(),
                            entries@ == graph.entries@,
                            !entries@[j as int].archived,
                            provides@ == entries@[j as int].unit.provides_spec(),
                            *provider == entries@[j as int].unit,
                            needer_id == entries@[i as int].unit.header_spec().id,
                            needer_td == entries@[i as int].unit.header_spec().trust_domain,
                            provider_id == entries@[j as int].unit.header_spec().id,
                            provider_id != needer_id,
                            forall|q: int| 0 <= q < p ==> !(satisfiable_spec(*need, #[trigger] provides@[q])
                                && (needer_td == entries@[j as int].unit.header_spec().trust_domain
                                    || policy_status_spec(graph.policy_chains@, seq![needer_id, provider_id],
                                        need.cap_type@) matches Some(Resolution::Resolved(_)))),
                        decreases provides@.len() - p,
                    {
                        if Self::is_satisfiable(need, &provides[p]) {
                            if needer_td.0 == provider.header().trust_domain.0 {
                                proof {
                                    assert(satisfiable_spec(*need, entries@[j as int].unit.provides_spec()[p as int]));
                                    assert(meets_need(*graph, i as int, *need, j as int));
                                }
                                return true;
                            }
                            let mut pair: Vec<UnitId> = Vec::new();
                            pair.push(needer_id);
                            pair.push(provider_id);
                            assert(pair@ =~= seq![needer_id, provider_id]);
                            match Self::policy_status(graph, &pair, &need.cap_type) {
                                Some(Resolution::Resolved(_)) => {
                                    proof {
                                        assert(satisfiable_spec(*need, entries@[j as int].unit.provides_spec()[p as int]));
                                        assert(meets_need(*graph, i as int, *need, j as int));
                                    }
                                    return true;
                                },
                                _ => {
                                    proof {
                                        assert(!(policy_status_spec(graph.policy_chains@, seq![needer_id, provider_id],
                                            need.cap_type@) matches Some(Resolution::Resolved(_))));
                                        assert(needer_td != entries@[j as int].unit.header_spec().trust_domain);
                                    }
                                },
                            }
                        }
                        p = p + 1;
                    }
                }
            }
            j = j + 1;
        }
        false
    }

    /// The unmet needs of the active units, each with the status of the
    /// policies for it, excluding those a policy resolves; sorted by unit
    /// and then capability.
    pub fn detect_conflicts(&self, graph: &GraphSnapshot) -> (r: Vec<Conflict>)
        ensures
            sorted_le(r@),
            r@.map_values(|c: Conflict| conflict_view(c)).to_multiset()
                == graph_conflicts(*graph, graph.entries@.len() as int).to_multiset(),
    {
        let entries = &graph.entries;
        let mut conflicts: Vec<Conflict> = Vec::new();
        let mut i: usize = 0;
        while i < entries.len()
            invariant
                i <= entries@.len(),
                entries@ == graph.entries@,
                conflicts@.map_values(|c: Conflict| conflict_view(c)) == graph_conflicts(*graph, i as int),
            decreases entries@.len() - i,
        {
            if !entries[i].archived {
                let needer = &entries[i].unit;
                let id = needer.id();
                let needs = needer.needs();
                let ghost base = conflicts@.map_values(|c: Conflict| conflict_view(c));
                let mut k: usize = 0;
                while k < needs.len()
                    invariant
                        k <= needs@.len(),
                        i < entries@.len(),
                        entries@ == graph.entries@,
                        !entries@[i as int].archived,
                        needs@ == entries@[i as int].unit.needs_spec(),
                        id == entries@[i as int].unit.header_spec().id,
                        base == graph_conflicts(*graph, i as int),
                        conflicts@.map_values(|c: Conflict| conflict_view(c)) == base + needs_conflicts(*graph, i as int, k as int),
                    decreases needs@.len() - k,
                {
                    let need = &needs[k];
                    let ghost before = conflicts@;
                    if !Self::need_met(graph, i, need) {
                        let mut single: Vec<UnitId> = Vec::new();
                        single.push(id);
                        assert(single@ =~= seq![id]);
                        let status = match Self::policy_status(graph, &single, &need.cap_type) {
                            Some(Resolution::Resolved(_)) => None,
                            Some(Resolution::Revoked) => Some(ConflictStatus::Revoked),
                            Some(Resolution::Ambiguous) => Some(ConflictStatus::Ambiguous),
                            None => Some(ConflictStatus::Unresolved),
                        };
                        match status {
                            Some(st) => {
                                let mut units: Vec<UnitId> = Vec::new();
                                units.push(id);
                                conflicts.push(Conflict { units, capability: need.copy(), status: st });
                                proof {
                                    assert(conflicts@.map_values(|c: Conflict| conflict_view(c))
                                        =~= before.map_values(|c: Conflict| conflict_view(c)).push(conflict_view(conflicts@.last())));
                                    assert(conflict_view(conflicts@.last()).0 =~= seq![id]);
                                }
                            },
                            None => {},
                        }
                    }
                    proof {
                        assert(base + needs_conflicts(*graph, i as int, k + 1) =~= match need_conflict(*graph, i as int, k as int) {
                            Some(c) => (base + needs_conflicts(*graph, i as int, k as int)).push(c),
                            None => base + needs_conflicts(*graph, i as int, k as int),
                        });
                    }
                    k = k + 1;
                }
            }
            i = i + 1;
        }
        let ghost unsorted = conflicts@;
        let r = sort_le(conflicts);
        proof {
            lemma_map_perm(unsorted, r@, |c: Conflict| conflict_view(c));
        }
        r
    }

    /// The supersession chain of the policies for a conflict tuple: its
    /// policies oldest first (none when no chain exists), or a policy
    /// conflict when more than one policy is live.
    pub fn check_supersession(&self, graph: &GraphSnapshot, conflict_units: &Vec<UnitId>, capability: &Capability) -> (r: Result<SupersessionChain, SolverError>)
        ensures
            match r {
                Ok(chain) => chain.conflict_units@ == conflict_units@ && chain.capability == *capability
                    && (if exists|i: int| first_chain_at(graph.policy_chains@, conflict_units@, capability.cap_type@, i) {
                        let i = choose|i: int| first_chain_at(graph.policy_chains@, conflict_units@, capability.cap_type@, i);
                        live_count(graph.policy_chains@[i].1.versions@) <= 1
                            && chain.policies@ == graph.policy_chains@[i].1.versions@.map_values(|v: PolicyVersion| v.policy_id)
                    } else {
                        chain.policies@.len() == 0
                    }),
                Err(e) => exists|i: int| first_chain_at(graph.policy_chains@, conflict_units@, capability.cap_type@, i)
                    && live_count(graph.policy_chains@[i].1.versions@) > 1
                    && (e matches SolverError::PolicyConflict { units, reason }
                    && units@ == conflict_units@
                    && reason@ == ambiguous_reason(live_count(graph.policy_chains@[i].1.versions@))),
            },
    {
        let chains = &graph.policy_chains;
        let mut i: usize = 0;
        while i < chains.len()
            invariant
                i <= chains@.len(),
                chains@ == graph.policy_chains@,
                forall|j: int| 0 <= j < i ==> !(same_ids((#[trigger] chains@[j]).0.unit_ids@, conflict_units@)
                    && chains@[j].0.capability_name@ == capability.cap_type@),
            decreases chains@.len() - i,
        {
            if same_ids_exec(&chains[i].0.unit_ids, conflict_units) && str_eq(chains[i].0.capability_name.as_str(), capability.cap_type.as_str()) {
                proof {
                    assert(first_chain_at(chains@, conflict_units@, capability.cap_type@, i as int));
                    let c = choose|c: int| first_chain_at(chains@, conflict_units@, capability.cap_type@, c);
                    if c < i {
                        assert(!(same_ids(chains@[c].0.unit_ids@, conflict_units@) && chains@[c].0.capability_name@ == capability.cap_type@));
                    }
                    if c > i {
                        assert(!(same_ids(chains@[i as int].0.unit_ids@, conflict_units@) && chains@[i as int].0.capability_name@ == capability.cap_type@));
                    }
                    assert(c == i as int);
                }
                let versions = &chains[i].1.versions;
                let live = Self::live_count(versions);
                if live > 1 {
                    let mut reason = String::new();
                    proof {
                        reveal_strlit("multiple non-revoked policies (");
                        reveal_strlit(") for conflict tuple \u{2014} INV-C7 requires exactly zero or one");
                    }
                    reason.append("multiple non-revoked policies (");
                    push_decimal(&mut reason, live as u64);
                    reason.append(") for conflict tuple \u{2014} INV-C7 requires exactly zero or one");
                    assert(reason@ =~= ambiguous_reason(live as nat));
                    return Err(SolverError::PolicyConflict { units: copy_ids(conflict_units), reason });
                }
                let mut policies: Vec<UnitId> = Vec::new();
                let mut q: usize = 0;
                while q < versions.len()
                    invariant
                        q <= versions@.len(),
                        policies@ == versions@.subrange(0, q as int).map_values(|v: PolicyVersion| v.policy_id),
                    decreases versions@.len() - q,
                {
                    policies.push(versions[q].policy_id);
                    q = q + 1;
                    proof {
                        assert(policies@ =~= versions@.subrange(0, q as int).map_values(|v: PolicyVersion| v.policy_id));
                    }
                }
                assert(versions@.subrange(0, versions@.len() as int) =~= versions@);
                return Ok(SupersessionChain {
                    conflict_units: copy_ids(conflict_units),
                    capability: capability.copy(),
                    policies,
                });
            }
            i = i + 1;
        }
        proof {
            if exists|c: int| first_chain_at(chains@, conflict_units@, capability.cap_type@, c) {
                let c = choose|c: int| first_chain_at(chains@, conflict_units@, capability.cap_type@, c);
                assert(!(same_ids(chains@[c].0.unit_ids@, conflict_units@) && chains@[c].0.capability_name@ == capability.cap_type@));
            }
        }
        Ok(SupersessionChain { conflict_units: copy_ids(conflict_units), capability: capability.copy(), policies: Vec::new() })
    }
}

/// A copy of an identifier list.
pub fn copy_ids(v: &Vec<UnitId>) -> (r: Vec<UnitId>)
    ensures r@ == v@,
{
    let mut out: Vec<UnitId> = Vec::new();
    let mut i: usize = 0;
    while i < v.len()
        invariant
            i <= v@.len(),
            out@ == v@.subrange(0, i as int),
        decreases v@.len() - i,
    {
        out.push(v[i]);
        i = i + 1;
        proof {
            assert(out@ =~= v@.subrange(0, i as int));
        }
    }
    assert(v@.subrange(0, v@.len() as int) =~= v@);
    out
}

impl ConflictDetector for DefaultConflictDetector {
    fn detect_conflicts(&self, graph: &GraphSnapshot) -> (r: Vec<Conflict>) {
        DefaultConflictDetector::detect_conflicts(self, graph)
    }
}

/// A provide meets a need exactly when it has the need's type, its name is
/// the need's name or the need's name followed by `-compatible`, and it
/// carries the purpose the need asks for, if the need asks for one.
pub proof fn lemma_satisfiable(need: Capability, provide: Capability)
    ensures
        satisfiable_spec(need, provide) <==> {
            &&& provide.cap_type@ == need.cap_type@
            &&& provide.name@ == need.name@ || provide.name@ == need.name@ + "-compatible"@
            &&& match need.purpose {
                None => true,
                Some(np) => provide.purpose is Some && provide.purpose->0@ == np@,
            }
        },
{
    reveal_strlit("-compatible");
    assert("-compatible"@ =~= compatible_suffix());
}

/// A need that another active unit of the same trust domain meets, with
/// the same name or the name followed by `-compatible`, is in no conflict:
/// conflict detection reports nothing for it.
pub proof fn lemma_met_need_no_conflict(graph: GraphSnapshot, i: int, k: int, j: int, p: int)
    requires
        0 <= i < graph.entries@.len(),
        0 <= j < graph.entries@.len(),
        !graph.entries@[j].archived,
        graph.entries@[j].unit.header_spec().id != graph.entries@[i].unit.header_spec().id,
        graph.entries@[j].unit.header_spec().trust_domain == graph.entries@[i].unit.header_spec().trust_domain,
        0 <= k < graph.entries@[i].unit.needs_spec().len(),
        0 <= p < graph.entries@[j].unit.provides_spec().len(),
        graph.entries@[j].unit.provides_spec()[p].cap_type@ == graph.entries@[i].unit.needs_spec()[k].cap_type@,
        graph.entries@[j].unit.provides_spec()[p].name@ == graph.entries@[i].unit.needs_spec()[k].name@
            || graph.entries@[j].unit.provides_spec()[p].name@ == graph.entries@[i].unit.needs_spec()[k].name@ + "-compatible"@,
        graph.entries@[i].unit.needs_spec()[k].purpose is None,
    ensures
        need_conflict(graph, i, k) is None,
{
    let need = graph.entries@[i].unit.needs_spec()[k];
    let provide = graph.entries@[j].unit.provides_spec()[p];
    lemma_satisfiable(need, provide);
    assert(satisfiable_spec(need, provide));
    assert(meets_need(graph, i, need, j));
}

} // verus!
