//! Aggregation of workload health check results.
//!
//! The aggregator keeps, per unit, the last reported health status and
//! answers queries about it.

use vstd::prelude::*;
use crate::common::{DualClockEvent, NodeId, UnitId};
use crate::keyed::{keyed_at, keys_unique, lemma_lookup_at, lemma_lookup_push, lemma_lookup_update, lookup};

verus! {

/// Health status of a workload.
#[derive(Clone, Debug, PartialEq, Eq)]
pub struct HealthStatus {
    /// The unit whose health was checked.
    pub unit_id: UnitId,
    /// The node hosting the unit at check time.
    pub node_id: NodeId,
    /// Whether the unit is currently healthy.
    pub healthy: bool,
    /// When the last health check occurred.
    pub last_check: DualClockEvent,
    /// Number of consecutive failed checks (0 if healthy).
    pub consecutive_failures: u32,
    /// Type of health check performed (e.g. "http", "tcp", "exec").
    pub check_type: String,
    /// Additional detail about the health check result.
    pub detail: Option<String>,
}

impl HealthStatus {
    /// The two statuses hold the same values.
    pub open spec fn same_as(self, other: HealthStatus) -> bool {
        &&& self.unit_id == other.unit_id
        &&& self.node_id == other.node_id
        &&& self.healthy == other.healthy
        &&& self.last_check.same_as(other.last_check)
        &&& self.consecutive_failures == other.consecutive_failures
        &&& self.check_type@ == other.check_type@
        &&& match (self.detail, other.detail) {
            (Some(a), Some(b)) => a@ == b@,
            (None, None) => true,
            _ => false,
        }
    }

    /// A copy of this status.
    pub fn copy(&self) -> (r: HealthStatus)
        ensures r.same_as(*self),
    {
        HealthStatus {
            unit_id: self.unit_id,
            node_id: self.node_id,
            healthy: self.healthy,
            last_check: self.last_check.copy(),
            consecutive_failures: self.consecutive_failures,
            check_type: self.check_type.clone(),
            detail: match &self.detail {
                Some(d) => Some(d.clone()),
                None => None,
            },
        }
    }
}

/// Keeps the last reported health status of each unit.
#[derive(Debug)]
pub struct DefaultHealthAggregator {
    statuses: Vec<(UnitId, HealthStatus)>,
}

/// The status is present and holds the same values as `st`.
pub open spec fn status_same(o: Option<HealthStatus>, st: HealthStatus) -> bool {
    match o {
        Some(x) => x.same_as(st),
        None => false,
    }
}

/// The statuses of `s` that are unhealthy, in order.
pub open spec fn unhealthy_of(s: Seq<(UnitId, HealthStatus)>) -> Seq<HealthStatus>
    decreases s.len(),
{
    if s.len() == 0 {
        Seq::empty()
    } else if !s.last().1.healthy {
        unhealthy_of(s.drop_last()).push(s.last().1)
    } else {
        unhealthy_of(s.drop_last())
    }
}

impl DefaultHealthAggregator {
    #[verifier::type_invariant]
    spec fn one_status_per_unit(self) -> bool {
        keys_unique(self.statuses@)
    }

    /// The status stored for a unit.
    pub closed spec fn status_of(&self, u: UnitId) -> Option<HealthStatus> {
        lookup(self.statuses@, u)
    }

    /// The units with a stored status.
    pub closed spec fn units(&self) -> Set<UnitId> {
        Set::new(|u: UnitId| self.status_of(u) is Some)
    }

    /// Some unit's stored status holds the same values as `st`.
    pub open spec fn holds_status(&self, st: HealthStatus) -> bool {
        exists|u: UnitId| #[trigger] status_same(self.status_of(u), st)
    }

    /// The stored statuses that are unhealthy, in storage order.
    pub closed spec fn unhealthy_statuses(&self) -> Seq<HealthStatus> {
        unhealthy_of(self.statuses@)
    }

    /// Creates an aggregator with no statuses.
    pub fn new() -> (r: Self)
        ensures
            forall|u: UnitId| r.status_of(u) is None,
            r.units().len() == 0,
    {
        let r = DefaultHealthAggregator { statuses: Vec::new() };
        assert(r.units() =~= Set::empty());
        r
    }

    proof fn lemma_units_finite(&self)
        requires keys_unique(self.statuses@),
        ensures
            self.units() == self.statuses@.map_values(|p: (UnitId, HealthStatus)| p.0).to_set(),
            self.units().len() == self.statuses@.len(),
    {
        let keys = self.statuses@.map_values(|p: (UnitId, HealthStatus)| p.0);
        assert(self.units() =~= keys.to_set()) by {
            assert forall|u: UnitId| self.units().contains(u) implies keys.to_set().contains(u) by {
                let i = choose|i: int| keyed_at(self.statuses@, u, i);
                assert(keys[i] == u);
            }
            assert forall|u: UnitId| keys.to_set().contains(u) implies self.units().contains(u) by {
                let i = choose|i: int| 0 <= i < keys.len() && keys[i] == u;
                assert(keyed_at(self.statuses@, u, i));
            }
        }
        assert(keys.no_duplicates()) by {
            assert forall|a: int, b: int| 0 <= a < keys.len() && 0 <= b < keys.len() && a != b implies keys[a] != keys[b] by {
                if a < b {
                    assert(self.statuses@[a].0 != self.statuses@[b].0);
                } else {
                    assert(self.statuses@[b].0 != self.statuses@[a].0);
                }
            }
        }
        keys.unique_seq_to_set();
    }

    fn find(&self, unit_id: &UnitId) -> (r: Option<usize>)
        ensures
            match r {
                Some(i) => keyed_at(self.statuses@, *unit_id, i as int),
                None => forall|i: int| !keyed_at(self.statuses@, *unit_id, i),
            },
    {
        let mut i: usize = 0;
        while i < self.statuses.len()
            invariant
                i <= self.statuses@.len(),
                forall|j: int| 0 <= j < i ==> (#[trigger] self.statuses@[j]).0 != *unit_id,
            decreases self.statuses@.len() - i,
        {
            if self.statuses[i].0 == *unit_id {
                return Some(i);
            }
            i = i + 1;
        }
        None
    }

    /// Returns the number of units with a stored status.
    pub fn count(&self) -> (r: usize)
        ensures r == self.units().len(),
    {
        proof {
            use_type_invariant(self);
            self.lemma_units_finite();
        }
        self.statuses.len()
    }

    /// Stores the status of a unit, replacing any earlier one.
    pub fn report(&mut self, unit_id: &UnitId, status: &HealthStatus)
        ensures
            final(self).status_of(*unit_id) matches Some(s) && s.same_as(*status),
            forall|u: UnitId| u != *unit_id ==> final(self).status_of(u) == old(self).status_of(u),
    {
        proof {
            use_type_invariant(&*self);
        }
        let ghost before = self.statuses@;
        let found = self.find(unit_id);
        let mut v: Vec<(UnitId, HealthStatus)> = Vec::new();
        std::mem::swap(&mut v, &mut self.statuses);
        match found {
            Some(i) => {
                v.remove(i);
                v.insert(i, (*unit_id, status.copy()));
                proof {
                    assert(v@ =~= before.update(i as int, v@[i as int]));
                    lemma_lookup_update(before, v@, i as int);
                }
            },
            None => {
                let e = (*unit_id, status.copy());
                v.push(e);
                proof {
                    lemma_lookup_push(before, e);
                }
            },
        }
        self.statuses = v;
    }

    /// Returns a copy of the status stored for a unit, if any.
    pub fn query(&self, unit_id: &UnitId) -> (r: Option<HealthStatus>)
        ensures
            match (r, self.status_of(*unit_id)) {
                (Some(a), Some(b)) => a.same_as(b),
                (None, None) => true,
                _ => false,
            },
    {
        proof {
            use_type_invariant(self);
        }
        match self.find(unit_id) {
            Some(i) => {
                proof {
                    lemma_lookup_at(self.statuses@, i as int);
                }
                Some(self.statuses[i].1.copy())
            },
            None => None,
        }
    }

    /// Returns copies of all unhealthy statuses: each stored unhealthy
    /// status once, in storage order.
    pub fn unhealthy(&self) -> (r: Vec<HealthStatus>)
        ensures
            r@.len() == self.unhealthy_statuses().len(),
            forall|i: int| 0 <= i < r@.len() ==> (#[trigger] r@[i]).same_as(self.unhealthy_statuses()[i]),
            forall|i: int| 0 <= i < r@.len() ==> !(#[trigger] r@[i]).healthy,
            forall|i: int| 0 <= i < r@.len() ==> self.holds_status(#[trigger] r@[i]),
            forall|u: UnitId| #[trigger] self.status_of(u) is Some && !self.status_of(u).unwrap().healthy
                ==> exists|i: int| 0 <= i < r@.len() && (#[trigger] r@[i]).same_as(self.status_of(u).unwrap()),
    {
        let mut out: Vec<HealthStatus> = Vec::new();
        let mut i: usize = 0;
        while i < self.statuses.len()
            invariant
                i <= self.statuses@.len(),
                out@.len() == unhealthy_of(self.statuses@.subrange(0, i as int)).len(),
                forall|j: int| 0 <= j < out@.len() ==> (#[trigger] out@[j]).same_as(
                    unhealthy_of(self.statuses@.subrange(0, i as int))[j],
                ),
            decreases self.statuses@.len() - i,
        {
            let ghost pre = self.statuses@.subrange(0, i as int);
            let ghost post = self.statuses@.subrange(0, i + 1);
            assert(post.drop_last() =~= pre);
            if !self.statuses[i].1.healthy {
                out.push(self.statuses[i].1.copy());
            }
            i = i + 1;
        }
        assert(self.statuses@.subrange(0, self.statuses@.len() as int) =~= self.statuses@);
        proof {
            use_type_invariant(self);
            lemma_unhealthy_all_unhealthy(self.statuses@);
            lemma_unhealthy_listed(self.statuses@, out@);
            lemma_unhealthy_entries(self.statuses@);
            assert forall|i: int| 0 <= i < out@.len() implies self.holds_status(#[trigger] out@[i]) by {
                lemma_listed_one(self.statuses@, out@, i);
                let u = choose|u: UnitId| #[trigger] status_same(lookup(self.statuses@, u), out@[i]);
                assert(status_same(self.status_of(u), out@[i]));
            }
        }
        out
    }
}

/// A pointwise copy of the unhealthy statuses holds each stored unhealthy
/// status, and only stored statuses.
proof fn lemma_unhealthy_listed(s: Seq<(UnitId, HealthStatus)>, out: Seq<HealthStatus>)
    requires
        keys_unique(s),
        out.len() == unhealthy_of(s).len(),
        forall|j: int| 0 <= j < out.len() ==> (#[trigger] out[j]).same_as(unhealthy_of(s)[j]),
    ensures
        forall|u: UnitId| #[trigger] lookup(s, u) is Some && !lookup(s, u).unwrap().healthy
            ==> exists|i: int| 0 <= i < out.len() && (#[trigger] out[i]).same_as(lookup(s, u).unwrap()),
{
    lemma_unhealthy_entries(s);
    assert forall|u: UnitId| #[trigger] lookup(s, u) is Some && !lookup(s, u).unwrap().healthy
        implies exists|i: int| 0 <= i < out.len() && (#[trigger] out[i]).same_as(lookup(s, u).unwrap()) by {
        let k = choose|k: int| keyed_at(s, u, k);
        lemma_lookup_at(s, k);
        let i = choose|i: int| 0 <= i < unhealthy_of(s).len() && unhealthy_of(s)[i] == s[k].1;
        assert(out[i].same_as(unhealthy_of(s)[i]));
    }
}

proof fn lemma_listed_one(s: Seq<(UnitId, HealthStatus)>, out: Seq<HealthStatus>, i: int)
    requires
        keys_unique(s),
        out.len() == unhealthy_of(s).len(),
        forall|j: int| 0 <= j < out.len() ==> (#[trigger] out[j]).same_as(unhealthy_of(s)[j]),
        forall|i: int| 0 <= i < unhealthy_of(s).len() ==> exists|k: int| 0 <= k < s.len() && s[k].1 == #[trigger] unhealthy_of(s)[i],
        0 <= i < out.len(),
    ensures
        exists|u: UnitId| #[trigger] status_same(lookup(s, u), out[i]),
{
    assert(unhealthy_of(s)[i] == unhealthy_of(s)[i]);
    let k = choose|k: int| 0 <= k < s.len() && s[k].1 == unhealthy_of(s)[i];
    lemma_lookup_at(s, k);
    assert(out[i].same_as(unhealthy_of(s)[i]));
    lemma_same_as_symmetric(out[i], s[k].1);
    assert(status_same(lookup(s, s[k].0), out[i]));
}

proof fn lemma_same_as_symmetric(a: HealthStatus, b: HealthStatus)
    requires a.same_as(b),
    ensures b.same_as(a),
{
}

/// The unhealthy statuses are exactly the unhealthy entries' statuses.
proof fn lemma_unhealthy_entries(s: Seq<(UnitId, HealthStatus)>)
    ensures
        forall|i: int| 0 <= i < unhealthy_of(s).len() ==> exists|k: int| 0 <= k < s.len() && s[k].1 == #[trigger] unhealthy_of(s)[i],
        forall|k: int| 0 <= k < s.len() && !(#[trigger] s[k]).1.healthy ==> exists|i: int| 0 <= i < unhealthy_of(s).len()
            && unhealthy_of(s)[i] == s[k].1,
    decreases s.len(),
{
    if s.len() > 0 {
        let t = s.drop_last();
        lemma_unhealthy_entries(t);
        assert forall|i: int| 0 <= i < unhealthy_of(s).len() implies exists|k: int| 0 <= k < s.len() && s[k].1 == #[trigger] unhealthy_of(s)[i] by {
            if i < unhealthy_of(t).len() {
                let k = choose|k: int| 0 <= k < t.len() && t[k].1 == unhealthy_of(t)[i];
                assert(s[k] == t[k]);
            } else {
                assert(s[s.len() - 1].1 == unhealthy_of(s)[i]);
            }
        }
        assert forall|k: int| 0 <= k < s.len() && !(#[trigger] s[k]).1.healthy implies exists|i: int| 0 <= i < unhealthy_of(s).len()
            && unhealthy_of(s)[i] == s[k].1 by {
            if k < t.len() {
                assert(s[k] == t[k]);
                assert(!t[k].1.healthy);
                let i = choose|i: int| 0 <= i < unhealthy_of(t).len() && unhealthy_of(t)[i] == t[k].1;
                assert(unhealthy_of(s)[i] == unhealthy_of(t)[i]);
            } else {
                assert(unhealthy_of(s)[unhealthy_of(t).len() as int] == s[k].1);
            }
        }
    }
}

proof fn lemma_unhealthy_all_unhealthy(s: Seq<(UnitId, HealthStatus)>)
    ensures forall|i: int| 0 <= i < unhealthy_of(s).len() ==> !(#[trigger] unhealthy_of(s)[i]).healthy,
    decreases s.len(),
{
    if s.len() > 0 {
        lemma_unhealthy_all_unhealthy(s.drop_last());
    }
}

} // verus!
