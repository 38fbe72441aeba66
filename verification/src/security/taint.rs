//! Taint: the effective classification of a data unit is the most
//! restrictive classification along its provenance, computed at query
//! time. Declassification needs at least two distinct signers.

use vstd::prelude::*;
use crate::common::{AuthorId, UnitId};
use crate::model::{class_rank, Classification, Unit};
use crate::security::error::SecurityError;
use crate::text::{decimal, push_decimal};
use crate::order::{copy_vec, lemma_push_contains};

verus! {

/// Why a provenance walk stopped.
#[derive(Clone, Copy, Debug, PartialEq, Eq, Structural)]
pub enum TaintFailure {
    /// The unit is not in the local store.
    NotFound,
    /// The unit is not a data unit.
    NotData,
}

/// `i` holds unit `id`.
pub open spec fn stored_at(units: Seq<(UnitId, Unit)>, id: UnitId, i: int) -> bool {
    0 <= i < units.len() && units[i].0 == id
}

/// The stored unit with identifier `id`.
pub open spec fn lookup(units: Seq<(UnitId, Unit)>, id: UnitId) -> Option<Unit> {
    if exists|i: int| stored_at(units, id, i) {
        Some(units[choose|i: int| stored_at(units, id, i)].1)
    } else {
        None
    }
}

/// `rank` decreases along provenance: every stored input of a stored data
/// unit ranks below it. Such a rank exists exactly when the stored
/// provenance has no cycle.
pub open spec fn ranked(units: Seq<(UnitId, Unit)>, rank: spec_fn(UnitId) -> nat) -> bool {
    forall|i: int, k: int| #![trigger units[i], rank(units[i].0), units[i].1->Data_0.provenance->Some_0.inputs@[k]]
        0 <= i < units.len() && units[i].1 is Data && units[i].1->Data_0.provenance is Some
            && 0 <= k < units[i].1->Data_0.provenance->Some_0.inputs@.len()
            && lookup(units, units[i].1->Data_0.provenance->Some_0.inputs@[k]) is Some
            ==> rank(units[i].1->Data_0.provenance->Some_0.inputs@[k]) < rank(units[i].0)
}

/// The taint of unit `id`: its own classification joined with the taint of
/// each input in order; the first missing or non-data unit met stops the
/// walk.
pub open spec fn taint_of(units: Seq<(UnitId, Unit)>, rank: spec_fn(UnitId) -> nat, id: UnitId) -> Result<Classification, (UnitId, TaintFailure)>
    decreases rank(id), 1nat,
{
    match lookup(units, id) {
        None => Err((id, TaintFailure::NotFound)),
        Some(u) => match u {
            Unit::Data(d) => match d.provenance {
                None => Ok(d.classification),
                Some(p) => fold_taint(units, rank, id, p.inputs@, p.inputs@.len(), d.classification),
            },
            _ => Err((id, TaintFailure::NotData)),
        },
    }
}

/// The taint over the first `k` inputs of `owner`, starting from `own`.
pub open spec fn fold_taint(units: Seq<(UnitId, Unit)>, rank: spec_fn(UnitId) -> nat, owner: UnitId, inputs: Seq<UnitId>, k: nat, own: Classification) -> Result<Classification, (UnitId, TaintFailure)>
    decreases rank(owner), 0nat, k,
{
    if k == 0 {
        Ok(own)
    } else {
        match fold_taint(units, rank, owner, inputs, (k - 1) as nat, own) {
            Err(e) => Err(e),
            Ok(acc) => {
                let x = inputs[k - 1];
                if lookup(units, x) is None || rank(x) >= rank(owner) {
                    Err((x, TaintFailure::NotFound))
                } else {
                    match taint_of(units, rank, x) {
                        Err(e) => Err(e),
                        Ok(c) => Ok(acc.join(c)),
                    }
                }
            },
        }
    }
}

/// The stored provenance has no cycle.
pub open spec fn acyclic(units: Seq<(UnitId, Unit)>) -> bool {
    exists|rank: spec_fn(UnitId) -> nat| ranked(units, rank)
}

/// The taint of `id` in an acyclic store.
pub open spec fn taint_result(units: Seq<(UnitId, Unit)>, id: UnitId) -> Result<Classification, (UnitId, TaintFailure)> {
    taint_of(units, choose|rank: spec_fn(UnitId) -> nat| ranked(units, rank), id)
}

/// `"data unit not found in local store"`.
pub open spec fn not_found_text() -> Seq<char> {
    seq!['d', 'a', 't', 'a', ' ', 'u', 'n', 'i', 't', ' ', 'n', 'o', 't', ' ', 'f', 'o', 'u', 'n', 'd', ' ', 'i', 'n',
        ' ', 'l', 'o', 'c', 'a', 'l', ' ', 's', 't', 'o', 'r', 'e']
}

/// `"unit is not a data unit"`.
pub open spec fn not_data_text() -> Seq<char> {
    seq!['u', 'n', 'i', 't', ' ', 'i', 's', ' ', 'n', 'o', 't', ' ', 'a', ' ', 'd', 'a', 't', 'a', ' ', 'u', 'n', 'i',
        't']
}

/// The error for a failed walk.
pub open spec fn taint_error(f: (UnitId, TaintFailure), e: SecurityError) -> bool {
    e matches SecurityError::BrokenProvenance { unit, reason } && unit == f.0 && reason@ == match f.1 {
        TaintFailure::NotFound => not_found_text(),
        TaintFailure::NotData => not_data_text(),
    }
}

/// Stored identifiers are distinct.
pub open spec fn keys_unique(units: Seq<(UnitId, Unit)>) -> bool {
    forall|i: int, j: int| 0 <= i < j < units.len() ==> (#[trigger] units[i]).0 != (#[trigger] units[j]).0
}

/// Computes taint over an in-memory store of units.
pub struct DefaultTaintComputer {
    units: Vec<(UnitId, Unit)>,
    declassification_signers: Vec<(UnitId, Vec<AuthorId>)>,
}

impl DefaultTaintComputer {
    /// The stored units, by identifier.
    pub closed spec fn units(&self) -> Seq<(UnitId, Unit)> {
        self.units@
    }

    /// The registered signers of each declassification policy.
    pub closed spec fn signers(&self) -> Seq<(UnitId, Vec<AuthorId>)> {
        self.declassification_signers@
    }

    #[verifier::type_invariant]
    spec fn well_formed(self) -> bool {
        &&& keys_unique(self.units@)
        &&& forall|i: int| 0 <= i < self.units@.len() ==> (#[trigger] self.units@[i]).0 == self.units@[i].1.header_spec().id
        &&& forall|i: int, j: int| 0 <= i < j < self.declassification_signers@.len()
            ==> (#[trigger] self.declassification_signers@[i]).0 != (#[trigger] self.declassification_signers@[j]).0
        &&& forall|i: int| 0 <= i < self.declassification_signers@.len()
            ==> (#[trigger] self.declassification_signers@[i]).1@.no_duplicates()
    }

    /// An empty computer.
    pub fn new() -> (r: Self)
        ensures r.units().len() == 0, r.signers().len() == 0,
    {
        DefaultTaintComputer { units: Vec::new(), declassification_signers: Vec::new() }
    }

    fn find(&self, id: UnitId) -> (r: Option<usize>)
        ensures
            match r {
                Some(i) => stored_at(self.units(), id, i as int) && lookup(self.units(), id) == Some(self.units()[i as int].1),
                None => lookup(self.units(), id) is None,
            },
    {
        proof {
            use_type_invariant(self);
        }
        let mut i: usize = 0;
        while i < self.units.len()
            invariant
                i <= self.units@.len(),
                keys_unique(self.units@),
                forall|j: int| 0 <= j < i ==> (#[trigger] self.units@[j]).0 != id,
            decreases self.units@.len() - i,
        {
            if self.units[i].0.0 == id.0 {
                proof {
                    assert(stored_at(self.units@, id, i as int));
                    let c = choose|c: int| stored_at(self.units@, id, c);
                    if c < i {
                        assert(self.units@[c].0 != self.units@[i as int].0);
                    } else if c > i {
                        assert(self.units@[i as int].0 != self.units@[c].0);
                    }
                }
                return Some(i);
            }
            i = i + 1;
        }
        proof {
            if exists|c: int| stored_at(self.units@, id, c) {
                let c = choose|c: int| stored_at(self.units@, id, c);
                assert(self.units@[c].0 != id);
            }
        }
        None
    }

    /// Adds a unit, replacing any stored unit with the same identifier.
    pub fn add_unit(&mut self, unit: Unit)
        ensures
            lookup(final(self).units(), unit.header_spec().id) == Some(unit),
            forall|id: UnitId| id != unit.header_spec().id ==> lookup(final(self).units(), id) == lookup(old(self).units(), id),
            final(self).signers() == old(self).signers(),
    {
        proof {
            use_type_invariant(&*self);
        }
        let id = unit.id();
        let ghost before = self.units@;
        let found = self.find(id);
        let mut v: Vec<(UnitId, Unit)> = Vec::new();
        std::mem::swap(&mut v, &mut self.units);
        match found {
            Some(i) => {
                v.set(i, (id, unit));
                proof {
                    lemma_store_replace(before, v@, i as int);
                }
            },
            None => {
                v.push((id, unit));
                proof {
                    lemma_store_push(before, v@);
                }
            },
        }
        self.units = v;
    }
}

proof fn lemma_store_replace(before: Seq<(UnitId, Unit)>, after: Seq<(UnitId, Unit)>, i: int)
    requires
        0 <= i < before.len(),
        keys_unique(before),
        after.len() == before.len(),
        after[i].0 == before[i].0,
        forall|j: int| 0 <= j < before.len() && j != i ==> after[j] == before[j],
    ensures
        keys_unique(after),
        lookup(after, after[i].0) == Some(after[i].1),
        forall|id: UnitId| id != after[i].0 ==> lookup(after, id) == lookup(before, id),
{
    assert forall|a: int, b: int| 0 <= a < b < after.len() implies (#[trigger] after[a]).0 != (#[trigger] after[b]).0 by {
        assert(before[a].0 != before[b].0);
        if a != i {
            assert(after[a] == before[a]);
        }
        if b != i {
            assert(after[b] == before[b]);
        }
    }
    let key = after[i].0;
    assert(stored_at(after, key, i));
    let c = choose|c: int| stored_at(after, key, c);
    if c < i {
        assert(after[c].0 != after[i].0);
    } else if c > i {
        assert(after[i].0 != after[c].0);
    }
    assert forall|id: UnitId| id != key implies lookup(after, id) == lookup(before, id) by {
        if exists|j: int| stored_at(before, id, j) {
            let j = choose|j: int| stored_at(before, id, j);
            assert(stored_at(after, id, j));
            let c2 = choose|c2: int| stored_at(after, id, c2);
            if c2 < j {
                assert(after[c2].0 != after[j].0);
            } else if c2 > j {
                assert(after[j].0 != after[c2].0);
            }
        }
        if exists|j: int| stored_at(after, id, j) {
            let j = choose|j: int| stored_at(after, id, j);
            assert(stored_at(before, id, j));
        }
    }
}

proof fn lemma_store_push(before: Seq<(UnitId, Unit)>, after: Seq<(UnitId, Unit)>)
    requires
        after.len() == before.len() + 1,
        keys_unique(before),
        forall|j: int| 0 <= j < before.len() ==> after[j] == before[j],
        lookup(before, after[before.len() as int].0) is None,
    ensures
        keys_unique(after),
        lookup(after, after[before.len() as int].0) == Some(after[before.len() as int].1),
        forall|id: UnitId| id != after[before.len() as int].0 ==> lookup(after, id) == lookup(before, id),
{
    let n = before.len() as int;
    let key = after[n].0;
    assert forall|a: int, b: int| 0 <= a < b < after.len() implies (#[trigger] after[a]).0 != (#[trigger] after[b]).0 by {
        assert(after[a] == before[a]);
        if b < n {
            assert(after[b] == before[b]);
        } else {
            assert(!stored_at(before, key, a));
        }
    }
    assert(stored_at(after, key, n));
    let c = choose|c: int| stored_at(after, key, c);
    if c < n {
        assert(after[c].0 != after[n].0);
    }
    assert forall|id: UnitId| id != key implies lookup(after, id) == lookup(before, id) by {
        if exists|j: int| stored_at(before, id, j) {
            let j = choose|j: int| stored_at(before, id, j);
            assert(stored_at(after, id, j));
            let c2 = choose|c2: int| stored_at(after, id, c2);
            if c2 < j {
                assert(after[c2].0 != after[j].0);
            } else if c2 > j {
                assert(after[j].0 != after[c2].0);
            }
        }
        if exists|j: int| stored_at(after, id, j) {
            let j = choose|j: int| stored_at(after, id, j);
            assert(j != n);
            assert(stored_at(before, id, j));
        }
    }
}

/// Once a prefix fails, every longer prefix fails the same way.
proof fn lemma_fold_err(units: Seq<(UnitId, Unit)>, rank: spec_fn(UnitId) -> nat, owner: UnitId, inputs: Seq<UnitId>, k: nat, m: nat, own: Classification)
    requires
        k <= m,
        fold_taint(units, rank, owner, inputs, k, own) is Err,
    ensures
        fold_taint(units, rank, owner, inputs, m, own) == fold_taint(units, rank, owner, inputs, k, own),
    decreases m - k,
{
    if k < m {
        lemma_fold_err(units, rank, owner, inputs, k, (m - 1) as nat, own);
    }
}

impl DefaultTaintComputer {
    fn taint_rec(&self, id: UnitId, Ghost(rank): Ghost<spec_fn(UnitId) -> nat>) -> (r: Result<Classification, SecurityError>)
        requires
            ranked(self.units(), rank),
        ensures
            match taint_of(self.units(), rank, id) {
                Ok(c) => r matches Ok(c2) && c2 == c,
                Err(f) => r matches Err(e) && taint_error(f, e),
            },
        decreases rank(id),
    {
        proof {
            reveal_strlit("data unit not found in local store");
            reveal_strlit("unit is not a data unit");
            assert("data unit not found in local store"@ == not_found_text());
            assert("unit is not a data unit"@ == not_data_text());
        }
        let i = match self.find(id) {
            None => {
                return Err(SecurityError::BrokenProvenance { unit: id, reason: "data unit not found in local store".to_string() });
            },
            Some(i) => i,
        };
        match &self.units[i].1 {
            Unit::Data(d) => match &d.provenance {
                None => Ok(d.classification),
                Some(p) => {
                    let ghost inputs = p.inputs@;
                    let mut result = d.classification;
                    let mut k: usize = 0;
                    while k < p.inputs.len()
                        invariant
                            k <= p.inputs@.len(),
                            inputs == p.inputs@,
                            "data unit not found in local store"@ == not_found_text(),
                            i < self.units@.len(),
                            self.units@[i as int].1 == Unit::Data(*d),
                            d.provenance == Some(*p),
                            self.units@[i as int].0 == id,
                            ranked(self.units(), rank),
                            lookup(self.units(), id) == Some(self.units()[i as int].1),
                            fold_taint(self.units(), rank, id, inputs, k as nat, d.classification) == Ok::<Classification, (UnitId, TaintFailure)>(result),
                        decreases p.inputs@.len() - k,
                    {
                        let x = p.inputs[k];
                        match self.find(x) {
                            None => {
                                proof {
                                    assert(x == inputs[k as int]);
                                    assert(fold_taint(self.units(), rank, id, inputs, (k + 1) as nat, d.classification)
                                        == Err::<Classification, (UnitId, TaintFailure)>((x, TaintFailure::NotFound)));
                                    lemma_fold_err(self.units(), rank, id, inputs, (k + 1) as nat, inputs.len(), d.classification);
                                }
                                return Err(SecurityError::BrokenProvenance { unit: x, reason: "data unit not found in local store".to_string() });
                            },
                            Some(_) => {},
                        }
                        proof {
                            assert(rank(inputs[k as int]) < rank(self.units@[i as int].0));
                        }
                        match self.taint_rec(x, Ghost(rank)) {
                            Err(e) => {
                                proof {
                                    lemma_fold_err(self.units(), rank, id, inputs, (k + 1) as nat, inputs.len(), d.classification);
                                }
                                return Err(e);
                            },
                            Ok(c) => {
                                result = result.union(c);
                            },
                        }
                        k = k + 1;
                    }
                    Ok(result)
                },
            },
            _ => Err(SecurityError::BrokenProvenance { unit: id, reason: "unit is not a data unit".to_string() }),
        }
    }

    /// The effective classification of a data unit: the most restrictive
    /// along its provenance in the local store; a broken provenance when a
    /// unit on the way is missing or is not a data unit.
    pub fn compute_taint(&self, data_unit: &UnitId) -> (r: Result<Classification, SecurityError>)
        requires
            acyclic(self.units()),
        ensures
            match taint_result(self.units(), *data_unit) {
                Ok(c) => r matches Ok(c2) && c2 == c,
                Err(f) => r matches Err(e) && taint_error(f, e),
            },
    {
        let ghost rank = choose|rank: spec_fn(UnitId) -> nat| ranked(self.units(), rank);
        self.taint_rec(*data_unit, Ghost(rank))
    }
}

proof fn lemma_fold_bounds(units: Seq<(UnitId, Unit)>, rank: spec_fn(UnitId) -> nat, owner: UnitId, inputs: Seq<UnitId>, k: nat, own: Classification, acc: Classification)
    requires
        k <= inputs.len(),
        fold_taint(units, rank, owner, inputs, k, own) == Ok::<Classification, (UnitId, TaintFailure)>(acc),
    ensures
        class_rank(acc) >= class_rank(own),
        forall|j: int| 0 <= j < k ==> ((#[trigger] taint_of(units, rank, inputs[j])) matches Ok(c) && class_rank(acc) >= class_rank(c)),
    decreases k,
{
    if k > 0 {
        let prev = fold_taint(units, rank, owner, inputs, (k - 1) as nat, own);
        if let Ok(a0) = prev {
            lemma_fold_bounds(units, rank, owner, inputs, (k - 1) as nat, own, a0);
            let x = inputs[k - 1];
            assert(taint_of(units, rank, x) is Ok);
            assert forall|j: int| 0 <= j < k implies ((#[trigger] taint_of(units, rank, inputs[j])) matches Ok(c) && class_rank(acc) >= class_rank(c)) by {
                if j < k - 1 {
                    assert(taint_of(units, rank, inputs[j]) matches Ok(c2) && class_rank(a0) >= class_rank(c2));
                }
            }
        }
    }
}

/// Taint is the most restrictive classification along the provenance:
/// the taint of a data unit in an acyclic store is at least as restrictive
/// as the unit's own classification and as the taint of each of its
/// inputs.
pub proof fn lemma_taint_most_restrictive(units: Seq<(UnitId, Unit)>, id: UnitId, c: Classification)
    requires
        acyclic(units),
        taint_result(units, id) == Ok::<Classification, (UnitId, TaintFailure)>(c),
    ensures
        lookup(units, id) matches Some(Unit::Data(d)) && class_rank(c) >= class_rank(d.classification)
            && (d.provenance matches Some(p) ==> (forall|j: int| 0 <= j < p.inputs@.len()
                ==> ((#[trigger] taint_result(units, p.inputs@[j])) matches Ok(cj) && class_rank(c) >= class_rank(cj)))),
{
    let rank = choose|rank: spec_fn(UnitId) -> nat| ranked(units, rank);
    assert(taint_of(units, rank, id) == Ok::<Classification, (UnitId, TaintFailure)>(c));
    if let Some(Unit::Data(d)) = lookup(units, id) {
        if let Some(p) = d.provenance {
            lemma_fold_bounds(units, rank, id, p.inputs@, p.inputs@.len(), d.classification, c);
            assert forall|j: int| 0 <= j < p.inputs@.len()
                implies ((#[trigger] taint_result(units, p.inputs@[j])) matches Ok(cj) && class_rank(c) >= class_rank(cj)) by {
                assert(taint_of(units, rank, p.inputs@[j]) matches Ok(cj) && class_rank(c) >= class_rank(cj));
            }
        }
    }
}

/// `"provenance cycle"`.
pub open spec fn cycle_text() -> Seq<char> {
    seq!['p', 'r', 'o', 'v', 'e', 'n', 'a', 'n', 'c', 'e', ' ', 'c', 'y', 'c', 'l', 'e']
}

/// Stored data unit `a` lists `b` among its provenance inputs.
pub open spec fn prov_edge(units: Seq<(UnitId, Unit)>, a: UnitId, b: UnitId) -> bool {
    match lookup(units, a) {
        Some(Unit::Data(d)) => match d.provenance {
            Some(p) => p.inputs@.contains(b),
            None => false,
        },
        _ => false,
    }
}

/// `s` follows provenance: each unit lists the next among its inputs.
pub open spec fn prov_walk(units: Seq<(UnitId, Unit)>, s: Seq<UnitId>) -> bool {
    s.len() > 0 && forall|i: int| 0 <= i < s.len() - 1 ==> #[trigger] prov_edge(units, s[i], s[i + 1])
}

/// Following provenance from `root` leads back to `x`: `x` lies on a
/// provenance cycle that `root` reaches.
pub open spec fn cycle_reached(units: Seq<(UnitId, Unit)>, root: UnitId, x: UnitId) -> bool {
    exists|s: Seq<UnitId>| #[trigger] prov_walk(units, s) && s[0] == root && s.contains(x) && prov_edge(units, s.last(), x)
}

/// A walk of distinct stored units is no longer than the store.
proof fn lemma_walk_bound(units: Seq<(UnitId, Unit)>, s: Seq<UnitId>)
    requires
        s.no_duplicates(),
        forall|i: int| 0 <= i < s.len() ==> lookup(units, #[trigger] s[i]) is Some,
    ensures
        s.len() <= units.len(),
{
    broadcast use vstd::seq_lib::seq_to_set_is_finite;
    let keys = units.map_values(|p: (UnitId, Unit)| p.0);
    assert forall|x: UnitId| s.to_set().contains(x) implies keys.to_set().contains(x) by {
        let i = choose|i: int| 0 <= i < s.len() && s[i] == x;
        assert(lookup(units, s[i]) is Some);
        let j = choose|j: int| stored_at(units, x, j);
        assert(keys[j] == x);
        assert(keys.contains(x));
    }
    vstd::set_lib::lemma_len_subset(s.to_set(), keys.to_set());
    s.unique_seq_to_set();
    keys.lemma_cardinality_of_set();
}

impl DefaultTaintComputer {
    fn taint_walk(&self, id: UnitId, path: &Vec<UnitId>, Ghost(rank): Ghost<spec_fn(UnitId) -> nat>, Ghost(root): Ghost<UnitId>)
        -> (r: Result<Classification, SecurityError>)
        requires
            prov_walk(self.units(), path@),
            path@[0] == root,
            path@.last() == id,
            path@.no_duplicates(),
            forall|i: int| 0 <= i < path@.len() - 1 ==> lookup(self.units(), #[trigger] path@[i]) is Some,
            ranked(self.units(), rank) ==> forall|i: int| 0 <= i < path@.len() - 1 ==> rank(#[trigger] path@[i]) > rank(id),
        ensures
            ranked(self.units(), rank) ==> match taint_of(self.units(), rank, id) {
                Ok(c) => r matches Ok(c2) && c2 == c,
                Err(f) => r matches Err(e) && taint_error(f, e),
            },
            r matches Err(SecurityError::BrokenProvenance { unit, reason }) ==> (reason@ == cycle_text()
                ==> cycle_reached(self.units(), root, unit)),
        decreases self.units@.len() - path@.len(),
    {
        proof {
            reveal_strlit("data unit not found in local store");
            reveal_strlit("unit is not a data unit");
            reveal_strlit("provenance cycle");
            assert("data unit not found in local store"@ == not_found_text());
            assert("unit is not a data unit"@ == not_data_text());
            assert("provenance cycle"@ == cycle_text());
        }
        let i = match self.find(id) {
            None => {
                return Err(SecurityError::BrokenProvenance { unit: id, reason: "data unit not found in local store".to_string() });
            },
            Some(i) => i,
        };
        proof {
            assert forall|q: int| 0 <= q < path@.len() implies lookup(self.units(), #[trigger] path@[q]) is Some by {
                if q == path@.len() - 1 {
                    assert(path@[q] == id);
                }
            }
            lemma_walk_bound(self.units(), path@);
        }
        match &self.units[i].1 {
            Unit::Data(d) => match &d.provenance {
                None => Ok(d.classification),
                Some(p) => {
                    let ghost inputs = p.inputs@;
                    let mut result = d.classification;
                    let mut k: usize = 0;
                    while k < p.inputs.len()
                        invariant
                            k <= p.inputs@.len(),
                            inputs == p.inputs@,
                            "data unit not found in local store"@ == not_found_text(),
                            "provenance cycle"@ == cycle_text(),
                            i < self.units@.len(),
                            self.units@[i as int].1 == Unit::Data(*d),
                            d.provenance == Some(*p),
                            self.units@[i as int].0 == id,
                            lookup(self.units(), id) == Some(self.units()[i as int].1),
                            prov_walk(self.units(), path@),
                            path@[0] == root,
                            path@.last() == id,
                            path@.no_duplicates(),
                            path@.len() <= self.units@.len(),
                            forall|q: int| 0 <= q < path@.len() ==> lookup(self.units(), #[trigger] path@[q]) is Some,
                            ranked(self.units(), rank) ==> forall|q: int| 0 <= q < path@.len() - 1 ==> rank(#[trigger] path@[q]) > rank(id),
                            ranked(self.units(), rank) ==> fold_taint(self.units(), rank, id, inputs, k as nat, d.classification)
                                == Ok::<Classification, (UnitId, TaintFailure)>(result),
                        decreases p.inputs@.len() - k,
                    {
                        let x = p.inputs[k];
                        proof {
                            assert(inputs.contains(x));
                            assert(prov_edge(self.units(), id, x));
                        }
                        match self.find(x) {
                            None => {
                                proof {
                                    if ranked(self.units(), rank) {
                                        assert(x == inputs[k as int]);
                                        assert(fold_taint(self.units(), rank, id, inputs, (k + 1) as nat, d.classification)
                                            == Err::<Classification, (UnitId, TaintFailure)>((x, TaintFailure::NotFound)));
                                        lemma_fold_err(self.units(), rank, id, inputs, (k + 1) as nat, inputs.len(), d.classification);
                                    }
                                }
                                return Err(SecurityError::BrokenProvenance { unit: x, reason: "data unit not found in local store".to_string() });
                            },
                            Some(_) => {},
                        }
                        proof {
                            if ranked(self.units(), rank) {
                                assert(rank(inputs[k as int]) < rank(self.units@[i as int].0));
                            }
                        }
                        if path_contains(path, x) {
                            proof {
                                if ranked(self.units(), rank) {
                                    let q = choose|q: int| 0 <= q < path@.len() && path@[q] == x;
                                    if q < path@.len() - 1 {
                                        assert(rank(path@[q]) > rank(id));
                                    }
                                }
                                assert(prov_walk(self.units(), path@) && path@[0] == root && path@.contains(x)
                                    && prov_edge(self.units(), path@.last(), x));
                            }
                            return Err(SecurityError::BrokenProvenance { unit: x, reason: "provenance cycle".to_string() });
                        }
                        let mut next = copy_vec(path);
                        next.push(x);
                        proof {
                            assert(next@ == path@.push(x));
                            assert forall|q: int| 0 <= q < next@.len() - 1 implies #[trigger] prov_edge(self.units(), next@[q], next@[q + 1]) by {
                                if q < path@.len() - 1 {
                                    assert(next@[q] == path@[q] && next@[q + 1] == path@[q + 1]);
                                } else {
                                    assert(next@[q] == id && next@[q + 1] == x);
                                }
                            }
                            assert forall|a: int, b: int| 0 <= a < b < next@.len() implies next@[a] != next@[b] by {
                                if b == next@.len() - 1 {
                                    assert(next@[a] == path@[a]);
                                    assert(path@.contains(path@[a]));
                                } else {
                                    assert(next@[a] == path@[a] && next@[b] == path@[b]);
                                }
                            }
                            assert forall|q: int| 0 <= q < next@.len() - 1 implies lookup(self.units(), #[trigger] next@[q]) is Some by {
                                assert(next@[q] == path@[q]);
                            }
                            assert forall|q: int| 0 <= q < next@.len() implies lookup(self.units(), #[trigger] next@[q]) is Some by {
                                if q < path@.len() {
                                    assert(next@[q] == path@[q]);
                                }
                            }
                            lemma_walk_bound(self.units(), next@);
                            if ranked(self.units(), rank) {
                                assert forall|q: int| 0 <= q < next@.len() - 1 implies rank(#[trigger] next@[q]) > rank(x) by {
                                    assert(next@[q] == path@[q]);
                                }
                            }
                        }
                        match self.taint_walk(x, &next, Ghost(rank), Ghost(root)) {
                            Err(e) => {
                                proof {
                                    if ranked(self.units(), rank) {
                                        lemma_fold_err(self.units(), rank, id, inputs, (k + 1) as nat, inputs.len(), d.classification);
                                    }
                                }
                                return Err(e);
                            },
                            Ok(c) => {
                                result = result.union(c);
                            },
                        }
                        k = k + 1;
                    }
                    Ok(result)
                },
            },
            _ => Err(SecurityError::BrokenProvenance { unit: id, reason: "unit is not a data unit".to_string() }),
        }
    }

    /// The effective classification of a data unit, computed without a
    /// precondition: where the stored provenance has no cycle, what
    /// `compute_taint` gives; a walk that comes back to a unit it is
    /// already on is refused as a broken provenance naming that unit, which
    /// then lies on a cycle that the data unit reaches.
    pub fn compute_taint_checked(&self, data_unit: &UnitId) -> (r: Result<Classification, SecurityError>)
        ensures
            acyclic(self.units()) ==> match taint_result(self.units(), *data_unit) {
                Ok(c) => r matches Ok(c2) && c2 == c,
                Err(f) => r matches Err(e) && taint_error(f, e),
            },
            r matches Err(SecurityError::BrokenProvenance { unit, reason }) ==> (reason@ == cycle_text()
                ==> cycle_reached(self.units(), *data_unit, unit)),
    {
        let ghost rank = choose|rank: spec_fn(UnitId) -> nat| ranked(self.units(), rank);
        let path: Vec<UnitId> = vec![*data_unit];
        proof {
            assert(path@.no_duplicates());
        }
        self.taint_walk(*data_unit, &path, Ghost(rank), Ghost(*data_unit))
    }
}

fn path_contains(path: &Vec<UnitId>, x: UnitId) -> (r: bool)
    ensures r == path@.contains(x),
{
    let mut i: usize = 0;
    while i < path.len()
        invariant
            i <= path@.len(),
            forall|j: int| 0 <= j < i ==> path@[j] != x,
        decreases path@.len() - i,
    {
        if path[i].0 == x.0 {
            return true;
        }
        i = i + 1;
    }
    false
}

/// The registered signers of policy `id`.
pub open spec fn signers_of(signers: Seq<(UnitId, Vec<AuthorId>)>, id: UnitId) -> Option<Seq<AuthorId>> {
    if exists|i: int| 0 <= i < signers.len() && (#[trigger] signers[i]).0 == id {
        Some(signers[choose|i: int| 0 <= i < signers.len() && (#[trigger] signers[i]).0 == id].1@)
    } else {
        None
    }
}

/// `"no signers found for declassification policy"`.
pub open spec fn no_signers_text() -> Seq<char> {
    seq!['n', 'o', ' ', 's', 'i', 'g', 'n', 'e', 'r', 's', ' ', 'f', 'o', 'u', 'n', 'd', ' ', 'f', 'o', 'r', ' ', 'd',
        'e', 'c', 'l', 'a', 's', 's', 'i', 'f', 'i', 'c', 'a', 't', 'i', 'o', 'n', ' ', 'p', 'o', 'l', 'i', 'c', 'y']
}

/// Why too few signers is refused.
pub open spec fn few_signers_text(n: nat) -> Seq<char> {
    seq!['d', 'e', 'c', 'l', 'a', 's', 's', 'i', 'f', 'i', 'c', 'a', 't', 'i', 'o', 'n', ' ', 'r', 'e', 'q', 'u', 'i',
        'r', 'e', 's', ' ', '2', ' ', 'd', 'i', 's', 't', 'i', 'n', 'c', 't', ' ', 's', 'i', 'g', 'n', 'e', 'r', 's', ',',
        ' ', 'g', 'o', 't', ' '] + decimal(n) + seq![' ', '(', 'I', 'N', 'V', '-', 'S', '9', ')']
}

fn dedup_authors(v: &Vec<AuthorId>) -> (r: Vec<AuthorId>)
    ensures
        r@.no_duplicates(),
        forall|a: AuthorId| r@.contains(a) <==> v@.contains(a),
{
    let mut out: Vec<AuthorId> = Vec::new();
    let mut i: usize = 0;
    while i < v.len()
        invariant
            i <= v@.len(),
            out@.no_duplicates(),
            forall|a: AuthorId| out@.contains(a) <==> v@.subrange(0, i as int).contains(a),
        decreases v@.len() - i,
    {
        let a = v[i];
        let mut seen = false;
        let mut j: usize = 0;
        while j < out.len()
            invariant
                j <= out@.len(),
                seen <==> exists|q: int| 0 <= q < j && out@[q] == a,
            decreases out@.len() - j,
        {
            if out[j].0 == a.0 {
                seen = true;
            }
            j = j + 1;
        }
        let ghost before = out@;
        proof {
            assert(v@.subrange(0, i + 1) =~= v@.subrange(0, i as int).push(a));
        }
        if !seen {
            out.push(a);
            proof {
                assert forall|x: int, y: int| 0 <= x < out@.len() && 0 <= y < out@.len() && x != y implies out@[x] != out@[y] by {
                    if x < before.len() && y < before.len() {
                    } else if x < before.len() {
                        assert(out@[y] == a);
                    } else {
                        assert(out@[x] == a);
                    }
                }
            }
        }
        proof {
            assert forall|b: AuthorId| out@.contains(b) <==> v@.subrange(0, i + 1).contains(b) by {
                lemma_push_contains(v@.subrange(0, i as int), a, b);
                lemma_push_contains(before, a, b);
                if seen {
                    let q = choose|q: int| 0 <= q < before.len() && before[q] == a;
                    assert(before.contains(a));
                }
            }
        }
        i = i + 1;
    }
    assert(v@.subrange(0, v@.len() as int) =~= v@);
    out
}

impl DefaultTaintComputer {
    /// Registers the signers of a declassification policy (each once),
    /// replacing any earlier registration for it.
    pub fn add_declassification_signers(&mut self, policy_id: UnitId, signers: Vec<AuthorId>)
        ensures
            signers_of(final(self).signers(), policy_id) matches Some(s) && s.no_duplicates()
                && forall|a: AuthorId| s.contains(a) <==> signers@.contains(a),
            forall|id: UnitId| id != policy_id ==> signers_of(final(self).signers(), id) == signers_of(old(self).signers(), id),
            final(self).units() == old(self).units(),
    {
        proof {
            use_type_invariant(&*self);
        }
        let set = dedup_authors(&signers);
        let ghost before = self.declassification_signers@;
        let mut found: Option<usize> = None;
        let mut i: usize = 0;
        while i < self.declassification_signers.len()
            invariant
                i <= self.declassification_signers@.len(),
                found matches Some(x) ==> x < self.declassification_signers@.len() && self.declassification_signers@[x as int].0 == policy_id,
                found is None ==> forall|j: int| 0 <= j < i ==> (#[trigger] self.declassification_signers@[j]).0 != policy_id,
            decreases self.declassification_signers@.len() - i,
        {
            if self.declassification_signers[i].0.0 == policy_id.0 {
                found = Some(i);
            }
            i = i + 1;
        }
        let mut v: Vec<(UnitId, Vec<AuthorId>)> = Vec::new();
        std::mem::swap(&mut v, &mut self.declassification_signers);
        match found {
            Some(x) => {
                v.set(x, (policy_id, set));
            },
            None => {
                v.push((policy_id, set));
            },
        }
        proof {
            let n = before.len() as int;
            let pos = match found { Some(x) => x as int, None => n };
            assert(v@[pos].0 == policy_id);
            assert forall|a: int, b: int| 0 <= a < b < v@.len() implies (#[trigger] v@[a]).0 != (#[trigger] v@[b]).0 by {
                if a != pos && b != pos {
                    assert(v@[a] == before[a] && v@[b] == before[b]);
                } else if a == pos {
                    if found is Some {
                        assert(v@[b] == before[b]);
                        assert(before[a].0 != before[b].0);
                    } else {
                        assert(false);
                    }
                } else {
                    assert(v@[a] == before[a]);
                    if found is Some {
                        assert(before[a].0 != before[b].0);
                    }
                }
            }
            assert(0 <= pos < v@.len() && v@[pos].0 == policy_id);
            let c = choose|c: int| 0 <= c < v@.len() && (#[trigger] v@[c]).0 == policy_id;
            if c < pos {
                assert(v@[c].0 != v@[pos].0);
            } else if c > pos {
                assert(v@[pos].0 != v@[c].0);
            }
            assert forall|id: UnitId| id != policy_id implies signers_of(v@, id) == signers_of(before, id) by {
                if exists|j: int| 0 <= j < before.len() && (#[trigger] before[j]).0 == id {
                    let j = choose|j: int| 0 <= j < before.len() && (#[trigger] before[j]).0 == id;
                    assert(j != pos);
                    assert(v@[j] == before[j]);
                    let c2 = choose|c2: int| 0 <= c2 < v@.len() && (#[trigger] v@[c2]).0 == id;
                    if c2 < j {
                        assert(v@[c2].0 != v@[j].0);
                    } else if c2 > j {
                        assert(v@[j].0 != v@[c2].0);
                    }
                }
                if exists|j: int| 0 <= j < v@.len() && (#[trigger] v@[j]).0 == id {
                    let j = choose|j: int| 0 <= j < v@.len() && (#[trigger] v@[j]).0 == id;
                    assert(j != pos);
                    assert(v@[j] == before[j]);
                }
            }
            assert forall|j: int| 0 <= j < v@.len() implies (#[trigger] v@[j]).1@.no_duplicates() by {
                if j != pos {
                    assert(v@[j] == before[j]);
                }
            }
        }
        self.declassification_signers = v;
    }

    /// Succeeds when the policy has at least two distinct signers.
    pub fn validate_declassification(&self, policy_unit: &UnitId) -> (r: Result<(), SecurityError>)
        ensures
            match signers_of(self.signers(), *policy_unit) {
                None => r matches Err(SecurityError::DeclassificationDenied { reason }) && reason@ == no_signers_text(),
                Some(s) => if s.len() >= 2 {
                    r is Ok
                } else {
                    r matches Err(SecurityError::DeclassificationDenied { reason }) && reason@ == few_signers_text(s.len())
                },
            },
    {
        proof {
            use_type_invariant(self);
            reveal_strlit("no signers found for declassification policy");
            reveal_strlit("declassification requires 2 distinct signers, got ");
            reveal_strlit(" (INV-S9)");
            assert("no signers found for declassification policy"@ == no_signers_text());
        }
        let mut i: usize = 0;
        while i < self.declassification_signers.len()
            invariant
                i <= self.declassification_signers@.len(),
                forall|j: int| 0 <= j < i ==> (#[trigger] self.declassification_signers@[j]).0 != *policy_unit,
                forall|a: int, b: int| 0 <= a < b < self.declassification_signers@.len()
                    ==> (#[trigger] self.declassification_signers@[a]).0 != (#[trigger] self.declassification_signers@[b]).0,
            decreases self.declassification_signers@.len() - i,
        {
            if self.declassification_signers[i].0.0 == policy_unit.0 {
                proof {
                    assert(self.declassification_signers@[i as int].0 == *policy_unit);
                    let c = choose|c: int| 0 <= c < self.declassification_signers@.len()
                        && (#[trigger] self.declassification_signers@[c]).0 == *policy_unit;
                    if c < i {
                        assert(self.declassification_signers@[c].0 != *policy_unit);
                    } else if c > i {
                        assert(self.declassification_signers@[i as int].0 != self.declassification_signers@[c].0);
                    }
                }
                let n = self.declassification_signers[i].1.len();
                if n >= 2 {
                    return Ok(());
                }
                let mut reason = String::new();
                proof {
                    reveal_strlit("declassification requires 2 distinct signers, got ");
                    reveal_strlit(" (INV-S9)");
                }
                reason.append("declassification requires 2 distinct signers, got ");
                push_decimal(&mut reason, n as u64);
                reason.append(" (INV-S9)");
                assert(reason@ =~= few_signers_text(n as nat));
                return Err(SecurityError::DeclassificationDenied { reason });
            }
            i = i + 1;
        }
        Err(SecurityError::DeclassificationDenied { reason: "no signers found for declassification policy".to_string() })
    }
}

} // verus!
