//! An in-memory unit store for tests.
//!
//! Units are kept by identifier: inserting a unit replaces any unit with
//! the same identifier, archiving removes it. There is no causal
//! buffering, so nothing is ever pending.

use vstd::prelude::*;
use crate::common::UnitId;
use crate::keyed::{keyed_at, keys_unique, lookup, lemma_lookup_at, lemma_lookup_update, lemma_lookup_push};
use crate::model::{Unit, UnitKind};

verus! {

/// Errors of the unit store.
#[derive(Clone, Copy, Debug, PartialEq, Eq, Structural)]
pub enum CoreError {
    /// No unit with this identifier is stored.
    UnitNotFound { id: UnitId },
}

/// In-memory store of units, keyed by identifier.
#[derive(Debug)]
pub struct InMemoryUnitStore {
    units: Vec<(UnitId, Unit)>,
}

/// The entry removed from a keyed sequence: every entry but the `i`-th.
pub open spec fn without<K, V>(s: Seq<(K, V)>, i: int) -> Seq<(K, V)> {
    s.subrange(0, i) + s.subrange(i + 1, s.len() as int)
}

impl InMemoryUnitStore {
    #[verifier::type_invariant]
    spec fn keyed_by_id(self) -> bool {
        &&& keys_unique(self.units@)
        &&& forall|i: int| 0 <= i < self.units@.len() ==> (#[trigger] self.units@[i]).0 == self.units@[i].1.header_spec().id
    }

    /// The unit stored under `id`, if any.
    pub closed spec fn stored(&self, id: UnitId) -> Option<Unit> {
        lookup(self.units@, id)
    }

    /// The store holds a unit with the same identifier and values as `v`.
    pub open spec fn holds(&self, v: Unit) -> bool {
        self.stored(v.header_spec().id) matches Some(u) && u.same_as(v)
    }

    /// An empty store.
    pub fn new() -> (r: Self)
        ensures
            forall|id: UnitId| r.stored(id) is None,
    {
        let r = InMemoryUnitStore { units: Vec::new() };
        assert forall|id: UnitId| r.stored(id) is None by {
            assert(!exists|i: int| keyed_at(r.units@, id, i));
        }
        r
    }

    /// The stored unit with this identifier.
    pub fn get(&self, id: &UnitId) -> (r: Result<Unit, CoreError>)
        ensures
            match self.stored(*id) {
                Some(u) => r matches Ok(v) && v.same_as(u),
                None => r == Err::<Unit, CoreError>(CoreError::UnitNotFound { id: *id }),
            },
    {
        proof {
            use_type_invariant(self);
        }
        match self.position(id) {
            Some(i) => {
                proof {
                    lemma_lookup_at(self.units@, i as int);
                }
                Ok(self.units[i].1.copy())
            },
            None => Err(CoreError::UnitNotFound { id: *id }),
        }
    }

    /// Whether a unit with this identifier is stored (never an error).
    pub fn contains(&self, id: &UnitId) -> (r: Result<bool, CoreError>)
        ensures
            r == Ok::<bool, CoreError>(self.stored(*id) is Some),
    {
        proof {
            use_type_invariant(self);
        }
        match self.position(id) {
            Some(i) => {
                proof {
                    lemma_lookup_at(self.units@, i as int);
                }
                Ok(true)
            },
            None => Ok(false),
        }
    }

    /// The index of the entry with this identifier, if any.
    fn position(&self, id: &UnitId) -> (r: Option<usize>)
        ensures
            match r {
                Some(i) => i < self.units@.len() && self.units@[i as int].0 == *id,
                None => forall|j: int| !keyed_at(self.units@, *id, j),
            },
    {
        let mut i: usize = 0;
        while i < self.units.len()
            invariant
                i <= self.units@.len(),
                forall|j: int| 0 <= j < i ==> self.units@[j].0 != *id,
            decreases self.units@.len() - i,
        {
            if self.units[i].0 == *id {
                return Some(i);
            }
            i = i + 1;
        }
        None
    }

    /// Stores the unit, replacing any unit with the same identifier (never
    /// an error).
    pub fn insert(&mut self, unit: Unit) -> (r: Result<(), CoreError>)
        ensures
            r == Ok::<(), CoreError>(()),
            final(self).stored(unit.header_spec().id) == Some(unit),
            forall|k: UnitId| k != unit.header_spec().id ==> final(self).stored(k) == old(self).stored(k),
    {
        proof {
            use_type_invariant(&*self);
        }
        let id = unit.id();
        let pos = self.position(&id);
        let mut units: Vec<(UnitId, Unit)> = Vec::new();
        std::mem::swap(&mut units, &mut self.units);
        let ghost before = units@;
        match pos {
            Some(i) => {
                units.set(i, (id, unit));
                proof {
                    lemma_lookup_update(before, units@, i as int);
                    assert forall|j: int| 0 <= j < units@.len() implies (#[trigger] units@[j]).0 == units@[j].1.header_spec().id by {
                        if j != i as int {
                            assert(units@[j] == before[j]);
                        }
                    }
                }
            },
            None => {
                units.push((id, unit));
                proof {
                    lemma_lookup_push(before, (id, unit));
                    assert forall|j: int| 0 <= j < units@.len() implies (#[trigger] units@[j]).0 == units@[j].1.header_spec().id by {
                        if j < before.len() {
                            assert(units@[j] == before[j]);
                        }
                    }
                }
            },
        }
        self.units = units;
        Ok(())
    }

    /// Removes the unit with this identifier; an error when none is stored.
    pub fn archive(&mut self, id: &UnitId) -> (r: Result<(), CoreError>)
        ensures
            r == (if old(self).stored(*id) is Some {
                Ok::<(), CoreError>(())
            } else {
                Err(CoreError::UnitNotFound { id: *id })
            }),
            final(self).stored(*id) is None,
            forall|k: UnitId| k != *id ==> final(self).stored(k) == old(self).stored(k),
    {
        proof {
            use_type_invariant(&*self);
        }
        match self.position(id) {
            Some(i) => {
                proof {
                    lemma_lookup_at(self.units@, i as int);
                }
                let mut units: Vec<(UnitId, Unit)> = Vec::new();
                std::mem::swap(&mut units, &mut self.units);
                let ghost before = units@;
                let _removed = units.remove(i);
                proof {
                    lemma_lookup_remove(before, i as int);
                    assert(units@ =~= without(before, i as int));
                    assert forall|j: int| 0 <= j < units@.len() implies (#[trigger] units@[j]).0 == units@[j].1.header_spec().id by {
                        if j < i as int {
                            assert(units@[j] == before[j]);
                        } else {
                            assert(units@[j] == before[j + 1]);
                        }
                    }
                }
                self.units = units;
                Ok(())
            },
            None => {
                proof {
                    assert(!exists|j: int| keyed_at(self.units@, *id, j));
                }
                Err(CoreError::UnitNotFound { id: *id })
            },
        }
    }

    /// The stored units of this kind, each once, in no promised order
    /// (never an error).
    pub fn list_by_kind(&self, kind: UnitKind) -> (r: Result<Vec<Unit>, CoreError>)
        ensures
            r matches Ok(v) && {
                &&& forall|i: int| 0 <= i < v@.len() ==> (#[trigger] v@[i]).kind_spec() == kind
                    && self.holds(v@[i])
                &&& forall|id: UnitId| (#[trigger] self.stored(id) matches Some(u) && u.kind_spec() == kind)
                    ==> exists|i: int| 0 <= i < v@.len() && (#[trigger] v@[i]).header_spec().id == id
                &&& forall|i: int, j: int| 0 <= i < j < v@.len()
                    ==> (#[trigger] v@[i]).header_spec().id != (#[trigger] v@[j]).header_spec().id
            },
    {
        proof {
            use_type_invariant(self);
        }
        let mut out: Vec<Unit> = Vec::new();
        let ghost mut idx: Seq<int> = Seq::empty();
        let mut i: usize = 0;
        while i < self.units.len()
            invariant
                i <= self.units@.len(),
                listed_upto(self.units@, idx, out@, kind, i as int),
            decreases self.units@.len() - i,
        {
            if self.units[i].1.kind() == kind {
                let ghost old_idx = idx;
                out.push(self.units[i].1.copy());
                proof {
                    idx = idx.push(i as int);
                    assert forall|k: int| 0 <= k < i + 1 && (#[trigger] self.units@[k]).1.kind_spec() == kind
                        implies exists|j: int| 0 <= j < idx.len() && idx[j] == k by {
                        if k == i as int {
                            assert(idx[idx.len() - 1] == k);
                        } else {
                            let j = choose|j: int| 0 <= j < old_idx.len() && old_idx[j] == k;
                            assert(idx[j] == k);
                        }
                    }
                }
            } else {
                proof {
                    assert forall|k: int| 0 <= k < i + 1 && (#[trigger] self.units@[k]).1.kind_spec() == kind
                        implies exists|j: int| 0 <= j < idx.len() && idx[j] == k by {}
                }
            }
            i = i + 1;
        }
        proof {
            lemma_listed(self.units@, idx, out@, kind);
        }
        Ok(out)
    }

    /// The units awaiting causal delivery: always none.
    pub fn list_pending(&self) -> (r: Result<Vec<Unit>, CoreError>)
        ensures
            r matches Ok(v) && v@.len() == 0,
    {
        Ok(Vec::new())
    }
}

impl Default for InMemoryUnitStore {
    /// An empty store.
    fn default() -> (r: Self)
        ensures
            forall|id: UnitId| r.stored(id) is None,
    {
        InMemoryUnitStore::new()
    }
}

/// The first `n` entries are keyed by their units' identifiers without
/// repeats, and `out` holds, in order, a copy of each of them of `kind`:
/// the one at index `idx[j]` for the `j`-th.
pub open spec fn listed_upto(units: Seq<(UnitId, Unit)>, idx: Seq<int>, out: Seq<Unit>, kind: UnitKind, n: int) -> bool {
    &&& keys_unique(units)
    &&& forall|k: int| 0 <= k < units.len() ==> (#[trigger] units[k]).0 == units[k].1.header_spec().id
    &&& idx.len() == out.len()
    &&& forall|a: int, b: int| 0 <= a < b < idx.len() ==> #[trigger] idx[a] < #[trigger] idx[b]
    &&& forall|j: int| 0 <= j < idx.len() ==> 0 <= #[trigger] idx[j] < n
        && units[idx[j]].1.same_as(out[j]) && units[idx[j]].1.kind_spec() == kind
    &&& forall|k: int| 0 <= k < n && (#[trigger] units[k]).1.kind_spec() == kind
        ==> exists|j: int| 0 <= j < idx.len() && idx[j] == k
}

/// A complete listing holds exactly the stored units of the kind, each once.
proof fn lemma_listed(units: Seq<(UnitId, Unit)>, idx: Seq<int>, out: Seq<Unit>, kind: UnitKind)
    requires
        listed_upto(units, idx, out, kind, units.len() as int),
    ensures
        forall|j: int| 0 <= j < out.len() ==> (#[trigger] out[j]).kind_spec() == kind
            && (lookup(units, out[j].header_spec().id) matches Some(u) && u.same_as(out[j])),
        forall|id: UnitId| (#[trigger] lookup(units, id) matches Some(u) && u.kind_spec() == kind)
            ==> exists|j: int| 0 <= j < out.len() && (#[trigger] out[j]).header_spec().id == id,
        forall|a: int, b: int| 0 <= a < b < out.len()
            ==> (#[trigger] out[a]).header_spec().id != (#[trigger] out[b]).header_spec().id,
{
    assert forall|j: int| 0 <= j < out.len() implies (#[trigger] out[j]).kind_spec() == kind
        && (lookup(units, out[j].header_spec().id) matches Some(u) && u.same_as(out[j])) by {
        let k = idx[j];
        lemma_lookup_at(units, k);
        assert(units[k].1.header_spec() == out[j].header_spec());
    }
    assert forall|id: UnitId| (#[trigger] lookup(units, id) matches Some(u) && u.kind_spec() == kind)
        implies exists|j: int| 0 <= j < out.len() && (#[trigger] out[j]).header_spec().id == id by {
        let k = choose|k: int| keyed_at(units, id, k);
        lemma_lookup_at(units, k);
        assert(units[k].1.kind_spec() == kind);
        let j = choose|j: int| 0 <= j < idx.len() && idx[j] == k;
        assert(units[k].1.header_spec() == out[j].header_spec());
    }
    assert forall|a: int, b: int| 0 <= a < b < out.len()
        implies (#[trigger] out[a]).header_spec().id != (#[trigger] out[b]).header_spec().id by {
        let (ka, kb) = (idx[a], idx[b]);
        assert(ka < kb);
        assert(units[ka].0 != units[kb].0);
        assert(units[ka].1.header_spec() == out[a].header_spec());
        assert(units[kb].1.header_spec() == out[b].header_spec());
    }
}

/// Removing entry `i` removes exactly its key.
pub proof fn lemma_lookup_remove<K, V>(before: Seq<(K, V)>, i: int)
    requires
        0 <= i < before.len(),
        keys_unique(before),
    ensures
        keys_unique(without(before, i)),
        lookup(without(before, i), before[i].0) is None,
        forall|k: K| k != before[i].0 ==> lookup(without(before, i), k) == lookup(before, k),
{
    let after = without(before, i);
    assert forall|j: int| 0 <= j < after.len() implies #[trigger] after[j] == (if j < i { before[j] } else { before[j + 1] }) by {}
    assert forall|a: int, b: int| 0 <= a < b < after.len() implies (#[trigger] after[a]).0 != (#[trigger] after[b]).0 by {
        let a2 = if a < i { a } else { a + 1 };
        let b2 = if b < i { b } else { b + 1 };
        assert(after[a] == before[a2]);
        assert(after[b] == before[b2]);
        assert(before[a2].0 != before[b2].0);
    }
    assert forall|j: int| !keyed_at(after, before[i].0, j) by {
        if 0 <= j < after.len() {
            let j2 = if j < i { j } else { j + 1 };
            assert(after[j] == before[j2]);
            if j2 < i {
                assert(before[j2].0 != before[i].0);
            } else {
                assert(before[i].0 != before[j2].0);
            }
        }
    }
    assert forall|k: K| k != before[i].0 implies lookup(after, k) == lookup(before, k) by {
        if exists|j: int| keyed_at(before, k, j) {
            let j = choose|j: int| keyed_at(before, k, j);
            assert(j != i);
            let j2 = if j < i { j } else { j - 1 };
            assert(after[j2] == before[j]);
            lemma_lookup_at(before, j);
            lemma_lookup_at(after, j2);
        }
        if exists|j: int| keyed_at(after, k, j) {
            let j = choose|j: int| keyed_at(after, k, j);
            let j2 = if j < i { j } else { j + 1 };
            assert(after[j] == before[j2]);
            assert(keyed_at(before, k, j2));
        }
    }
}

} // verus!
