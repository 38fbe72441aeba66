//! Runtime capability enforcement: zero default, fail closed.
//!
//! A unit may exercise only capabilities that were granted to it. Nothing
//! is granted by default, and a unit that was never granted anything is
//! denied every capability.

use vstd::prelude::*;
use crate::common::UnitId;
use crate::model::Capability;
use crate::security::error::SecurityError;
use crate::text::str_eq;

verus! {

/// What identifies a capability: its type, name and purpose.
pub open spec fn cap_key(c: Capability) -> (Seq<char>, Seq<char>, Option<Seq<char>>) {
    (
        c.cap_type@,
        c.name@,
        match c.purpose {
            Some(p) => Some(p@),
            None => None,
        },
    )
}

/// The text naming a capability in a denial: `type:name`.
pub open spec fn cap_text(c: Capability) -> Seq<char> {
    c.cap_type@ + seq![':'] + c.name@
}

/// Reason given when the unit holds grants but not this capability.
pub open spec fn not_granted_reason() -> Seq<char> {
    "capability not in granted set"@
}

/// Reason given when nothing was ever granted to the unit.
pub open spec fn unknown_unit_reason() -> Seq<char> {
    "unit unknown — no capabilities granted (fail closed, INV-S2)"@
}

/// Capability equality on all fields.
pub fn same_capability(a: &Capability, b: &Capability) -> (r: bool)
    ensures r == (cap_key(*a) == cap_key(*b)),
{
    if !str_eq(a.cap_type.as_str(), b.cap_type.as_str()) || !str_eq(a.name.as_str(), b.name.as_str()) {
        return false;
    }
    match (&a.purpose, &b.purpose) {
        (Some(p), Some(q)) => str_eq(p.as_str(), q.as_str()),
        (None, None) => true,
        _ => false,
    }
}

/// Holds, per unit, the set of capabilities granted to it.
#[derive(Debug)]
pub struct DefaultCapabilityEnforcer {
    /// Units that have a (possibly empty) granted set.
    units: Vec<UnitId>,
    /// Granted (unit, capability) pairs.
    grants: Vec<(UnitId, Capability)>,
}

impl DefaultCapabilityEnforcer {
    #[verifier::type_invariant]
    spec fn grants_of_known_units(self) -> bool {
        forall|i: int| 0 <= i < self.grants@.len() ==> self.units@.contains(#[trigger] self.grants@[i].0)
    }

    /// The capabilities granted to a unit.
    pub closed spec fn granted(&self, u: UnitId) -> Set<(Seq<char>, Seq<char>, Option<Seq<char>>)> {
        Set::new(
            |k: (Seq<char>, Seq<char>, Option<Seq<char>>)|
                exists|i: int|
                    0 <= i < self.grants@.len() && self.grants@[i].0 == u && cap_key(
                        #[trigger] self.grants@[i].1,
                    ) == k,
        )
    }

    /// The unit has a granted set (possibly empty).
    pub closed spec fn known(&self, u: UnitId) -> bool {
        self.units@.contains(u)
    }

    /// The granted set of a unit; `None` for a unit never granted anything.
    pub open spec fn granted_set(&self, u: UnitId) -> Option<Set<(Seq<char>, Seq<char>, Option<Seq<char>>)>> {
        if self.known(u) {
            Some(self.granted(u))
        } else {
            None
        }
    }

    /// The unit may exercise the capability.
    pub open spec fn allows(&self, u: UnitId, c: Capability) -> bool {
        self.granted_set(u) matches Some(s) && s.contains(cap_key(c))
    }

    /// `e` is the denial of `c` for `u`.
    pub open spec fn denial(&self, u: UnitId, c: Capability, e: SecurityError) -> bool {
        e matches SecurityError::CapabilityDenied { capability, reason } && capability@ == cap_text(c)
            && reason@ == if self.known(u) {
            not_granted_reason()
        } else {
            unknown_unit_reason()
        }
    }

    /// Creates an enforcer that grants nothing.
    pub fn new() -> (r: Self)
        ensures forall|u: UnitId| r.granted_set(u) is None,
    {
        DefaultCapabilityEnforcer { units: Vec::new(), grants: Vec::new() }
    }

    fn is_known(&self, u: &UnitId) -> (r: bool)
        ensures r == self.known(*u),
    {
        let mut i: usize = 0;
        while i < self.units.len()
            invariant
                i <= self.units@.len(),
                forall|j: int| 0 <= j < i ==> self.units@[j] != *u,
            decreases self.units@.len() - i,
        {
            if self.units[i] == *u {
                return true;
            }
            i = i + 1;
        }
        false
    }

    fn holds(&self, u: &UnitId, c: &Capability) -> (r: bool)
        ensures r == self.granted(*u).contains(cap_key(*c)),
    {
        let mut i: usize = 0;
        while i < self.grants.len()
            invariant
                i <= self.grants@.len(),
                forall|j: int| 0 <= j < i ==> !(self.grants@[j].0 == *u && cap_key(#[trigger] self.grants@[j].1) == cap_key(*c)),
            decreases self.grants@.len() - i,
        {
            if self.grants[i].0 == *u && same_capability(&self.grants[i].1, c) {
                assert(self.granted(*u).contains(cap_key(*c)));
                return true;
            }
            i = i + 1;
        }
        false
    }

    fn remember(&mut self, u: UnitId)
        ensures
            forall|v: UnitId| final(self).known(v) == (old(self).known(v) || v == u),
            final(self).grants@ == old(self).grants@,
    {
        if !self.is_known(&u) {
            let mut tmp = DefaultCapabilityEnforcer::new();
            std::mem::swap(&mut tmp, self);
            proof {
                use_type_invariant(&tmp);
            }
            let ghost old_units = tmp.units@;
            let DefaultCapabilityEnforcer { mut units, grants } = tmp;
            units.push(u);
            proof {
                assert forall|i: int| 0 <= i < grants@.len() implies units@.contains(#[trigger] grants@[i].0) by {
                    assert(old_units.contains(grants@[i].0));
                    let j = choose|j: int| 0 <= j < old_units.len() && old_units[j] == grants@[i].0;
                    assert(units@[j] == grants@[i].0);
                }
                assert forall|v: UnitId| units@.contains(v) == (old_units.contains(v) || v == u) by {
                    if old_units.contains(v) {
                        let j = choose|j: int| 0 <= j < old_units.len() && old_units[j] == v;
                        assert(units@[j] == v);
                    }
                    if v == u {
                        assert(units@[units@.len() - 1] == v);
                    }
                    if units@.contains(v) {
                        let j = choose|j: int| 0 <= j < units@.len() && units@[j] == v;
                        if j < old_units.len() {
                            assert(old_units[j] == v);
                        }
                    }
                }
            }
            *self = DefaultCapabilityEnforcer { units, grants };
        }
    }

    fn push_grant(&mut self, u: UnitId, c: Capability)
        requires old(self).known(u),
        ensures
            final(self).units@ == old(self).units@,
            final(self).grants@ == old(self).grants@.push((u, c)),
    {
        let mut tmp = DefaultCapabilityEnforcer::new();
        std::mem::swap(&mut tmp, self);
        proof {
            use_type_invariant(&tmp);
        }
        let DefaultCapabilityEnforcer { units, mut grants } = tmp;
        grants.push((u, c));
        *self = DefaultCapabilityEnforcer { units, grants };
    }

    /// Grants a capability to a unit.
    pub fn grant(&mut self, unit: UnitId, capability: Capability)
        ensures
            final(self).granted_set(unit) == Some(
                match old(self).granted_set(unit) {
                    Some(s) => s,
                    None => Set::empty(),
                }.insert(cap_key(capability)),
            ),
            forall|v: UnitId| v != unit ==> final(self).granted_set(v) == old(self).granted_set(v),
    {
        proof {
            use_type_invariant(&*self);
        }
        self.remember(unit);
        self.push_grant(unit, capability);
        proof {
            let old_grants = old(self).grants@;
            assert forall|v: UnitId| v != unit implies final(self).granted(v) == old(self).granted(v) by {
                assert(final(self).granted(v) =~= old(self).granted(v)) by {
                    assert forall|k| final(self).granted(v).contains(k) implies old(self).granted(v).contains(k) by {
                        let i = choose|i: int| 0 <= i < self.grants@.len() && self.grants@[i].0 == v && cap_key(#[trigger] self.grants@[i].1) == k;
                        assert(i < old_grants.len());
                        assert(old_grants[i] == self.grants@[i]);
                    }
                    assert forall|k| old(self).granted(v).contains(k) implies final(self).granted(v).contains(k) by {
                        let i = choose|i: int| 0 <= i < old_grants.len() && old_grants[i].0 == v && cap_key(#[trigger] old_grants[i].1) == k;
                        assert(self.grants@[i] == old_grants[i]);
                    }
                }
            }
            let expected = match old(self).granted_set(unit) {
                Some(s) => s,
                None => Set::empty(),
            }.insert(cap_key(capability));
            assert(self.granted(unit) =~= expected) by {
                assert forall|k| self.granted(unit).contains(k) implies expected.contains(k) by {
                    let i = choose|i: int| 0 <= i < self.grants@.len() && self.grants@[i].0 == unit && cap_key(#[trigger] self.grants@[i].1) == k;
                    if i < old_grants.len() {
                        assert(old_grants[i] == self.grants@[i]);
                        assert(old(self).units@.contains(old_grants[i].0));
                    }
                }
                assert forall|k| expected.contains(k) implies self.granted(unit).contains(k) by {
                    if k == cap_key(capability) {
                        let last = (self.grants@.len() - 1) as int;
                        assert(self.grants@[last].0 == unit);
                        assert(cap_key(self.grants@[last].1) == k);
                    } else {
                        let i = choose|i: int| 0 <= i < old_grants.len() && old_grants[i].0 == unit && cap_key(#[trigger] old_grants[i].1) == k;
                        assert(self.grants@[i] == old_grants[i]);
                    }
                }
            }
        }
    }

    /// Grants every capability of the list to a unit; the unit gets a
    /// granted set even when the list is empty.
    pub fn grant_all(&mut self, unit: UnitId, capabilities: Vec<Capability>)
        ensures
            final(self).granted_set(unit) == Some(
                match old(self).granted_set(unit) {
                    Some(s) => s,
                    None => Set::empty(),
                } + capabilities@.map_values(|c: Capability| cap_key(c)).to_set(),
            ),
            forall|v: UnitId| v != unit ==> final(self).granted_set(v) == old(self).granted_set(v),
    {
        proof {
            use_type_invariant(&*self);
        }
        self.remember(unit);
        proof {
            assert(self.granted(unit) =~= old(self).granted(unit));
            if !old(self).known(unit) {
                assert(old(self).granted(unit) =~= Set::empty());
            }
        }
        assert(capabilities@.subrange(0, 0).map_values(|c: Capability| cap_key(c)).to_set() =~= Set::empty());
        let mut i: usize = 0;
        while i < capabilities.len()
            invariant
                i <= capabilities@.len(),
                self.known(unit),
                self.granted(unit) == match old(self).granted_set(unit) {
                    Some(s) => s,
                    None => Set::empty(),
                } + capabilities@.subrange(0, i as int).map_values(|c: Capability| cap_key(c)).to_set(),
                forall|v: UnitId| v != unit ==> self.granted_set(v) == old(self).granted_set(v),
            decreases capabilities@.len() - i,
        {
            let ghost before = self.granted(unit);
            let c = capabilities[i].copy();
            self.grant(unit, c);
            proof {
                let base = match old(self).granted_set(unit) {
                    Some(s) => s,
                    None => Set::empty(),
                };
                let f = |c: Capability| cap_key(c);
                let s0 = capabilities@.subrange(0, i as int).map_values(f);
                let s1 = capabilities@.subrange(0, i + 1).map_values(f);
                assert(s1 =~= s0.push(cap_key(capabilities@[i as int])));
                assert(s1.to_set() =~= s0.to_set().insert(cap_key(capabilities@[i as int]))) by {
                    assert forall|k| s1.to_set().contains(k) implies s0.to_set().insert(cap_key(capabilities@[i as int])).contains(k) by {
                        let j = choose|j: int| 0 <= j < s1.len() && s1[j] == k;
                        if j < s0.len() {
                            assert(s0[j] == k);
                        }
                    }
                    assert forall|k| s0.to_set().insert(cap_key(capabilities@[i as int])).contains(k) implies s1.to_set().contains(k) by {
                        if k == cap_key(capabilities@[i as int]) {
                            assert(s1[i as int] == k);
                        } else {
                            let j = choose|j: int| 0 <= j < s0.len() && s0[j] == k;
                            assert(s1[j] == k);
                        }
                    }
                }
                assert(self.granted(unit) =~= base + s1.to_set());
            }
            i = i + 1;
        }
        assert(capabilities@.subrange(0, capabilities@.len() as int) =~= capabilities@);
    }

    /// Checks whether a unit may exercise a capability: `Ok` when it is in
    /// the unit's granted set, otherwise a `CapabilityDenied` naming the
    /// capability as `type:name` (fail closed for unknown units).
    pub fn check_access(&self, unit: &UnitId, capability: &Capability) -> (r: Result<(), SecurityError>)
        ensures
            r is Ok <==> self.allows(*unit, *capability),
            r matches Err(e) ==> self.denial(*unit, *capability, e),
    {
        let known = self.is_known(unit);
        if known && self.holds(unit, capability) {
            return Ok(());
        }
        let mut text = String::new();
        text.append(capability.cap_type.as_str());
        text.append(":");
        text.append(capability.name.as_str());
        proof {
            reveal_strlit(":");
            reveal_strlit("capability not in granted set");
            reveal_strlit("unit unknown — no capabilities granted (fail closed, INV-S2)");
        }
        assert(text@ =~= cap_text(*capability));
        if known {
            Err(SecurityError::CapabilityDenied {
                capability: text,
                reason: "capability not in granted set".to_string(),
            })
        } else {
            Err(SecurityError::CapabilityDenied {
                capability: text,
                reason: "unit unknown — no capabilities granted (fail closed, INV-S2)".to_string(),
            })
        }
    }

    /// Checks every capability in order and returns the denial of the first
    /// one that is not allowed.
    pub fn check_all(&self, unit: &UnitId, capabilities: &[Capability]) -> (r: Result<(), SecurityError>)
        ensures
            r is Ok <==> forall|i: int| 0 <= i < capabilities@.len() ==> self.allows(*unit, #[trigger] capabilities@[i]),
            r matches Err(e) ==> exists|i: int|
                0 <= i < capabilities@.len() && !self.allows(*unit, #[trigger] capabilities@[i])
                    && self.denial(*unit, capabilities@[i], e) && forall|j: int|
                    0 <= j < i ==> self.allows(*unit, #[trigger] capabilities@[j]),
    {
        let mut i: usize = 0;
        while i < capabilities.len()
            invariant
                i <= capabilities@.len(),
                forall|j: int| 0 <= j < i ==> self.allows(*unit, #[trigger] capabilities@[j]),
            decreases capabilities@.len() - i,
        {
            match self.check_access(unit, &capabilities[i]) {
                Ok(()) => {},
                Err(e) => {
                    return Err(e);
                },
            }
            i = i + 1;
        }
        Ok(())
    }
}

} // verus!
