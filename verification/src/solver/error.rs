//! Solver error type.

use vstd::prelude::*;
use crate::common::{id_text, id_to_text, UnitId};
use crate::model::{capability_debug, capability_text, Capability};
use crate::solver::placement::{Conflict, ConflictStatus, RecoveryCycle};
use crate::text::{decimal, joined, list_debug, push_decimal};

verus! {

/// Errors produced by the solver.
#[derive(Clone, Debug, PartialEq, Eq)]
pub enum SolverError {
    /// No node can host the unit.
    NoCapableNode { unit: UnitId, unmet: Vec<Capability> },
    /// The unit is part of an unresolved conflict.
    UnresolvedConflict { conflict: Conflict },
    /// The unit is part of a recovery dependency cycle.
    CyclicDependency { cycle: RecoveryCycle },
    /// A tolerance cannot be met.
    ToleranceViolation { unit: UnitId, constraint: String, reason: String },
    /// A supersession chain is broken.
    BrokenSupersession { reason: String },
    /// A security check failed.
    Security { reason: String },
    /// Policies for the units conflict.
    PolicyConflict { units: Vec<UnitId>, reason: String },
    /// The membership snapshot is stale.
    StaleSnapshot { expected_generation: u64, actual_generation: u64 },
    /// Internal error.
    InternalError { reason: String },
}

/// The `Debug` text of a unit identifier.
pub open spec fn unit_debug(u: UnitId) -> Seq<char> {
    "UnitId("@ + id_text(u.0) + ")"@
}

/// The `Debug` text of a list of unit identifiers.
pub open spec fn units_debug(s: Seq<UnitId>) -> Seq<char> {
    list_debug(s.map_values(|u: UnitId| unit_debug(u)))
}

/// The `Debug` text of a list of capabilities.
pub open spec fn caps_debug(s: Seq<Capability>) -> Seq<char> {
    list_debug(s.map_values(|c: Capability| capability_debug(c)))
}

/// The `Debug` text of a conflict status: its variant name.
pub open spec fn status_debug(s: ConflictStatus) -> Seq<char> {
    match s {
        ConflictStatus::Unresolved => "Unresolved"@,
        ConflictStatus::Revoked => "Revoked"@,
        ConflictStatus::Ambiguous => "Ambiguous"@,
    }
}

/// The `Debug` text of a conflict.
pub open spec fn conflict_debug(c: Conflict) -> Seq<char> {
    "Conflict { units: "@ + units_debug(c.units@) + ", capability: "@ + capability_debug(c.capability)
        + ", status: "@ + status_debug(c.status) + " }"@
}

/// The `Debug` text of a recovery cycle.
pub open spec fn cycle_debug(c: RecoveryCycle) -> Seq<char> {
    "RecoveryCycle { chain: "@ + units_debug(c.chain@) + " }"@
}

/// The message of a solver error.
pub open spec fn solver_message(e: SolverError) -> Seq<char> {
    match e {
        SolverError::NoCapableNode { unit, unmet } => "no capable node for unit "@ + unit_debug(unit)
            + ": unmet capabilities "@ + caps_debug(unmet@),
        SolverError::UnresolvedConflict { conflict } => "unresolved conflict: "@ + conflict_debug(conflict),
        SolverError::CyclicDependency { cycle } => "cyclic recovery dependency: "@ + cycle_debug(cycle),
        SolverError::ToleranceViolation { unit, constraint, reason } => "tolerance violation for unit "@
            + unit_debug(unit) + ": "@ + constraint@ + " ("@ + reason@ + ")"@,
        SolverError::BrokenSupersession { reason } => "broken supersession chain: "@ + reason@,
        SolverError::Security { reason } => "security error: "@ + reason@,
        SolverError::PolicyConflict { units, reason } => "policy conflict between units "@ + units_debug(units@)
            + ": "@ + reason@,
        SolverError::StaleSnapshot { expected_generation, actual_generation } =>
            "stale snapshot: expected generation "@ + decimal(expected_generation as nat) + ", actual "@
            + decimal(actual_generation as nat),
        SolverError::InternalError { reason } => "internal solver error: "@ + reason@,
    }
}

/// Appends the `Debug` text of a unit identifier.
pub fn push_unit_debug(s: &mut String, u: UnitId)
    ensures final(s)@ == old(s)@ + unit_debug(u),
{
    proof {
        reveal_strlit("UnitId(");
        reveal_strlit(")");
    }
    s.append("UnitId(");
    let t = id_to_text(u.0);
    s.append(t.as_str());
    s.append(")");
    assert(s@ =~= old(s)@ + unit_debug(u));
}

/// Appends the `Debug` text of a list of unit identifiers.
pub fn push_units_debug(s: &mut String, units: &Vec<UnitId>)
    ensures final(s)@ == old(s)@ + units_debug(units@),
{
    proof {
        reveal_strlit("[");
        reveal_strlit("]");
        reveal_strlit(", ");
    }
    s.append("[");
    let ghost start = s@;
    let ghost items = units@.map_values(|u: UnitId| unit_debug(u));
    let mut i: usize = 0;
    while i < units.len()
        invariant
            i <= units@.len(),
            items == units@.map_values(|u: UnitId| unit_debug(u)),
            s@ == start + joined(items.subrange(0, i as int)),
        decreases units@.len() - i,
    {
        if i > 0 {
            s.append(", ");
        }
        push_unit_debug(s, units[i]);
        proof {
            let sub = items.subrange(0, i + 1);
            assert(sub.drop_last() =~= items.subrange(0, i as int));
            if i == 0 {
                assert(items.subrange(0, 0) =~= Seq::<Seq<char>>::empty());
            }
            assert(s@ =~= start + joined(sub));
        }
        i = i + 1;
    }
    assert(items.subrange(0, units@.len() as int) =~= items);
    s.append("]");
    assert(s@ =~= old(s)@ + units_debug(units@));
}

/// Appends the `Debug` text of a list of capabilities.
pub fn push_caps_debug(s: &mut String, caps: &Vec<Capability>)
    ensures final(s)@ == old(s)@ + caps_debug(caps@),
{
    proof {
        reveal_strlit("[");
        reveal_strlit("]");
        reveal_strlit(", ");
    }
    s.append("[");
    let ghost start = s@;
    let ghost items = caps@.map_values(|c: Capability| capability_debug(c));
    let mut i: usize = 0;
    while i < caps.len()
        invariant
            i <= caps@.len(),
            items == caps@.map_values(|c: Capability| capability_debug(c)),
            s@ == start + joined(items.subrange(0, i as int)),
        decreases caps@.len() - i,
    {
        if i > 0 {
            s.append(", ");
        }
        let t = capability_text(&caps[i]);
        s.append(t.as_str());
        proof {
            let sub = items.subrange(0, i + 1);
            assert(sub.drop_last() =~= items.subrange(0, i as int));
            if i == 0 {
                assert(items.subrange(0, 0) =~= Seq::<Seq<char>>::empty());
            }
            assert(s@ =~= start + joined(sub));
        }
        i = i + 1;
    }
    assert(items.subrange(0, caps@.len() as int) =~= items);
    s.append("]");
    assert(s@ =~= old(s)@ + caps_debug(caps@));
}

/// The name of a conflict status.
pub fn status_string(st: ConflictStatus) -> (r: String)
    ensures r@ == status_debug(st),
{
    proof {
        reveal_strlit("Unresolved");
        reveal_strlit("Revoked");
        reveal_strlit("Ambiguous");
    }
    match st {
        ConflictStatus::Unresolved => "Unresolved".to_string(),
        ConflictStatus::Revoked => "Revoked".to_string(),
        ConflictStatus::Ambiguous => "Ambiguous".to_string(),
    }
}

fn push_conflict_debug(s: &mut String, c: &Conflict)
    ensures final(s)@ == old(s)@ + conflict_debug(*c),
{
    proof {
        reveal_strlit("Conflict { units: ");
        reveal_strlit(", capability: ");
        reveal_strlit(", status: ");
        reveal_strlit(" }");
    }
    s.append("Conflict { units: ");
    push_units_debug(s, &c.units);
    s.append(", capability: ");
    let t = capability_text(&c.capability);
    s.append(t.as_str());
    s.append(", status: ");
    let st = status_string(c.status);
    s.append(st.as_str());
    s.append(" }");
    assert(s@ =~= old(s)@ + conflict_debug(*c));
}

impl SolverError {
    /// The human-readable message of this error.
    pub fn message(&self) -> (r: String)
        ensures r@ == solver_message(*self),
    {
        proof {
            reveal_strlit("no capable node for unit ");
            reveal_strlit(": unmet capabilities ");
            reveal_strlit("unresolved conflict: ");
            reveal_strlit("cyclic recovery dependency: ");
            reveal_strlit("RecoveryCycle { chain: ");
            reveal_strlit(" }");
            reveal_strlit("tolerance violation for unit ");
            reveal_strlit(": ");
            reveal_strlit(" (");
            reveal_strlit(")");
            reveal_strlit("broken supersession chain: ");
            reveal_strlit("security error: ");
            reveal_strlit("policy conflict between units ");
            reveal_strlit("stale snapshot: expected generation ");
            reveal_strlit(", actual ");
            reveal_strlit("internal solver error: ");
        }
        let mut s = String::new();
        match self {
            SolverError::NoCapableNode { unit, unmet } => {
                s.append("no capable node for unit ");
                push_unit_debug(&mut s, *unit);
                s.append(": unmet capabilities ");
                push_caps_debug(&mut s, unmet);
            },
            SolverError::UnresolvedConflict { conflict } => {
                s.append("unresolved conflict: ");
                push_conflict_debug(&mut s, conflict);
            },
            SolverError::CyclicDependency { cycle } => {
                s.append("cyclic recovery dependency: ");
                s.append("RecoveryCycle { chain: ");
                push_units_debug(&mut s, &cycle.chain);
                s.append(" }");
            },
            SolverError::ToleranceViolation { unit, constraint, reason } => {
                s.append("tolerance violation for unit ");
                push_unit_debug(&mut s, *unit);
                s.append(": ");
                s.append(constraint.as_str());
                s.append(" (");
                s.append(reason.as_str());
                s.append(")");
            },
            SolverError::BrokenSupersession { reason } => {
                s.append("broken supersession chain: ");
                s.append(reason.as_str());
            },
            SolverError::Security { reason } => {
                s.append("security error: ");
                s.append(reason.as_str());
            },
            SolverError::PolicyConflict { units, reason } => {
                s.append("policy conflict between units ");
                push_units_debug(&mut s, units);
                s.append(": ");
                s.append(reason.as_str());
            },
            SolverError::StaleSnapshot { expected_generation, actual_generation } => {
                s.append("stale snapshot: expected generation ");
                push_decimal(&mut s, *expected_generation);
                s.append(", actual ");
                push_decimal(&mut s, *actual_generation);
            },
            SolverError::InternalError { reason } => {
                s.append("internal solver error: ");
                s.append(reason.as_str());
            },
        }
        assert(s@ =~= solver_message(*self));
        s
    }
}

} // verus!
