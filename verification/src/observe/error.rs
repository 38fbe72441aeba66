//! Observability error type.

use vstd::prelude::*;
use crate::text::{decimal, push_decimal};

verus! {

/// Identifier of a decision trail; assigned in increasing order from 1.
#[derive(Clone, Copy, Debug, PartialEq, Eq, Structural, Hash, PartialOrd, Ord)]
pub struct DecisionTrailId(pub u64);

/// Errors from decision trails, replay and export.
#[derive(Clone, Debug, PartialEq, Eq)]
pub enum ObserveError {
    /// No trail with this identifier exists.
    TrailNotFound {
        /// The trail that was looked up.
        trail_id: DecisionTrailId,
    },
    /// The solver run could not be replayed.
    ReplayFailed {
        /// Why replay failed.
        reason: String,
    },
    /// Export to an external sink failed.
    ExportFailed {
        /// The export target.
        target: String,
        /// Why the export failed.
        reason: String,
    },
    /// The trail was compacted away.
    TrailCompacted {
        /// The compacted trail.
        trail_id: DecisionTrailId,
    },
}

/// The debug text of a trail identifier: `DecisionTrailId(<n>)`.
pub open spec fn trail_id_text(id: DecisionTrailId) -> Seq<char> {
    "DecisionTrailId("@ + decimal(id.0 as nat) + ")"@
}

/// The message of an error.
pub open spec fn message_spec(e: ObserveError) -> Seq<char> {
    match e {
        ObserveError::TrailNotFound { trail_id } => "decision trail not found: "@ + trail_id_text(trail_id),
        ObserveError::ReplayFailed { reason } => "solver replay failed: "@ + reason@,
        ObserveError::ExportFailed { target, reason } => "export to "@ + target@ + " failed: "@ + reason@,
        ObserveError::TrailCompacted { trail_id } => "decision trail compacted: "@ + trail_id_text(trail_id),
    }
}

fn push_trail_id(s: &mut String, id: DecisionTrailId)
    ensures final(s)@ == old(s)@ + trail_id_text(id),
{
    proof {
        reveal_strlit("DecisionTrailId(");
        reveal_strlit(")");
    }
    s.append("DecisionTrailId(");
    push_decimal(s, id.0);
    s.append(")");
    assert(s@ =~= old(s)@ + trail_id_text(id));
}

impl ObserveError {
    /// The human-readable message of this error.
    pub fn message(&self) -> (r: String)
        ensures r@ == message_spec(*self),
    {
        proof {
            reveal_strlit("decision trail not found: ");
            reveal_strlit("solver replay failed: ");
            reveal_strlit("export to ");
            reveal_strlit(" failed: ");
            reveal_strlit("decision trail compacted: ");
        }
        let mut s = String::new();
        match self {
            ObserveError::TrailNotFound { trail_id } => {
                s.append("decision trail not found: ");
                push_trail_id(&mut s, *trail_id);
            },
            ObserveError::ReplayFailed { reason } => {
                s.append("solver replay failed: ");
                s.append(reason.as_str());
            },
            ObserveError::ExportFailed { target, reason } => {
                s.append("export to ");
                s.append(target.as_str());
                s.append(" failed: ");
                s.append(reason.as_str());
            },
            ObserveError::TrailCompacted { trail_id } => {
                s.append("decision trail compacted: ");
                push_trail_id(&mut s, *trail_id);
            },
        }
        assert(s@ =~= message_spec(*self));
        s
    }
}

} // verus!
