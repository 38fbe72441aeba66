//! Solver replay from recorded decision trails.
//!
//! Replay needs the graph snapshot the decision was made on, which trails do not keep;
//! until snapshots are persisted, replay of an existing trail is refused
//! with `ReplayFailed`, and replay of an unknown trail with
//! `TrailNotFound`.

use vstd::prelude::*;
use crate::observe::error::{DecisionTrailId, ObserveError};
use crate::observe::trail::DefaultDecisionTrailRecorder;
use crate::solver::placement::SolverResult;
use crate::solver::solve::DefaultSolver;

verus! {

/// The reason replay of an existing trail is refused.
pub open spec fn snapshot_unavailable_reason() -> Seq<char> {
    "snapshot not available in M3 (requires disk-backed graph)"@
}

/// Replays solver runs recorded by a trail recorder.
pub struct DefaultSolverReplayer<'a> {
    query: &'a DefaultDecisionTrailRecorder,
    solver: &'a DefaultSolver,
}

impl<'a> DefaultSolverReplayer<'a> {
    /// The recorder whose trails are replayed.
    pub closed spec fn recorder(&self) -> DefaultDecisionTrailRecorder {
        *self.query
    }

    /// Creates a replayer over a trail recorder and a solver.
    pub fn new(query: &'a DefaultDecisionTrailRecorder, solver: &'a DefaultSolver) -> (r: Self)
        ensures r.recorder() == *query,
    {
        DefaultSolverReplayer { query, solver }
    }

    /// Replays the run of a trail: `TrailNotFound` when no trail has the
    /// identifier, otherwise `ReplayFailed` because the graph snapshot is
    /// not available.
    pub fn replay(&self, trail_id: &DecisionTrailId) -> (r: Result<SolverResult, ObserveError>)
        ensures
            (exists|i: int|
                0 <= i < self.recorder().stored().len() && (#[trigger] self.recorder().stored()[i]).trail_id
                    == *trail_id) ==> (r matches Err(ObserveError::ReplayFailed { reason }) && reason@
                == snapshot_unavailable_reason()),
            !(exists|i: int|
                0 <= i < self.recorder().stored().len() && (#[trigger] self.recorder().stored()[i]).trail_id
                    == *trail_id) ==> r == Err::<SolverResult, ObserveError>(
                ObserveError::TrailNotFound { trail_id: *trail_id },
            ),
    {
        match self.query.query_by_id(trail_id) {
            Err(e) => Err(e),
            Ok(t) => {
                proof {
                    let i = choose|i: int|
                        0 <= i < self.query.stored().len() && self.query.stored()[i].trail_id == *trail_id
                            && t.same_as(self.query.stored()[i]) && forall|j: int|
                            0 <= j < i ==> (#[trigger] self.query.stored()[j]).trail_id != *trail_id;
                    assert(self.recorder().stored()[i].trail_id == *trail_id);
                    reveal_strlit("snapshot not available in M3 (requires disk-backed graph)");
                }
                Err(ObserveError::ReplayFailed {
                    reason: "snapshot not available in M3 (requires disk-backed graph)".to_string(),
                })
            },
        }
    }
}

} // verus!
