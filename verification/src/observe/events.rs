//! Structured events: typed, timestamped records of system actions,
//! buffered in memory in emission order.
//!
//! Each emitted event gets the emitter's node identifier and the next
//! logical clock value (starting at 1); wall time is not tracked (0).

use vstd::prelude::*;
use crate::common::{DualClockEvent, LogicalClock, NodeId, UnitId, WallTime};
use crate::observe::error::ObserveError;

verus! {

/// Structured event emitted for external consumption.
#[derive(Clone, Debug)]
pub struct StructuredEvent {
    /// When this event occurred.
    pub timestamp: DualClockEvent,
    /// The node that produced this event.
    pub node_id: NodeId,
    /// Structured type of this event.
    pub event_type: EventType,
    /// Human-readable or machine-parseable detail.
    pub detail: String,
}

/// High-level event type classification.
#[derive(Clone, Debug, PartialEq, Eq)]
pub enum EventType {
    /// A unit was inserted into the graph.
    UnitInserted {
        /// The unit that was inserted.
        unit_id: UnitId,
    },
    /// A unit was terminated.
    UnitTerminated {
        /// The unit that was terminated.
        unit_id: UnitId,
    },
    /// The solver placed a unit on a node.
    PlacementDecided {
        /// The unit that was placed.
        unit_id: UnitId,
        /// The node the unit was placed on.
        node_id: NodeId,
    },
    /// A conflict was detected during composition.
    ConflictDetected {
        /// Description of the conflict.
        conflict: String,
    },
    /// A promotion was applied to a unit.
    PromotionApplied {
        /// The unit that was promoted.
        unit_id: UnitId,
        /// The environment promoted to.
        environment: String,
    },
    /// Drift was detected between desired and actual state.
    DriftDetected {
        /// The unit that drifted.
        unit_id: UnitId,
        /// The expected state.
        expected: String,
        /// The actual state observed.
        actual: String,
    },
    /// A node's capability set changed.
    CapabilityChanged {
        /// The node whose capabilities changed.
        node_id: NodeId,
        /// Capabilities that were added.
        added: Vec<String>,
        /// Capabilities that were removed.
        removed: Vec<String>,
    },
    /// A health check result was recorded.
    HealthCheckResult {
        /// The unit that was checked.
        unit_id: UnitId,
        /// Whether the unit is healthy.
        healthy: bool,
    },
    /// A task was spawned by a parent unit.
    TaskSpawned {
        /// The parent unit.
        parent: UnitId,
        /// The child task unit.
        child: UnitId,
    },
    /// A task was terminated.
    TaskTerminated {
        /// The task unit that was terminated.
        unit_id: UnitId,
        /// Why the task was terminated.
        reason: String,
    },
    /// A graph compaction was triggered.
    CompactionTriggered {
        /// Number of units compacted.
        units_compacted: u32,
    },
    /// The node entered degraded mode.
    DegradedModeEntered {
        /// Why degraded mode was entered.
        reason: String,
    },
    /// A revocation was merged into the graph.
    RevocationMerged {
        /// The author whose key was revoked.
        author_id: String,
    },
    /// A custom event type identified by name.
    Custom {
        /// The event type name.
        name: String,
    },
}

/// The logical clock after `lc` (wrapping at 2^64).
pub open spec fn next_clock(lc: u64) -> u64 {
    if lc == u64::MAX { 0 } else { (lc + 1) as u64 }
}

/// In-memory event buffer of one node.
pub struct DefaultEventEmitter {
    node_id: NodeId,
    events: Vec<StructuredEvent>,
    next_lc: u64,
}

/// Emits structured events for external consumption; emission queues the
/// event and does not block.
pub trait EventEmitter {
    /// Emits an event of the type named `event_type` with the detail.
    fn emit(&mut self, event_type: &str, detail: &str) -> (r: Result<(), ObserveError>);
}

impl EventEmitter for DefaultEventEmitter {
    fn emit(&mut self, event_type: &str, detail: &str) -> (r: Result<(), ObserveError>)
        ensures
            r is Ok,
            final(self).buffered().len() == old(self).buffered().len() + 1,
            final(self).buffered().drop_last() == old(self).buffered(),
    {
        DefaultEventEmitter::emit(self, event_type, detail)
    }
}

impl DefaultEventEmitter {
    /// The node that produces the events.
    pub closed spec fn node(&self) -> NodeId {
        self.node_id
    }

    /// The buffered events, oldest first.
    pub closed spec fn buffered(&self) -> Seq<StructuredEvent> {
        self.events@
    }

    /// The logical clock the next event gets.
    pub closed spec fn clock(&self) -> u64 {
        self.next_lc
    }

    /// `e` is the event this emitter appends for the given type and detail.
    pub open spec fn emitted(&self, e: StructuredEvent, event_type: EventType, detail: Seq<char>) -> bool {
        &&& e.timestamp.logical_clock == LogicalClock(self.clock())
        &&& e.timestamp.wall_time == WallTime { millis: 0 }
        &&& e.timestamp.timezone@ == "UTC"@
        &&& e.node_id == self.node()
        &&& e.event_type == event_type
        &&& e.detail@ == detail
    }

    /// Creates an emitter for the node with an empty buffer; clocks start
    /// at 1.
    pub fn new(node_id: NodeId) -> (r: Self)
        ensures
            r.node() == node_id,
            r.buffered().len() == 0,
            r.clock() == 1,
    {
        DefaultEventEmitter { node_id, events: Vec::new(), next_lc: 1 }
    }

    /// Emits a typed event: it is appended to the buffer with the next
    /// logical clock. Always succeeds.
    pub fn emit_typed(&mut self, event_type: EventType, detail: &str) -> (r: Result<(), ObserveError>)
        ensures
            r is Ok,
            final(self).node() == old(self).node(),
            final(self).clock() == next_clock(old(self).clock()),
            final(self).buffered().len() == old(self).buffered().len() + 1,
            final(self).buffered().drop_last() == old(self).buffered(),
            old(self).emitted(final(self).buffered().last(), event_type, detail@),
    {
        proof {
            reveal_strlit("UTC");
        }
        let lc = self.next_lc;
        self.next_lc = lc.wrapping_add(1);
        let event = StructuredEvent {
            timestamp: DualClockEvent {
                logical_clock: LogicalClock(lc),
                wall_time: WallTime { millis: 0 },
                timezone: "UTC".to_string(),
            },
            node_id: self.node_id,
            event_type,
            detail: detail.to_string(),
        };
        self.events.push(event);
        assert(self.events@.drop_last() =~= old(self).events@);
        Ok(())
    }

    /// Emits an event of a custom type named `event_type`.
    pub fn emit(&mut self, event_type: &str, detail: &str) -> (r: Result<(), ObserveError>)
        ensures
            r is Ok,
            final(self).node() == old(self).node(),
            final(self).clock() == next_clock(old(self).clock()),
            final(self).buffered().len() == old(self).buffered().len() + 1,
            final(self).buffered().drop_last() == old(self).buffered(),
            final(self).buffered().last().event_type matches EventType::Custom { name } && name@ == event_type@,
            ({
                let e = final(self).buffered().last();
                &&& e.timestamp.logical_clock == LogicalClock(old(self).clock())
                &&& e.timestamp.wall_time == WallTime { millis: 0 }
                &&& e.timestamp.timezone@ == "UTC"@
                &&& e.node_id == old(self).node()
                &&& e.detail@ == detail@
            }),
    {
        let t = EventType::Custom { name: event_type.to_string() };
        self.emit_typed(t, detail)
    }

    /// Returns the number of buffered events.
    pub fn buffered_count(&self) -> (r: usize)
        ensures r == self.buffered().len(),
    {
        self.events.len()
    }

    /// Removes and returns all buffered events, oldest first.
    pub fn drain(&mut self) -> (r: Vec<StructuredEvent>)
        ensures
            r@ == old(self).buffered(),
            final(self).buffered().len() == 0,
            final(self).node() == old(self).node(),
            final(self).clock() == old(self).clock(),
    {
        let mut out: Vec<StructuredEvent> = Vec::new();
        std::mem::swap(&mut out, &mut self.events);
        out
    }
}

} // verus!
