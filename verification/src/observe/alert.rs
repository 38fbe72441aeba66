//! Alert dispatch: best-effort, never failing.
//!
//! Delivery itself (a webhook call) is not performed here; the dispatcher
//! accepts every alert and counts it.

use vstd::prelude::*;
use crate::common::{DualClockEvent, NodeId};
use crate::observe::error::ObserveError;

verus! {

/// Webhook alert payload.
#[derive(Clone, Debug)]
pub struct AlertPayload {
    /// The node that triggered this alert.
    pub node_id: NodeId,
    /// Type of event that triggered the alert.
    pub event_type: String,
    /// Human-readable reason for the alert.
    pub reason: String,
    /// When the alert was generated.
    pub timestamp: DualClockEvent,
    /// Additional detail about the alert.
    pub detail: String,
}

/// Accepts alerts and counts them.
#[derive(Debug)]
pub struct DefaultAlertDispatcher {
    dispatched_count: u64,
}

impl DefaultAlertDispatcher {
    /// The number of alerts dispatched (modulo 2^64).
    pub closed spec fn count(&self) -> u64 {
        self.dispatched_count
    }

    /// Creates a dispatcher that has dispatched nothing.
    pub fn new() -> (r: Self)
        ensures r.count() == 0,
    {
        DefaultAlertDispatcher { dispatched_count: 0 }
    }

    /// Returns the number of alerts dispatched since creation.
    pub fn dispatched_count(&self) -> (r: u64)
        ensures r == self.count(),
    {
        self.dispatched_count
    }

    /// Dispatches an alert (best effort): always succeeds and counts the
    /// alert, the count wrapping at 2^64.
    pub fn dispatch(&mut self, url: &str, payload: &AlertPayload) -> (r: Result<(), ObserveError>)
        ensures
            r is Ok,
            final(self).count() == if old(self).count() == u64::MAX { 0 } else { (old(self).count() + 1) as u64 },
    {
        self.dispatched_count = self.dispatched_count.wrapping_add(1);
        Ok(())
    }
}

} // verus!
