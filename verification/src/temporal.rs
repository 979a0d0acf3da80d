//! Temporal contracts: an ordered sequence of expected hardware events with
//! per-step and end-to-end latency bounds.

use vstd::prelude::*;

verus! {

/// How the steps of a contract are ordered in time.
#[derive(Clone, Copy, Debug, PartialEq, Eq, Structural)]
pub enum OrderConstraint {
    /// Every step happens strictly after the previous one.
    Strict,
    /// Steps may overlap or reorder.
    Relaxed,
}

/// One expected event of a contract.
#[derive(Clone, Debug, PartialEq, Eq)]
pub struct EventStep {
    /// Event kind ("mmio_write", "irq", "dma_start", ...).
    pub event_type: String,
    pub address: Option<u64>,
    pub value: Option<u64>,
    /// Allowed timing jitter of this step.
    pub tolerance_ns: u64,
}

/// A sequence of events with latency bounds (0 = unbounded).
#[derive(Clone, Debug, PartialEq, Eq)]
pub struct SequenceContract {
    pub name: String,
    pub steps: Vec<EventStep>,
    /// Bound on the time from the first to the last step.
    pub max_total_ns: u64,
    /// Bound on the time between consecutive steps.
    pub max_step_ns: u64,
    pub order: OrderConstraint,
}

} // verus!
