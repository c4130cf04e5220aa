//! Simulation events and their place in the global order.
use vstd::prelude::*;

use crate::types::{FundingEvent, L2Update, L3Update, Order, OrderReport, Tick};

verus! {

/// Stable identifier for ordering events at the same simulated timestamp.
#[derive(Debug, Clone, Copy, PartialEq, Eq, PartialOrd, Ord, Hash, Structural)]
pub struct EventId {
    pub ts_sim: i64,
    pub seq: u64,
}

impl EventId {
    /// Whether this event comes no later than `other`: by time, then by sequence number.
    pub open spec fn precedes(self, other: EventId) -> bool {
        self.ts_sim < other.ts_sim || (self.ts_sim == other.ts_sim && self.seq <= other.seq)
    }

    /// Whether this event comes no later than `other`.
    pub fn not_after(&self, other: &EventId) -> (r: bool)
        ensures
            r == self.precedes(*other),
    {
        self.ts_sim < other.ts_sim || (self.ts_sim == other.ts_sim && self.seq <= other.seq)
    }
}

#[derive(Debug, Clone, Copy, PartialEq, Eq)]
pub enum EventKind {
    /// A trade or quote at the exchange (ground truth).
    Tick(Tick),
    /// The same tick reaching the strategy, after the feed latency.
    TickDelivery(Tick),
    L2Update(L2Update),
    L3Update(L3Update),
    /// A new order arriving at the exchange.
    Order(Order),
    /// The exchange accepting a resting order.
    OrderAck { order_id: u64 },
    /// A cancel request arriving at the exchange.
    OrderCancel { order_id: u64 },
    /// The exchange carrying a cancel out.
    OrderCancelAck { order_id: u64 },
    /// An order update reaching the strategy.
    OrderReport(OrderReport),
    Funding(FundingEvent),
    /// Batch-flush timer; an out-of-date `timer_id` is ignored.
    Timer { timer_id: u64 },
}

#[derive(Debug, Clone, Copy, PartialEq, Eq)]
pub struct Event {
    pub id: EventId,
    pub kind: EventKind,
}

impl Event {
    pub fn ts_sim(&self) -> (r: i64)
        ensures
            r == self.id.ts_sim,
    {
        self.id.ts_sim
    }

    pub fn seq(&self) -> (r: u64)
        ensures
            r == self.id.seq,
    {
        self.id.seq
    }
}

} // verus!
