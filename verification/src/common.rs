//! Shared market types: sides, price levels, book updates, fills and trades.
use vstd::prelude::*;

verus! {

/// Number of price ticks in one unit of the quote currency (a tick is 1e-8).
/// Mid prices and fill prices are counted in half ticks, and cash in
/// notional units of one lot at one half tick.
pub const PRICE_SCALE: u64 = 100_000_000;

/// Number of volume lots in one unit of the base asset (a lot is 1e-8).
pub const VOLUME_SCALE: u64 = 100_000_000;

/// The side of the book an order or level belongs to.
#[derive(Debug, Clone, Copy, PartialEq, Eq, Structural)]
pub enum Side {
    Bid,
    Ask,
}

/// One price level: a price in ticks and the volume resting there in lots.
#[derive(Debug, Clone, Copy, PartialEq, Eq, Structural)]
pub struct Level {
    pub price: u64,
    pub volume: u64,
}

/// A change to the order book: a full snapshot of both sides, or an
/// incremental list of levels in which a zero volume deletes the level.
#[derive(Debug, Clone)]
pub enum OrderBookUpdate {
    Snapshot { bids: Vec<Level>, asks: Vec<Level>, timestamp: u64 },
    Incremental { bids: Vec<Level>, asks: Vec<Level>, timestamp: u64 },
}

impl OrderBookUpdate {
    /// The market timestamp carried by the update.
    pub open spec fn timestamp_of(&self) -> u64 {
        match self {
            OrderBookUpdate::Snapshot { timestamp, .. } => *timestamp,
            OrderBookUpdate::Incremental { timestamp, .. } => *timestamp,
        }
    }

    /// The market timestamp carried by the update.
    pub fn timestamp(&self) -> (t: u64)
        ensures
            t == self.timestamp_of(),
    {
        match self {
            OrderBookUpdate::Snapshot { timestamp, .. } => *timestamp,
            OrderBookUpdate::Incremental { timestamp, .. } => *timestamp,
        }
    }
}

/// An executed market order: side, volume in lots, price in half ticks, time.
#[derive(Debug, Clone, Copy, PartialEq, Eq, Structural)]
pub struct Fill {
    pub side: Side,
    pub volume: u64,
    pub price: u128,
    pub timestamp: u64,
}

/// A trade printed by the matching of resting orders.
#[derive(Debug, Clone, Copy, PartialEq, Eq, Structural)]
pub struct Trade {
    pub price: u64,
    pub volume: u64,
    pub side: Side,
    pub timestamp: u64,
}

/// The top of the book at a moment: best bid and best ask, if any.
#[derive(Debug, Clone, Copy, PartialEq, Eq, Structural)]
pub struct Quote {
    pub bid: Option<Level>,
    pub ask: Option<Level>,
    pub timestamp: u64,
}

} // verus!
