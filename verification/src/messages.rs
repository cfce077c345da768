//! The normalized event shapes the order-book engine consumes.
//!
//! A feed adapter translates whatever wire protocol it speaks into these
//! shapes and hands them to the engine strictly in arrival order.

use vstd::prelude::*;

verus! {

/// The side of the book an event applies to.  A closed two-variant tag:
/// invalid textual side values must be rejected by the feed adapter and
/// never reach the engine.
#[derive(Clone, Copy, Debug, PartialEq, Eq, Structural)]
pub enum Side {
    Buy,
    Sell,
}

/// One incremental price-level event: an absolute quantity for one price on
/// one side.  `quantity == 0` means "remove the level at this price";
/// any other quantity fully overwrites the level (the feed's quantities are
/// absolute, not deltas).
#[derive(Clone, Copy, Debug, PartialEq, Eq, Structural)]
pub struct OrderBookUpdate {
    pub price: u64,
    pub quantity: u64,
    pub side: Side,
}

/// A full replacement of book state: every level of both sides, as reported
/// by the feed.
#[derive(Clone, Debug)]
pub struct OrderBookSnapshot {
    pub bids: Vec<OrderBookUpdate>,
    pub asks: Vec<OrderBookUpdate>,
}

/// A normalized feed event: either one incremental update or a full
/// snapshot.
#[derive(Clone, Debug)]
pub enum Message {
    Update(OrderBookUpdate),
    Snapshot(OrderBookSnapshot),
}

} // verus!
