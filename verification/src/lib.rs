//! An in-memory view of a two-sided limit order book for one trading
//! instrument, fed by a stream of snapshots and incremental price-level
//! updates.
//!
//! The book keeps, per side, at most `depth_limit` price levels and caches
//! the best (most competitive) price of each side.  Prices and quantities
//! are carried as order-preserving integer keys: a feed adapter maps each
//! quoted price to a key such that the numeric order of quotes equals the
//! order of keys (for instance a tick count, or the IEEE-754 total-order
//! key of a binary64 quote).  A quantity key of `0` is the sentinel for
//! "remove this level" and is never stored.

pub mod config;
pub mod messages;
pub mod order_book;
pub mod shared;
