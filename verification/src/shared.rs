//! The concurrent-access wrapper around one order-book engine.
//!
//! One feed-ingestion task applies snapshots and updates in arrival order
//! through exclusive lock acquisitions; any number of reader tasks query
//! the book through shared acquisitions.  Every value the lock ever
//! stores satisfies the engine invariant and carries the depth limit
//! fixed at construction, so a reader only ever observes a whole,
//! self-consistent book state: mutation happens on an exclusively held
//! value and becomes visible only when the whole new state is released
//! back into the lock.

use std::sync::Arc;
use vstd::prelude::*;
use vstd::rwlock::{RwLock, RwLockPredicate};

use crate::messages::{Message, OrderBookUpdate, Side};
use crate::order_book::OrderBook;

verus! {

/// The lock invariant: every book state stored behind the lock is
/// well-formed and keeps the depth limit the handle was constructed with.
pub struct BookPred {
    pub depth_limit: usize,
}

impl RwLockPredicate<OrderBook> for BookPred {
    open spec fn inv(self, book: OrderBook) -> bool {
        &&& book.wf()
        &&& book.depth_limit == self.depth_limit
    }
}

/// The prices in `v` are strictly descending (bids, most competitive
/// first).
pub open spec fn strictly_descending(v: Seq<u64>) -> bool {
    forall|i: int, j: int| 0 <= i < j < v.len() ==> v[i] > v[j]
}

/// The prices in `v` are strictly ascending (asks, most competitive
/// first).
pub open spec fn strictly_ascending(v: Seq<u64>) -> bool {
    forall|i: int, j: int| 0 <= i < j < v.len() ==> v[i] < v[j]
}

/// A shared, reference-counted handle to one order book behind a
/// reader/writer lock.  Cloning the handle produces another owner of the
/// same underlying state, not a copy: a mutation through any clone is
/// visible to all of them once the lock is released.
pub struct SharedOrderBook {
    inner: Arc<RwLock<OrderBook, BookPred>>,
}

impl SharedOrderBook {
    /// The depth limit every book state behind this handle keeps.
    pub closed spec fn depth(&self) -> usize {
        self.inner.pred().depth_limit
    }

    /// A handle to a fresh, empty book retaining at most `depth_limit`
    /// levels per side.
    pub fn new(depth_limit: usize) -> (s: Self)
        requires
            1 <= depth_limit,
        ensures
            s.depth() == depth_limit,
    {
        let book = OrderBook::new(depth_limit);
        let lock = RwLock::new(book, Ghost(BookPred { depth_limit }));
        SharedOrderBook { inner: Arc::new(lock) }
    }

    /// Replace the whole book state from a full feed payload, atomically
    /// from any reader's point of view: the lock is held exclusively from
    /// the first to the last level applied, so no reader observes a
    /// partially applied snapshot.
    pub fn process_snapshot(&self, bids: Vec<OrderBookUpdate>, asks: Vec<OrderBookUpdate>) {
        let (mut book, handle) = self.inner.acquire_write();
        book.process_snapshot(bids, asks);
        handle.release_write(book);
    }

    /// Apply one incremental price-level update under the exclusive lock;
    /// the level change and the best-price recomputation become visible
    /// together.
    pub fn process_update(&self, update: OrderBookUpdate) {
        let (mut book, handle) = self.inner.acquire_write();
        book.process_update(update);
        handle.release_write(book);
    }

    /// The best (highest) bid price of the book state current at the time
    /// of the shared acquisition, `None` if no bid rests in it.
    pub fn get_best_bid(&self) -> (r: Option<u64>) {
        let handle = self.inner.acquire_read();
        let r = handle.borrow().get_best_bid();
        handle.release_read();
        r
    }

    /// The best (lowest) ask price of the book state current at the time
    /// of the shared acquisition, `None` if no ask rests in it.
    pub fn get_best_ask(&self) -> (r: Option<u64>) {
        let handle = self.inner.acquire_read();
        let r = handle.borrow().get_best_ask();
        handle.release_read();
        r
    }

    /// How many ask levels the current book state actually retains; at
    /// most the configured depth limit.
    pub fn get_used_depth_limit(&self) -> (r: usize)
        ensures
            r <= self.depth(),
    {
        let handle = self.inner.acquire_read();
        let r = handle.borrow().asks.len();
        handle.release_read();
        r
    }

    /// The resting bid prices of one whole book state, most competitive
    /// (highest) first.
    pub fn get_bids(&self) -> (r: Option<Vec<u64>>)
        ensures
            r is Some,
            r matches Some(v) ==> strictly_descending(v@) && v@.len() <= self.depth(),
    {
        let handle = self.inner.acquire_read();
        let levels = handle.borrow().get_levels(Side::Buy);
        handle.release_read();
        let ghost ls = levels@;
        let mut prices: Vec<u64> = Vec::new();
        let mut i: usize = 0;
        while i < levels.len()
            invariant
                levels@ == ls,
                i <= ls.len(),
                prices@.len() == i,
                forall|k: int| 0 <= k < i ==> prices@[k] == ls[k].price,
            decreases ls.len() - i,
        {
            prices.push(levels[i].price);
            i = i + 1;
        }
        Some(prices)
    }

    /// The resting ask prices of one whole book state, most competitive
    /// (lowest) first.
    pub fn get_asks(&self) -> (r: Option<Vec<u64>>)
        ensures
            r is Some,
            r matches Some(v) ==> strictly_ascending(v@) && v@.len() <= self.depth(),
    {
        let handle = self.inner.acquire_read();
        let levels = handle.borrow().get_levels(Side::Sell);
        handle.release_read();
        let ghost ls = levels@;
        let mut prices: Vec<u64> = Vec::new();
        let mut i: usize = 0;
        while i < levels.len()
            invariant
                levels@ == ls,
                i <= ls.len(),
                prices@.len() == i,
                forall|k: int| 0 <= k < i ==> prices@[k] == ls[k].price,
            decreases ls.len() - i,
        {
            prices.push(levels[i].price);
            i = i + 1;
        }
        Some(prices)
    }
}

impl Clone for SharedOrderBook {
    /// Another owner of the same underlying book: the clone shares the
    /// lock and the state behind it.
    ///
    /// Relies on `std::sync::Arc::clone`: the clone points to the same
    /// allocation as the original.
    #[verifier::external_body]
    fn clone(&self) -> (s: Self)
        ensures
            s == *self,
    {
        SharedOrderBook { inner: Arc::clone(&self.inner) }
    }
}

/// Apply one normalized feed event to the shared book: an incremental
/// update or a full snapshot, whichever the feed delivered.
pub fn handle_message(msg: Message, order_book: &SharedOrderBook) {
    match msg {
        Message::Update(update) => order_book.process_update(update),
        Message::Snapshot(snapshot) => order_book.process_snapshot(snapshot.bids, snapshot.asks),
    }
}

} // verus!
