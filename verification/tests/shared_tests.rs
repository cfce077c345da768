use l2_order_book::messages::{Message, OrderBookSnapshot, OrderBookUpdate, Side};
use l2_order_book::shared::{handle_message, SharedOrderBook};

fn sample_bids() -> Vec<OrderBookUpdate> {
    vec![
        OrderBookUpdate { price: 100, quantity: 1, side: Side::Buy },
        OrderBookUpdate { price: 101, quantity: 2, side: Side::Buy },
    ]
}

fn sample_asks() -> Vec<OrderBookUpdate> {
    vec![
        OrderBookUpdate { price: 102, quantity: 1, side: Side::Sell },
        OrderBookUpdate { price: 103, quantity: 2, side: Side::Sell },
    ]
}

#[test]
fn shared_snapshot_updates_best_prices() {
    let order_book = SharedOrderBook::new(10);
    order_book.process_snapshot(sample_bids(), sample_asks());
    assert_eq!(order_book.get_best_bid(), Some(101));
    assert_eq!(order_book.get_best_ask(), Some(102));
}

#[test]
fn shared_book_starts_empty() {
    let order_book = SharedOrderBook::new(10);
    assert_eq!(order_book.get_best_bid(), None);
    assert_eq!(order_book.get_best_ask(), None);
    assert_eq!(order_book.get_bids(), Some(vec![]));
    assert_eq!(order_book.get_asks(), Some(vec![]));
    assert_eq!(order_book.get_used_depth_limit(), 0);
}

#[test]
fn shared_clone_observes_the_same_state() {
    let order_book = SharedOrderBook::new(10);
    let reader = order_book.clone();
    order_book.process_snapshot(sample_bids(), sample_asks());
    assert_eq!(reader.get_best_bid(), Some(101));
    assert_eq!(reader.get_best_ask(), Some(102));
    reader.process_update(OrderBookUpdate { price: 104, quantity: 1, side: Side::Buy });
    assert_eq!(order_book.get_best_bid(), Some(104));
}

#[test]
fn shared_update_then_removal_leaves_best_bid_absent() {
    let order_book = SharedOrderBook::new(10);
    order_book.process_update(OrderBookUpdate { price: 100, quantity: 1, side: Side::Buy });
    assert_eq!(order_book.get_best_bid(), Some(100));
    order_book.process_update(OrderBookUpdate { price: 100, quantity: 0, side: Side::Buy });
    assert_eq!(order_book.get_best_bid(), None);
}

#[test]
fn shared_price_lists_are_most_competitive_first() {
    let order_book = SharedOrderBook::new(10);
    order_book.process_snapshot(sample_bids(), sample_asks());
    assert_eq!(order_book.get_bids(), Some(vec![101, 100]));
    assert_eq!(order_book.get_asks(), Some(vec![102, 103]));
    assert_eq!(order_book.get_used_depth_limit(), 2);
}

#[test]
fn handle_message_dispatches_updates_and_snapshots() {
    let order_book = SharedOrderBook::new(10);
    handle_message(
        Message::Snapshot(OrderBookSnapshot { bids: sample_bids(), asks: sample_asks() }),
        &order_book,
    );
    assert_eq!(order_book.get_best_bid(), Some(101));
    handle_message(
        Message::Update(OrderBookUpdate { price: 105, quantity: 3, side: Side::Buy }),
        &order_book,
    );
    assert_eq!(order_book.get_best_bid(), Some(105));
}

#[test]
fn depth_limit_holds_under_any_update_sequence() {
    let order_book = SharedOrderBook::new(1);
    order_book.process_update(OrderBookUpdate { price: 100, quantity: 1, side: Side::Buy });
    order_book.process_update(OrderBookUpdate { price: 101, quantity: 1, side: Side::Buy });
    order_book.process_update(OrderBookUpdate { price: 99, quantity: 1, side: Side::Buy });
    let bids = order_book.get_bids().unwrap();
    assert_eq!(bids, vec![101]);
}
