use l2_order_book::messages::{OrderBookUpdate, Side};
use l2_order_book::order_book::{Order, OrderBook};

#[test]
fn test_add_order() {
    let mut order_book = OrderBook::new(10);
    let order = Order { price: 100, quantity: 1 };
    order_book.add_order(order.clone(), Side::Buy);
    assert_eq!(order_book.bids.len(), 1);
    assert_eq!(order_book.get_level(100, Side::Buy), Some(order));
}

#[test]
fn test_remove_order() {
    let mut order_book = OrderBook::new(10);
    let order = Order { price: 100, quantity: 1 };
    order_book.add_order(order.clone(), Side::Buy);
    order_book.remove_order(100, Side::Buy);

    assert_eq!(order_book.bids.len(), 0);
}

#[test]
fn test_process_snapshot() {
    let mut order_book = OrderBook::new(10);
    let bids = vec![
        OrderBookUpdate { price: 100, quantity: 1, side: Side::Buy },
        OrderBookUpdate { price: 101, quantity: 2, side: Side::Buy },
    ];
    let asks = vec![
        OrderBookUpdate { price: 102, quantity: 1, side: Side::Sell },
        OrderBookUpdate { price: 103, quantity: 2, side: Side::Sell },
    ];

    order_book.process_snapshot(bids, asks);

    assert_eq!(order_book.bids.len(), 2);
    assert_eq!(order_book.asks.len(), 2);
    assert_eq!(order_book.best_bid, Some(101));
    assert_eq!(order_book.best_ask, Some(102));
}

#[test]
fn test_enforce_depth_limit() {
    let mut order_book = OrderBook::new(2);
    let order1 = Order { price: 100, quantity: 1 };
    let order2 = Order { price: 101, quantity: 1 };
    let order3 = Order { price: 102, quantity: 1 };
    order_book.add_order(order1, Side::Buy);
    order_book.add_order(order2, Side::Buy);
    order_book.add_order(order3, Side::Buy);

    assert_eq!(order_book.bids.len(), 2);
    assert!(order_book.contains_price(101, Side::Buy));
    assert!(order_book.contains_price(102, Side::Buy));
    assert!(!order_book.contains_price(100, Side::Buy));
}

#[test]
fn ask_eviction_drops_highest_price() {
    let mut order_book = OrderBook::new(2);
    order_book.add_order(Order { price: 102, quantity: 1 }, Side::Sell);
    order_book.add_order(Order { price: 101, quantity: 1 }, Side::Sell);
    order_book.add_order(Order { price: 100, quantity: 1 }, Side::Sell);

    assert_eq!(order_book.asks.len(), 2);
    assert!(order_book.contains_price(100, Side::Sell));
    assert!(order_book.contains_price(101, Side::Sell));
    assert!(!order_book.contains_price(102, Side::Sell));
    assert_eq!(order_book.get_best_ask(), Some(100));
}

#[test]
fn zero_quantity_update_removes_level() {
    let mut order_book = OrderBook::new(10);
    order_book.process_update(OrderBookUpdate { price: 100, quantity: 1, side: Side::Buy });
    assert_eq!(order_book.get_best_bid(), Some(100));
    order_book.process_update(OrderBookUpdate { price: 100, quantity: 0, side: Side::Buy });
    assert_eq!(order_book.get_best_bid(), None);
    assert_eq!(order_book.bids.len(), 0);
}

#[test]
fn zero_quantity_update_for_absent_price_is_noop() {
    let mut order_book = OrderBook::new(10);
    order_book.process_update(OrderBookUpdate { price: 100, quantity: 1, side: Side::Buy });
    order_book.process_update(OrderBookUpdate { price: 99, quantity: 0, side: Side::Buy });
    assert_eq!(order_book.bids.len(), 1);
    assert_eq!(order_book.get_level(100, Side::Buy), Some(Order { price: 100, quantity: 1 }));
    assert_eq!(order_book.get_best_bid(), Some(100));
}

#[test]
fn update_overwrites_quantity_absolutely() {
    let mut order_book = OrderBook::new(10);
    order_book.process_update(OrderBookUpdate { price: 100, quantity: 5, side: Side::Buy });
    order_book.process_update(OrderBookUpdate { price: 100, quantity: 7, side: Side::Buy });
    assert_eq!(order_book.bids.len(), 1);
    assert_eq!(order_book.get_level(100, Side::Buy), Some(Order { price: 100, quantity: 7 }));
}

#[test]
fn snapshot_applies_zero_quantity_as_removal() {
    let mut order_book = OrderBook::new(10);
    let bids = vec![
        OrderBookUpdate { price: 100, quantity: 1, side: Side::Buy },
        OrderBookUpdate { price: 100, quantity: 0, side: Side::Buy },
    ];
    order_book.process_snapshot(bids, vec![]);
    assert_eq!(order_book.bids.len(), 0);
    assert_eq!(order_book.get_best_bid(), None);
}

#[test]
fn snapshot_is_idempotent() {
    let mut order_book = OrderBook::new(10);
    let bids = vec![
        OrderBookUpdate { price: 100, quantity: 1, side: Side::Buy },
        OrderBookUpdate { price: 101, quantity: 2, side: Side::Buy },
    ];
    let asks = vec![
        OrderBookUpdate { price: 102, quantity: 1, side: Side::Sell },
        OrderBookUpdate { price: 103, quantity: 2, side: Side::Sell },
    ];

    order_book.process_snapshot(bids.clone(), asks.clone());
    let bids_once = order_book.get_levels(Side::Buy);
    let asks_once = order_book.get_levels(Side::Sell);
    let best_bid_once = order_book.get_best_bid();
    let best_ask_once = order_book.get_best_ask();

    order_book.process_snapshot(bids, asks);
    assert_eq!(order_book.get_levels(Side::Buy), bids_once);
    assert_eq!(order_book.get_levels(Side::Sell), asks_once);
    assert_eq!(order_book.get_best_bid(), best_bid_once);
    assert_eq!(order_book.get_best_ask(), best_ask_once);
}

#[test]
fn get_levels_orders_most_competitive_first() {
    let mut order_book = OrderBook::new(10);
    let bids = vec![
        OrderBookUpdate { price: 100, quantity: 1, side: Side::Buy },
        OrderBookUpdate { price: 101, quantity: 2, side: Side::Buy },
        OrderBookUpdate { price: 99, quantity: 3, side: Side::Buy },
    ];
    let asks = vec![
        OrderBookUpdate { price: 103, quantity: 1, side: Side::Sell },
        OrderBookUpdate { price: 102, quantity: 2, side: Side::Sell },
    ];
    order_book.process_snapshot(bids, asks);

    let bid_levels = order_book.get_levels(Side::Buy);
    assert_eq!(
        bid_levels,
        vec![
            Order { price: 101, quantity: 2 },
            Order { price: 100, quantity: 1 },
            Order { price: 99, quantity: 3 },
        ]
    );
    let ask_levels = order_book.get_levels(Side::Sell);
    assert_eq!(
        ask_levels,
        vec![Order { price: 102, quantity: 2 }, Order { price: 103, quantity: 1 }]
    );
}

#[test]
fn empty_book_reports_absent_best_prices() {
    let order_book = OrderBook::new(1);
    assert_eq!(order_book.get_best_bid(), None);
    assert_eq!(order_book.get_best_ask(), None);
    assert_eq!(order_book.get_levels(Side::Buy), vec![]);
    assert_eq!(order_book.get_levels(Side::Sell), vec![]);
}
