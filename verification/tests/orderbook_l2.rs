use backtester_core::orderbook_l2::OrderBookL2;

use backtester_core::fixtures;
use backtester_core::types::Side;

#[test]
fn test_orderbook_l2_apply_update_and_best_bid_ask() {
    let mut ob = OrderBookL2::new();
    assert_eq!(ob.best_bid(), None);
    assert_eq!(ob.best_ask(), None);

    ob.apply_l2(&fixtures::l2_update(1_000, 0, 100, 10, Side::Buy));
    ob.apply_l2(&fixtures::l2_update(1_000, 1, 101, 11, Side::Buy));
    assert_eq!(ob.best_bid(), Some((101, 11)));

    ob.apply_l2(&fixtures::l2_update(1_000, 2, 105, 7, Side::Sell));
    ob.apply_l2(&fixtures::l2_update(1_000, 3, 103, 9, Side::Sell));
    assert_eq!(ob.best_ask(), Some((103, 9)));
}

#[test]
fn test_orderbook_l2_remove_level_with_qty_zero() {
    let mut ob = OrderBookL2::new();
    ob.apply_l2(&fixtures::l2_update(1_000, 0, 101, 11, Side::Buy));
    assert_eq!(ob.best_bid(), Some((101, 11)));

    ob.apply_l2(&fixtures::l2_update(1_000, 1, 101, 0, Side::Buy));
    assert_eq!(ob.best_bid(), None);
}
