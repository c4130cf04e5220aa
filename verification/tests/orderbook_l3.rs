use backtester_core::orderbook_l3::{OrderBookL3, L3_ADD, L3_DELETE, L3_MODIFY};
use backtester_core::types::{L3Update, Side};


fn add(price: i64, order_id: u64, qty: i64, side: Side) -> L3Update {
    L3Update {
        ts_exchange: 0,
            seq: 0,
        symbol_id: 1,
        price,
        qty,
        order_id,
        side,
        action: L3_ADD,
    }
}

fn delete(price: i64, order_id: u64, side: Side) -> L3Update {
    L3Update {
        ts_exchange: 0,
            seq: 0,
        symbol_id: 1,
        price,
        qty: 0,
        order_id,
        side,
        action: L3_DELETE,
    }
}

fn modify(price: i64, order_id: u64, qty: i64, side: Side) -> L3Update {
    L3Update {
        ts_exchange: 0,
            seq: 0,
        symbol_id: 1,
        price,
        qty,
        order_id,
        side,
        action: L3_MODIFY,
    }
}

#[test]
fn test_add_orders_and_level_qty() {
    let mut book = OrderBookL3::new();
    book.apply_l3(&add(100, 1, 10, Side::Buy)).expect("apply");
    book.apply_l3(&add(100, 2, 5, Side::Buy)).expect("apply");
    assert_eq!(book.level_qty(Side::Buy, 100), 15);
}

#[test]
fn test_delete_removes_order_and_updates_level_qty() {
    let mut book = OrderBookL3::new();
    book.apply_l3(&add(100, 1, 10, Side::Buy)).expect("apply");
    book.apply_l3(&add(100, 2, 5, Side::Buy)).expect("apply");
    book.apply_l3(&delete(100, 1, Side::Buy)).expect("apply");
    assert_eq!(book.level_qty(Side::Buy, 100), 5);
}

#[test]
fn test_modify_updates_qty_in_place() {
    let mut book = OrderBookL3::new();
    book.apply_l3(&add(100, 1, 10, Side::Buy)).expect("apply");
    book.apply_l3(&modify(100, 1, 3, Side::Buy)).expect("apply");
    assert_eq!(book.level_qty(Side::Buy, 100), 3);
}

#[test]
fn test_qty_ahead_returns_sum_of_orders_before_given_id() {
    let mut book = OrderBookL3::new();
    // Queue order: [order 1 (qty=10), order 2 (qty=5), order 3 (qty=3)]
    book.apply_l3(&add(100, 1, 10, Side::Buy)).expect("apply");
    book.apply_l3(&add(100, 2, 5, Side::Buy)).expect("apply");
    book.apply_l3(&add(100, 3, 3, Side::Buy)).expect("apply");

    // order 1 is first — nothing ahead
    assert_eq!(book.qty_ahead(Side::Buy, 100, 1), 0);
    // order 2 has order 1 (qty=10) ahead
    assert_eq!(book.qty_ahead(Side::Buy, 100, 2), 10);
    // order 3 has orders 1+2 (qty=15) ahead
    assert_eq!(book.qty_ahead(Side::Buy, 100, 3), 15);
}

#[test]
fn test_qty_ahead_after_delete_reflects_cancellation() {
    let mut book = OrderBookL3::new();
    book.apply_l3(&add(100, 1, 10, Side::Buy)).expect("apply");
    book.apply_l3(&add(100, 2, 5, Side::Buy)).expect("apply");
    book.apply_l3(&add(100, 3, 3, Side::Buy)).expect("apply");
    // Cancel order 1 (which was ahead of order 3)
    book.apply_l3(&delete(100, 1, Side::Buy)).expect("apply");

    // Now order 3 only has order 2 (qty=5) ahead
    assert_eq!(book.qty_ahead(Side::Buy, 100, 3), 5);
}

#[test]
fn test_qty_ahead_unknown_order_id_returns_level_qty() {
    let mut book = OrderBookL3::new();
    book.apply_l3(&add(100, 1, 10, Side::Buy)).expect("apply");
    // order_id=99 not in queue — conservative fallback
    assert_eq!(book.qty_ahead(Side::Buy, 100, 99), 10);
}

#[test]
fn test_best_bid_ask() {
    let mut book = OrderBookL3::new();
    book.apply_l3(&add(100, 1, 10, Side::Buy)).expect("apply");
    book.apply_l3(&add(101, 2, 5, Side::Buy)).expect("apply");
    book.apply_l3(&add(103, 3, 7, Side::Sell)).expect("apply");
    book.apply_l3(&add(105, 4, 3, Side::Sell)).expect("apply");
    assert_eq!(book.best_bid(), Some((101, 5)));
    assert_eq!(book.best_ask(), Some((103, 7)));
}

#[test]
fn test_delete_last_order_removes_price_level() {
    let mut book = OrderBookL3::new();
    book.apply_l3(&add(100, 1, 10, Side::Buy)).expect("apply");
    book.apply_l3(&delete(100, 1, Side::Buy)).expect("apply");
    assert_eq!(book.level_qty(Side::Buy, 100), 0);
    assert_eq!(book.best_bid(), None);
}
