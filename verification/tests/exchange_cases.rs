use backtester_core::exchange_simulator::ExchangeSimulator;
use backtester_core::fixtures;
use backtester_core::orderbook_l3::{L3_ADD, L3_DELETE};
use backtester_core::queue_model::{ConservativeQueue, L3ExactQueue};
use backtester_core::types::{L3Update, Order, OrderReport, OrderState, OrderType, Side, Tick};

fn limit(order_id: u64, side: Side, qty: i64) -> Order {
    Order {
        order_id,
        ts_submit: 0,
        seq: 0,
        price: 100,
        qty,
        symbol_id: fixtures::SYMBOL_ID_BTC_USDT,
        side,
        order_type: OrderType::Limit,
    }
}

fn trade(side: Side, price: i64, qty: i64) -> Tick {
    Tick {
        ts_exchange: 5,
        ts_local: 5,
        seq: 0,
        price,
        qty,
        symbol_id: fixtures::SYMBOL_ID_BTC_USDT,
        side,
        flags: 1,
    }
}

fn reports_on(ex: &mut ExchangeSimulator<ConservativeQueue>, t: Tick) -> Vec<OrderReport> {
    let mut reports = Vec::new();
    ex.on_trade(t, &mut reports);
    reports
}

fn with_open_bid(qty: i64) -> ExchangeSimulator<ConservativeQueue> {
    let mut ex = ExchangeSimulator::new(ConservativeQueue);
    ex.submit_order(limit(1, Side::Buy, qty));
    ex.ack_new(1).expect("ack");
    ex
}

#[test]
fn requests_on_unknown_orders_are_refused() {
    let mut ex = ExchangeSimulator::new(ConservativeQueue);
    assert_eq!(ex.ack_new(1).err(), Some("unknown order_id"));
    assert_eq!(ex.cancel_order(1).err(), Some("unknown order_id"));
    assert_eq!(ex.ack_cancel(1).err(), Some("unknown order_id"));
    assert_eq!(ex.fill_market_immediately(1, Some(5)), None);
    assert_eq!(ex.force_cancel_partial_fill(1), None);
    assert_eq!(ex.get_order_state(1), None);
    assert_eq!(ex.get_order(1), None);
    assert_eq!(ex.get_filled_qty(1), None);
    assert_eq!(ex.get_remaining_qty(1), None);
    ex.remove_order(1);
}

#[test]
fn requests_in_the_wrong_state_are_refused() {
    let mut ex = ExchangeSimulator::new(ConservativeQueue);
    ex.submit_order(limit(1, Side::Buy, 5));
    assert_eq!(
        ex.cancel_order(1).err(),
        Some("order cannot transition to PendingCancel")
    );
    ex.ack_new(1).expect("ack");
    assert_eq!(ex.ack_new(1).err(), Some("order is not PendingNew"));
    assert!(ex.ack_cancel(1).is_err());
    assert_eq!(ex.get_order_state(1), Some(OrderState::Open));
}

#[test]
fn quantities_are_conserved() {
    let mut ex = with_open_bid(10);
    let total = |ex: &ExchangeSimulator<ConservativeQueue>| {
        ex.get_filled_qty(1).unwrap() + ex.get_remaining_qty(1).unwrap()
    };
    for qty in [3, 4, 9] {
        reports_on(&mut ex, trade(Side::Sell, 100, qty));
        assert_eq!(total(&ex), 10);
    }
    assert_eq!(ex.get_order_state(1), Some(OrderState::Filled));
    assert_eq!(ex.get_filled_qty(1), Some(10));
    // A filled order meets no further trade.
    assert!(reports_on(&mut ex, trade(Side::Sell, 100, 5)).is_empty());
}

#[test]
fn trades_meet_the_other_side_at_their_price() {
    let mut ex = with_open_bid(10);
    assert!(reports_on(&mut ex, trade(Side::Buy, 100, 5)).is_empty());
    assert!(reports_on(&mut ex, trade(Side::Sell, 99, 5)).is_empty());
    assert!(reports_on(&mut ex, trade(Side::NoSide, 100, 5)).is_empty());
    let reports = reports_on(&mut ex, trade(Side::Sell, 100, 4));
    assert_eq!(reports.len(), 1);
    assert_eq!(reports[0].last_fill_qty, 4);
    assert_eq!(reports[0].remaining_qty, 6);
    assert_eq!(reports[0].status, OrderState::PartiallyFilled);
}

#[test]
fn orders_fill_in_order_of_submission() {
    let mut ex = ExchangeSimulator::new(ConservativeQueue);
    for id in [9, 3, 7, 1, 8, 2] {
        ex.submit_order(limit(id, Side::Buy, 5));
        ex.ack_new(id).expect("ack");
    }
    let ids: Vec<u64> =
        reports_on(&mut ex, trade(Side::Sell, 100, 5)).iter().map(|r| r.order_id).collect();
    assert_eq!(ids, vec![9, 3, 7, 1, 8, 2]);
}

#[test]
fn a_removed_order_never_fills() {
    let mut ex = with_open_bid(10);
    ex.submit_order(limit(2, Side::Buy, 5));
    ex.ack_new(2).expect("ack");
    ex.remove_order(1);
    let reports = reports_on(&mut ex, trade(Side::Sell, 100, 50));
    assert_eq!(reports.len(), 1);
    assert_eq!(reports[0].order_id, 2);
}

#[test]
fn a_fill_beats_a_cancel_in_flight() {
    let mut ex = with_open_bid(10);
    ex.cancel_order(1).expect("cancel");
    assert_eq!(reports_on(&mut ex, trade(Side::Sell, 100, 10)).len(), 1);
    assert_eq!(ex.get_order_state(1), Some(OrderState::Filled));
    assert!(ex.ack_cancel(1).is_err());
    assert_eq!(ex.get_order_state(1), Some(OrderState::Filled));
}

#[test]
fn a_cancel_without_a_fill_is_carried_out() {
    let mut ex = with_open_bid(10);
    ex.cancel_order(1).expect("cancel");
    let report = ex.ack_cancel(1).expect("ack");
    assert_eq!(report.status, OrderState::Cancelled);
    assert_eq!((report.filled_qty, report.remaining_qty), (0, 10));
    assert!(reports_on(&mut ex, trade(Side::Sell, 100, 10)).is_empty());
}

#[test]
fn the_rest_of_a_market_order_is_cancelled() {
    let mut ex = ExchangeSimulator::new(ConservativeQueue);
    ex.apply_l2_update(&fixtures::l2_update(1, 0, 101, 4, Side::Sell));
    let order = Order {
        order_type: OrderType::Market,
        ..limit(1, Side::Buy, 10)
    };
    ex.submit_order(order);
    let report = ex.fill_market_immediately(1, None).expect("report");
    assert_eq!(report.status, OrderState::PartiallyFilled);
    assert_eq!((report.last_fill_price, report.last_fill_qty), (101, 4));
    let report = ex.force_cancel_partial_fill(1).expect("report");
    assert_eq!(report.status, OrderState::Cancelled);
    assert_eq!((report.filled_qty, report.remaining_qty), (4, 6));
    assert_eq!(
        report.reason,
        Some("market order partial fill: remaining qty cancelled")
    );
}

#[test]
fn venue_orders_that_leave_bring_an_order_forward() {
    let mut ex = ExchangeSimulator::new_l3(L3ExactQueue);
    assert!(ex.has_l3_book());
    let venue = |order_id: u64, qty: i64, action: u8| L3Update {
        ts_exchange: 1,
        seq: 0,
        order_id,
        price: 100,
        qty,
        symbol_id: fixtures::SYMBOL_ID_BTC_USDT,
        side: Side::Buy,
        action,
    };
    ex.apply_l3_update(&venue(50, 10, L3_ADD)).expect("add");
    ex.apply_l3_update(&venue(51, 20, L3_ADD)).expect("add");
    ex.submit_order(limit(1, Side::Buy, 5));
    ex.ack_new(1).expect("ack");
    ex.apply_l3_update(&venue(51, 0, L3_DELETE)).expect("delete");
    let mut reports = Vec::new();
    ex.on_trade(trade(Side::Sell, 100, 12), &mut reports);
    assert_eq!(reports.len(), 1);
    assert_eq!(reports[0].last_fill_qty, 2);
}

#[test]
fn book_updates_need_an_order_by_order_book() {
    let mut ex = ExchangeSimulator::new(ConservativeQueue);
    assert!(!ex.has_l3_book());
    let update = L3Update {
        ts_exchange: 1,
        seq: 0,
        order_id: 1,
        price: 100,
        qty: 1,
        symbol_id: fixtures::SYMBOL_ID_BTC_USDT,
        side: Side::Buy,
        action: L3_ADD,
    };
    assert_eq!(
        ex.apply_l3_update(&update).err(),
        Some("exchange is not in L3 depth mode")
    );
}

#[test]
fn a_cancel_in_flight_outlasts_a_partial_fill() {
    let mut ex = with_open_bid(3);
    ex.cancel_order(1).expect("cancel");
    let reports = reports_on(&mut ex, trade(Side::Sell, 100, 1));
    assert_eq!(reports.len(), 1);
    assert_eq!((reports[0].last_fill_qty, reports[0].remaining_qty), (1, 2));
    assert_eq!(ex.get_order_state(1), Some(OrderState::PendingCancel));
    let report = ex.ack_cancel(1).expect("ack");
    assert_eq!(report.status, OrderState::Cancelled);
    assert_eq!((report.filled_qty, report.remaining_qty), (1, 2));
}
