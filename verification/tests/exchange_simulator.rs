use rayon::iter::{IntoParallelIterator, ParallelIterator};
use backtester_core::exchange_simulator::ExchangeSimulator;
use backtester_core::orderbook_l3::L3_ADD;
use backtester_core::types::L3Update;


use backtester_core::fixtures;
use backtester_core::queue_model::{ConservativeQueue, NoopQueue};
use backtester_core::types::{Order, OrderState, OrderType, Side, Tick};

#[test]
fn test_exchange_submit_transitions_to_pending_new() {
    let mut ex = ExchangeSimulator::new(NoopQueue);
    let order = Order {
        order_id: 1,
        ts_submit: 1_000,
        seq: 0,
        symbol_id: fixtures::SYMBOL_ID_BTC_USDT,
        side: Side::Buy,
        order_type: OrderType::Limit,
        price: 100,
        qty: 1,
    };

    let id = ex.submit_order(order);
    assert_eq!(ex.get_order_state(id), Some(OrderState::PendingNew));
}

#[test]
fn test_exchange_cancel_transitions_to_pending_cancel() {
    let mut ex = ExchangeSimulator::new(NoopQueue);
    let order = Order {
        order_id: 1,
        ts_submit: 1_000,
        seq: 0,
        symbol_id: fixtures::SYMBOL_ID_BTC_USDT,
        side: Side::Buy,
        order_type: OrderType::Limit,
        price: 100,
        qty: 1,
    };

    let id = ex.submit_order(order);
    ex.ack_new(id).expect("ack");
    ex.cancel_order(id).expect("cancel");
    assert_eq!(ex.get_order_state(id), Some(OrderState::PendingCancel));
}

#[test]
fn test_queue_conservative_user_is_last_in_queue() {
    let mut ex = ExchangeSimulator::new(ConservativeQueue);

    // Visible bid queue ahead at price=100 is 10. User places a bid of qty=3 at the same price.
    ex.apply_l2_update(&fixtures::l2_update(1_000, 0, 100, 10, Side::Buy));

    let order = Order {
        order_id: 1,
        ts_submit: 1_000,
        seq: 0,
        symbol_id: fixtures::SYMBOL_ID_BTC_USDT,
        side: Side::Buy,
        order_type: OrderType::Limit,
        price: 100,
        qty: 3,
    };
    let id = ex.submit_order(order);
    ex.ack_new(id).expect("ack");

    // Trade volume first depletes the queue ahead, then can fill the user order.
    let t1 = Tick {
        ts_exchange: 2_000,
        ts_local: 2_000,
        seq: 1,
        symbol_id: fixtures::SYMBOL_ID_BTC_USDT,
        price: 100,
        qty: 9,
        side: Side::Sell,
        flags: 0x01,
    };
    let mut reports = Vec::new();
    ex.on_trade(t1, &mut reports);
    assert!(reports.is_empty());
    assert_eq!(ex.get_filled_qty(id), Some(0));
    assert_eq!(ex.get_remaining_qty(id), Some(3));

    let t2 = Tick {
        ts_exchange: 3_000,
        ts_local: 3_000,
        seq: 2,
        symbol_id: fixtures::SYMBOL_ID_BTC_USDT,
        price: 100,
        qty: 2,
        side: Side::Sell,
        flags: 0x01,
    };
    ex.on_trade(t2, &mut reports);
    assert_eq!(reports.len(), 1);
    assert_eq!(reports[0].status, OrderState::PartiallyFilled);
    assert_eq!(reports[0].last_fill_qty, 1);
    assert_eq!(reports[0].filled_qty, 1);
    assert_eq!(reports[0].remaining_qty, 2);
    reports.clear();

    let t3 = Tick {
        ts_exchange: 4_000,
        ts_local: 4_000,
        seq: 3,
        symbol_id: fixtures::SYMBOL_ID_BTC_USDT,
        price: 100,
        qty: 5,
        side: Side::Sell,
        flags: 0x01,
    };
    ex.on_trade(t3, &mut reports);
    assert_eq!(reports.len(), 1);
    assert_eq!(reports[0].status, OrderState::Filled);
    assert_eq!(reports[0].last_fill_qty, 2);
    assert_eq!(reports[0].filled_qty, 3);
    assert_eq!(reports[0].remaining_qty, 0);
    assert_eq!(ex.get_order_state(id), Some(OrderState::Filled));
}

#[test]
fn test_pending_cancel_can_fill_before_cancel_ack() {
    let mut ex = ExchangeSimulator::new(ConservativeQueue);

    let order = Order {
        order_id: 1,
        ts_submit: 1_000,
        seq: 0,
        symbol_id: fixtures::SYMBOL_ID_BTC_USDT,
        side: Side::Buy,
        order_type: OrderType::Limit,
        price: 100,
        qty: 1,
    };
    let id = ex.submit_order(order);
    ex.ack_new(id).expect("ack");

    ex.cancel_order(id).expect("cancel");
    assert_eq!(ex.get_order_state(id), Some(OrderState::PendingCancel));

    // The order can still fill while cancel is in-flight.
    let trade = Tick {
        ts_exchange: 2_000,
        ts_local: 2_000,
        seq: 1,
        symbol_id: fixtures::SYMBOL_ID_BTC_USDT,
        price: 100,
        qty: 1,
        side: Side::Sell,
        flags: 0x01,
    };
    let mut reports = Vec::new();
    ex.on_trade(trade, &mut reports);
    assert_eq!(reports.len(), 1);
    assert_eq!(reports[0].status, OrderState::Filled);
    assert_eq!(ex.get_order_state(id), Some(OrderState::Filled));

    // Then the cancel is rejected.
    assert_eq!(
        ex.ack_cancel(id).unwrap_err(),
        "cancel rejected: already filled"
    );
    assert_eq!(ex.get_order_state(id), Some(OrderState::Filled));
}

fn market_buy(symbol_id: u32, qty: i64) -> Order {
    Order {
        order_id: 1,
        ts_submit: 1_000,
        seq: 0,
        symbol_id,
        side: Side::Buy,
        order_type: OrderType::Market,
        price: 0,
        qty,
    }
}

fn market_sell(symbol_id: u32, qty: i64) -> Order {
    Order {
        order_id: 2,
        ts_submit: 1_000,
        seq: 0,
        symbol_id,
        side: Side::Sell,
        order_type: OrderType::Market,
        price: 0,
        qty,
    }
}

#[test]
fn test_market_buy_fills_at_best_ask() {
    let mut ex = ExchangeSimulator::new(NoopQueue);
    ex.apply_l2_update(&fixtures::l2_update(1_000, 0, 105, 10, Side::Sell));

    let order = market_buy(fixtures::SYMBOL_ID_BTC_USDT, 5);
    let id = ex.submit_order(order);

    let report = ex
        .fill_market_immediately(id, None)
        .expect("fill_market_immediately should succeed");

    assert_eq!(report.status, OrderState::Filled);
    assert_eq!(report.last_fill_price, 105);
    assert_eq!(report.last_fill_qty, 5);
    assert_eq!(report.filled_qty, 5);
    assert_eq!(report.remaining_qty, 0);
}

#[test]
fn test_market_sell_fills_at_best_bid() {
    let mut ex = ExchangeSimulator::new(NoopQueue);
    ex.apply_l2_update(&fixtures::l2_update(1_000, 0, 100, 8, Side::Buy));

    let order = market_sell(fixtures::SYMBOL_ID_BTC_USDT, 3);
    let id = ex.submit_order(order);

    let report = ex
        .fill_market_immediately(id, None)
        .expect("fill_market_immediately should succeed");

    assert_eq!(report.status, OrderState::Filled);
    assert_eq!(report.last_fill_price, 100);
    assert_eq!(report.last_fill_qty, 3);
    assert_eq!(report.remaining_qty, 0);
}

#[test]
fn test_market_buy_partial_fill_when_book_depth_insufficient() {
    let mut ex = ExchangeSimulator::new(NoopQueue);
    // Only 3 available at best ask; order wants 10
    ex.apply_l2_update(&fixtures::l2_update(1_000, 0, 105, 3, Side::Sell));

    let order = market_buy(fixtures::SYMBOL_ID_BTC_USDT, 10);
    let id = ex.submit_order(order);

    let report = ex
        .fill_market_immediately(id, None)
        .expect("fill_market_immediately should succeed");

    assert_eq!(report.status, OrderState::PartiallyFilled);
    assert_eq!(report.last_fill_qty, 3);
    assert_eq!(report.filled_qty, 3);
    assert_eq!(report.remaining_qty, 7);
}

#[test]
fn test_market_order_rejected_when_book_empty() {
    let mut ex = ExchangeSimulator::new(NoopQueue);
    // No asks in book

    let order = market_buy(fixtures::SYMBOL_ID_BTC_USDT, 1);
    let id = ex.submit_order(order);

    let report = ex
        .fill_market_immediately(id, None)
        .expect("fill_market_immediately should succeed");

    assert_eq!(report.status, OrderState::Rejected);
    assert_eq!(report.last_fill_qty, 0);
    assert!(report.reason.is_some());
}

#[test]
fn test_market_buy_uses_l3_book_best_ask() {

    let mut ex = ExchangeSimulator::new_l3(NoopQueue);
    let upd = L3Update {
        ts_exchange: 1_000,
        seq: 0,
        order_id: 42,
        price: 200,
        qty: 5,
        symbol_id: fixtures::SYMBOL_ID_BTC_USDT,
        side: Side::Sell,
        action: L3_ADD,
    };
    ex.apply_l3_update(&upd).expect("l3 update");

    let order = market_buy(fixtures::SYMBOL_ID_BTC_USDT, 3);
    let id = ex.submit_order(order);

    let report = ex
        .fill_market_immediately(id, None)
        .expect("fill_market_immediately should succeed");

    assert_eq!(report.status, OrderState::Filled);
    assert_eq!(report.last_fill_price, 200);
    assert_eq!(report.last_fill_qty, 3);
}

#[test]
fn test_market_sell_uses_l3_book_best_bid() {

    let mut ex = ExchangeSimulator::new_l3(NoopQueue);
    let upd = L3Update {
        ts_exchange: 1_000,
        seq: 0,
        order_id: 99,
        price: 150,
        qty: 10,
        symbol_id: fixtures::SYMBOL_ID_BTC_USDT,
        side: Side::Buy,
        action: L3_ADD,
    };
    ex.apply_l3_update(&upd).expect("l3 update");

    let order = market_sell(fixtures::SYMBOL_ID_BTC_USDT, 4);
    let id = ex.submit_order(order);

    let report = ex
        .fill_market_immediately(id, None)
        .expect("fill_market_immediately should succeed");

    assert_eq!(report.status, OrderState::Filled);
    assert_eq!(report.last_fill_price, 150);
    assert_eq!(report.last_fill_qty, 4);
}

/// After remove_order, a subsequent on_trade at the same price must not
/// process the removed order ID (bucket pruning correctness).
#[test]
fn test_remove_order_prunes_bucket_before_next_trade() {
    let mut ex = ExchangeSimulator::new(ConservativeQueue);
    // No queue ahead, so the order fills immediately
    ex.apply_l2_update(&fixtures::l2_update(1_000, 0, 100, 0, Side::Buy));

    let order = Order {
        order_id: 99,
        ts_submit: 1_000,
        seq: 0,
        symbol_id: fixtures::SYMBOL_ID_BTC_USDT,
        side: Side::Buy,
        order_type: OrderType::Limit,
        price: 100,
        qty: 5,
    };
    let id = ex.submit_order(order);
    ex.ack_new(id).expect("ack");

    // Remove before any trade — simulates an explicit cancel cleanup.
    ex.remove_order(id);

    // Subsequent on_trade at the same price must produce zero fills.
    let trade = Tick {
        ts_exchange: 2_000,
        ts_local: 2_000,
        seq: 1,
        symbol_id: fixtures::SYMBOL_ID_BTC_USDT,
        price: 100,
        qty: 10,
        side: Side::Sell,
        flags: 0x01,
    };
    let mut reports = Vec::new();
    ex.on_trade(trade, &mut reports);
    assert!(reports.is_empty(), "removed order must not fill");
}

/// The bucket index finds the order, and the fill follows the queue.
#[test]
fn test_dashmap_bucket_produces_same_fills_as_hashmap() {
    let mut ex = ExchangeSimulator::new(ConservativeQueue);
    ex.apply_l2_update(&fixtures::l2_update(1_000, 0, 100, 5, Side::Buy));

    let order = Order {
        order_id: 10,
        ts_submit: 1_000,
        seq: 0,
        symbol_id: fixtures::SYMBOL_ID_BTC_USDT,
        side: Side::Buy,
        order_type: OrderType::Limit,
        price: 100,
        qty: 3,
    };
    let id = ex.submit_order(order);
    ex.ack_new(id).expect("ack");

    // Full fill after depleting queue ahead (5) + 3 more
    let t1 = Tick {
        ts_exchange: 2_000,
        ts_local: 2_000,
        seq: 1,
        symbol_id: fixtures::SYMBOL_ID_BTC_USDT,
        price: 100,
        qty: 8,
        side: Side::Sell,
        flags: 0x01,
    };
    let mut reports = Vec::new();
    ex.on_trade(t1, &mut reports);
    assert_eq!(reports.len(), 1);
    assert_eq!(reports[0].status, OrderState::Filled);
}

/// Exchanges that run on several threads do not touch each other.
#[test]
fn test_concurrent_sweeps_produce_independent_results() {
    // 16 parallel sweep instances, each with a buy order that fully fills
    // (no queue ahead → ConservativeQueue grants immediate fill).
    let results: Vec<(OrderState, i64)> = (0..16u64)
        .into_par_iter()
        .map(|i| {
            let mut ex = ExchangeSimulator::new(ConservativeQueue);
            // No queue ahead at price=100 buy side → user order fills immediately.
            ex.apply_l2_update(&fixtures::l2_update(1_000, 0, 100, 0, Side::Buy));

            let order = Order {
                order_id: i + 1,
                ts_submit: 1_000,
                seq: 0,
                symbol_id: fixtures::SYMBOL_ID_BTC_USDT,
                side: Side::Buy,
                order_type: OrderType::Limit,
                price: 100,
                qty: 2,
            };
            let id = ex.submit_order(order);
            ex.ack_new(id).expect("ack");

            let trade = Tick {
                ts_exchange: 2_000,
                ts_local: 2_000,
                seq: 1,
                symbol_id: fixtures::SYMBOL_ID_BTC_USDT,
                price: 100,
                qty: 5, // more than enough to fill qty=2
                side: Side::Sell,
                flags: 0x01,
            };
            let mut reports = Vec::new();
            ex.on_trade(trade, &mut reports);
            let r = reports.first().expect("expected fill report");
            (r.status, r.filled_qty)
        })
        .collect();

    // Every parallel sweep must independently produce a full fill of qty=2.
    for (status, filled_qty) in &results {
        assert_eq!(*status, OrderState::Filled, "unexpected status");
        assert_eq!(*filled_qty, 2, "unexpected filled_qty");
    }
}
