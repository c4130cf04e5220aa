use backtester_core::queue_model::{QueueModel, VolumeClockQueue};


use backtester_core::fixtures;
use backtester_core::orderbook_l2::OrderBookL2;
use backtester_core::types::{Order, OrderType, Side, Tick};

#[test]
fn test_queue_volume_clock_fills_when_cum_volume_exceeds_queue_pos() {
    // Visible queue ahead at entry = 10.
    let mut book = OrderBookL2::new();
    book.apply_l2(&fixtures::l2_update(1_000, 0, 100, 10, Side::Buy));

    let order = Order {
        order_id: 1,
        ts_submit: 1_000,
        seq: 0,
        symbol_id: fixtures::SYMBOL_ID_BTC_USDT,
        side: Side::Buy,
        order_type: OrderType::Limit,
        price: 100,
        qty: 3,
    };

    let mut qm = VolumeClockQueue;
    let mut state = qm.register_order(&order, &book);

    // cum = 10 => not filled
    let t1 = Tick {
        ts_exchange: 2_000,
        ts_local: 2_000,
        seq: 1,
        symbol_id: fixtures::SYMBOL_ID_BTC_USDT,
        price: 100,
        qty: 10,
        side: Side::Sell,
        flags: 0x01,
    };
    assert_eq!(qm.check_fill(&order, 3, &t1, &mut state), 0);

    // cum = 11 => fill starts (exceeds queue_pos)
    let t2 = Tick {
        ts_exchange: 3_000,
        ts_local: 3_000,
        seq: 2,
        symbol_id: fixtures::SYMBOL_ID_BTC_USDT,
        price: 100,
        qty: 1,
        side: Side::Sell,
        flags: 0x01,
    };
    assert_eq!(qm.check_fill(&order, 3, &t2, &mut state), 1);

    // More volume past the queue fills the rest.
    let t3 = Tick {
        ts_exchange: 4_000,
        ts_local: 4_000,
        seq: 3,
        symbol_id: fixtures::SYMBOL_ID_BTC_USDT,
        price: 100,
        qty: 5,
        side: Side::Sell,
        flags: 0x01,
    };
    assert_eq!(qm.check_fill(&order, 2, &t3, &mut state), 2);
}
