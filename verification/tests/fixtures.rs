use backtester_core::event::EventKind;
use backtester_core::fixtures::{
    event_tick, l2_update, order_limit, tick_trade, tiny_deterministic_tick_stream,
    SYMBOL_ID_BTC_USDT,
};
use backtester_core::types::Side;


#[test]
fn test_fixtures_smoke_builders() {
    let t = tick_trade(1_000, 1_234, 7);
    assert_eq!(t.ts_exchange, 1_000);
    assert_eq!(t.ts_local, 1_234);
    assert_eq!(t.seq, 7);
    assert_eq!(t.symbol_id, SYMBOL_ID_BTC_USDT);
    assert_eq!(t.side, Side::Buy);

    let u = l2_update(2_000, 9, 123, 456, Side::Sell);
    assert_eq!(u.ts_exchange, 2_000);
    assert_eq!(u.seq, 9);
    assert_eq!(u.symbol_id, SYMBOL_ID_BTC_USDT);
    assert_eq!(u.price, 123);
    assert_eq!(u.qty, 456);
    assert_eq!(u.side, Side::Sell);

    let o = order_limit(42, 3_000, 1, 999, 888, Side::Buy);
    assert_eq!(o.order_id, 42);
    assert_eq!(o.ts_submit, 3_000);
    assert_eq!(o.seq, 1);
    assert_eq!(o.symbol_id, SYMBOL_ID_BTC_USDT);
    assert_eq!(o.price, 999);
    assert_eq!(o.qty, 888);
    assert_eq!(o.side, Side::Buy);

    let e = event_tick(4_000, 123, t);
    assert_eq!(e.id.ts_sim, 4_000);
    assert_eq!(e.id.seq, 123);
    match e.kind {
        EventKind::Tick(_) => {}
        _ => panic!("expected Tick event"),
    }

    let stream = tiny_deterministic_tick_stream();
    assert_eq!(stream.len(), 4);
    assert_eq!(stream[0].seq, 0);
    assert_eq!(stream[3].seq, 3);
}
