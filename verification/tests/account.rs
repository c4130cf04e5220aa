use backtester_core::account::Account;


use backtester_core::fixtures;
use backtester_core::types::{FundingEvent, Order, OrderType, Side};

#[test]
fn account_test_funding_applied_at_scheduled_ts_exchange() {
    let mut acct = Account::default();

    // Long 1.0 (scaled) at mark price 100.00 (scaled).
    let order = Order {
        order_id: 1,
        ts_submit: 1_000,
        seq: 0,
        symbol_id: fixtures::SYMBOL_ID_BTC_USDT,
        side: Side::Buy,
        order_type: OrderType::Limit,
        price: 100_00000000,
        qty: 1_00000000,
    };
    acct.on_fill(&order, 1_00000000);

    let event = FundingEvent {
        ts_exchange: 3_000,
        symbol_id: fixtures::SYMBOL_ID_BTC_USDT,
        rate: 10_000, // 0.0001
    };

    let pnl = acct.apply_funding(&event, 100_00000000);
    // Notional=100.00, rate=0.0001 => pay 0.01
    assert_eq!(pnl, -1_000_000);
    assert_eq!(acct.total_funding_pnl(), -1_000_000);
    assert_eq!(acct.position_qty(fixtures::SYMBOL_ID_BTC_USDT), 1_00000000);
}
