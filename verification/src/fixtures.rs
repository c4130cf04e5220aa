//! Tiny deterministic fixtures for unit/integration tests and benches.
//!
//! Keep fixtures in-memory and small; avoid external datasets.
use vstd::prelude::*;

use crate::event::{Event, EventId, EventKind};
use crate::types::{L2Update, Order, OrderType, Side, Tick};

verus! {

pub const SYMBOL_ID_BTC_USDT: u32 = 1;

/// A trade of one unit.
pub open spec fn unit_trade(ts: i64, seq: u64, price: i64, side: Side) -> Tick {
    Tick {
        ts_exchange: ts,
        ts_local: ts,
        seq,
        price,
        qty: 100_000_000,
        symbol_id: SYMBOL_ID_BTC_USDT,
        side,
        flags: 0x01,
    }
}

pub fn tick_trade(ts_exchange: i64, ts_local: i64, seq: u64) -> (r: Tick)
    ensures
        r == (Tick {
            ts_local,
            ..unit_trade(ts_exchange, seq, 10_000_000_000, Side::Buy)
        }),
{
    Tick {
        ts_exchange,
        ts_local,
        seq,
        symbol_id: SYMBOL_ID_BTC_USDT,
        price: 100_00000000,
        qty: 1_00000000,
        side: Side::Buy,
        flags: 0x01,  // TRADE
    }
}

pub fn l2_update(ts_exchange: i64, seq: u64, price: i64, qty: i64, side: Side) -> (r: L2Update)
    ensures
        r == (L2Update { ts_exchange, seq, price, qty, symbol_id: SYMBOL_ID_BTC_USDT, side }),
{
    L2Update { ts_exchange, seq, symbol_id: SYMBOL_ID_BTC_USDT, price, qty, side }
}

pub fn order_limit(
    order_id: u64,
    ts_submit: i64,
    seq: u64,
    price: i64,
    qty: i64,
    side: Side,
) -> (r: Order)
    ensures
        r == (Order {
            order_id,
            ts_submit,
            seq,
            price,
            qty,
            symbol_id: SYMBOL_ID_BTC_USDT,
            side,
            order_type: OrderType::Limit,
        }),
{
    Order {
        order_id,
        ts_submit,
        seq,
        symbol_id: SYMBOL_ID_BTC_USDT,
        side,
        order_type: OrderType::Limit,
        price,
        qty,
    }
}

pub fn event_tick(ts_sim: i64, seq: u64, tick: Tick) -> (r: Event)
    ensures
        r == (Event { id: EventId { ts_sim, seq }, kind: EventKind::Tick(tick) }),
{
    Event { id: EventId { ts_sim, seq }, kind: EventKind::Tick(tick) }
}

pub fn event_l2(ts_sim: i64, seq: u64, update: L2Update) -> (r: Event)
    ensures
        r == (Event { id: EventId { ts_sim, seq }, kind: EventKind::L2Update(update) }),
{
    Event { id: EventId { ts_sim, seq }, kind: EventKind::L2Update(update) }
}

pub fn event_order(ts_sim: i64, seq: u64, order: Order) -> (r: Event)
    ensures
        r == (Event { id: EventId { ts_sim, seq }, kind: EventKind::Order(order) }),
{
    Event { id: EventId { ts_sim, seq }, kind: EventKind::Order(order) }
}

pub fn tiny_deterministic_tick_stream() -> (r: Vec<Tick>)
    ensures
        r@ == seq![
            unit_trade(1_000, 0, 10_000_000_000, Side::Buy),
            unit_trade(2_000, 1, 10_100_000_000, Side::Sell),
            unit_trade(3_000, 2, 9_900_000_000, Side::Buy),
            unit_trade(4_000, 3, 10_000_000_000, Side::Sell),
        ],
{
    let r: Vec<Tick> = vec![
        Tick {
            ts_exchange: 1_000,
            ts_local: 1_000,
            seq: 0,
            symbol_id: SYMBOL_ID_BTC_USDT,
            price: 100_00000000,
            qty: 1_00000000,
            side: Side::Buy,
            flags: 0x01,
        },
        Tick {
            ts_exchange: 2_000,
            ts_local: 2_000,
            seq: 1,
            symbol_id: SYMBOL_ID_BTC_USDT,
            price: 101_00000000,
            qty: 1_00000000,
            side: Side::Sell,
            flags: 0x01,
        },
        Tick {
            ts_exchange: 3_000,
            ts_local: 3_000,
            seq: 2,
            symbol_id: SYMBOL_ID_BTC_USDT,
            price: 99_00000000,
            qty: 1_00000000,
            side: Side::Buy,
            flags: 0x01,
        },
        Tick {
            ts_exchange: 4_000,
            ts_local: 4_000,
            seq: 3,
            symbol_id: SYMBOL_ID_BTC_USDT,
            price: 100_00000000,
            qty: 1_00000000,
            side: Side::Sell,
            flags: 0x01,
        },
    ];
    assert(r@ =~= seq![
        unit_trade(1_000, 0, 10_000_000_000, Side::Buy),
        unit_trade(2_000, 1, 10_100_000_000, Side::Sell),
        unit_trade(3_000, 2, 9_900_000_000, Side::Buy),
        unit_trade(4_000, 3, 10_000_000_000, Side::Sell),
    ]);
    r
}

} // verus!
