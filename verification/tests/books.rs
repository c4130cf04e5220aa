use backtester_core::fixtures;
use backtester_core::orderbook_l2::{MarketDepth, OrderBookL2};
use backtester_core::orderbook_l3::{OrderBookL3, L3_ADD, L3_DELETE, L3_MODIFY};
use backtester_core::queue_model::{
    ConservativeQueue, L3ExactQueue, NoopQueue, QueueModel, VolumeClockQueue,
};
use backtester_core::types::{L3Update, Order, OrderType, Side, Tick};

fn venue(order_id: u64, qty: i64, action: u8) -> L3Update {
    L3Update {
        ts_exchange: 1,
        seq: 0,
        order_id,
        price: 100,
        qty,
        symbol_id: fixtures::SYMBOL_ID_BTC_USDT,
        side: Side::Buy,
        action,
    }
}

fn bid(qty: i64) -> Order {
    Order {
        order_id: 900,
        ts_submit: 0,
        seq: 0,
        price: 100,
        qty,
        symbol_id: fixtures::SYMBOL_ID_BTC_USDT,
        side: Side::Buy,
        order_type: OrderType::Limit,
    }
}

fn sale(price: i64, qty: i64) -> Tick {
    Tick {
        ts_exchange: 2,
        ts_local: 2,
        seq: 0,
        price,
        qty,
        symbol_id: fixtures::SYMBOL_ID_BTC_USDT,
        side: Side::Sell,
        flags: 1,
    }
}

#[test]
fn a_price_level_reads_as_it_was_written() {
    let mut book = OrderBookL2::new();
    book.apply_l2(&fixtures::l2_update(1, 0, 100, 5, Side::Buy));
    book.apply_l2(&fixtures::l2_update(1, 1, 101, 6, Side::Buy));
    book.apply_l2(&fixtures::l2_update(1, 2, 101, 7, Side::Sell));
    assert_eq!(book.level_qty(Side::Buy, 100), 5);
    assert_eq!(book.level_qty(Side::Buy, 101), 6);
    assert_eq!(book.level_qty(Side::Sell, 101), 7);
    assert_eq!(book.level_qty(Side::Sell, 100), 0);
    assert_eq!(book.level_qty(Side::NoSide, 100), 0);
    assert_eq!(book.best_bid(), Some((101, 6)));
    assert_eq!(book.best_ask(), Some((101, 7)));
    book.apply_l2(&fixtures::l2_update(1, 3, 101, 0, Side::Buy));
    assert_eq!(book.level_qty(Side::Buy, 101), 0);
    assert_eq!(book.best_bid(), Some((100, 5)));
    // Depth without a side is ignored.
    book.apply_l2(&fixtures::l2_update(1, 4, 50, 9, Side::NoSide));
    assert_eq!(book.best_bid(), Some((100, 5)));
    assert_eq!(book.best_ask(), Some((101, 7)));
}

#[test]
fn an_empty_book_has_no_best_price() {
    let book = OrderBookL2::default();
    assert_eq!(book.best_bid(), None);
    assert_eq!(book.best_ask(), None);
    let book = OrderBookL3::default();
    assert_eq!(book.best_bid(), None);
    assert_eq!(book.best_ask(), None);
}

#[test]
fn venue_orders_queue_up_in_order() {
    let mut book = OrderBookL3::new();
    for (id, qty) in [(1, 10), (2, 20), (3, 30)] {
        book.apply_l3(&venue(id, qty, L3_ADD)).unwrap();
    }
    assert_eq!(book.qty_ahead(Side::Buy, 100, 1), 0);
    assert_eq!(book.qty_ahead(Side::Buy, 100, 2), 10);
    assert_eq!(book.qty_ahead(Side::Buy, 100, 3), 30);
    assert_eq!(book.orders_ahead(Side::Buy, 100, 3), vec![(1, 10), (2, 20)]);
    // A changed quantity keeps the places.
    book.apply_l3(&venue(2, 25, L3_MODIFY)).unwrap();
    assert_eq!(book.orders_ahead(Side::Buy, 100, 3), vec![(1, 10), (2, 25)]);
    // A deletion moves the others up.
    book.apply_l3(&venue(1, 0, L3_DELETE)).unwrap();
    assert_eq!(book.qty_ahead(Side::Buy, 100, 3), 25);
    assert_eq!(book.level_qty(Side::Buy, 100), 55);
    // The other side is not touched.
    assert_eq!(book.level_qty(Side::Sell, 100), 0);
}

#[test]
fn a_deletion_undoes_an_addition() {
    let mut book = OrderBookL3::new();
    book.apply_l3(&venue(1, 10, L3_ADD)).unwrap();
    book.apply_l3(&venue(2, 20, L3_ADD)).unwrap();
    book.apply_l3(&venue(2, 0, L3_DELETE)).unwrap();
    assert_eq!(book.level_qty(Side::Buy, 100), 10);
    assert_eq!(book.orders_ahead(Side::Buy, 100, 77), vec![(1, 10)]);
    book.apply_l3(&venue(1, 0, L3_DELETE)).unwrap();
    assert_eq!(book.best_bid(), None);
}

#[test]
fn level_totals_saturate() {
    let mut book = OrderBookL3::new();
    book.apply_l3(&venue(1, i64::MAX, L3_ADD)).unwrap();
    book.apply_l3(&venue(2, 5, L3_ADD)).unwrap();
    assert_eq!(book.level_qty(Side::Buy, 100), i64::MAX);
    assert_eq!(book.best_bid(), Some((100, i64::MAX)));
}

#[test]
fn the_noop_model_never_fills() {
    let mut book = OrderBookL2::new();
    book.apply_l2(&fixtures::l2_update(1, 0, 100, 50, Side::Buy));
    let mut model = NoopQueue;
    model.register_order(&bid(5), &book);
    assert_eq!(model.check_fill(&bid(5), 5, &sale(100, 3), &mut ()), 0);
}

#[test]
fn conservative_orders_fill_behind_the_queue() {
    let mut book = OrderBookL2::new();
    book.apply_l2(&fixtures::l2_update(1, 0, 100, 10, Side::Buy));
    let mut model = ConservativeQueue;
    let mut state = model.register_order(&bid(5), &book);
    assert_eq!(state.qty_ahead, 10);
    assert_eq!(model.check_fill(&bid(5), 5, &sale(100, 4), &mut state), 0);
    assert_eq!(state.qty_ahead, 6);
    assert_eq!(model.check_fill(&bid(5), 5, &sale(100, 9), &mut state), 3);
    assert_eq!(state.qty_ahead, 0);
    assert_eq!(model.check_fill(&bid(5), 2, &sale(100, 9), &mut state), 2);
}

#[test]
fn no_model_fills_more_than_the_trade_or_the_order() {
    let book = OrderBookL2::new();
    let mut conservative = ConservativeQueue;
    let mut place = conservative.register_order(&bid(100), &book);
    assert_eq!(conservative.check_fill(&bid(100), 100, &sale(100, 7), &mut place), 7);
    let mut clock = VolumeClockQueue;
    let mut place = clock.register_order(&bid(100), &book);
    assert_eq!(clock.check_fill(&bid(100), 100, &sale(100, 7), &mut place), 7);
    assert_eq!(clock.check_fill(&bid(100), 3, &sale(100, 7), &mut place), 3);
}

#[test]
fn an_exact_place_follows_the_venue_orders() {
    let mut book = OrderBookL3::new();
    book.apply_l3(&venue(1, 10, L3_ADD)).unwrap();
    book.apply_l3(&venue(2, 20, L3_ADD)).unwrap();
    let mut model = L3ExactQueue;
    let mut place = model.register_order(&bid(5), &book);
    assert_eq!(place.qty_ahead, 30);
    // A venue order that joins later is behind.
    model.on_l3_update(&bid(5), &mut place, &venue(3, 99, L3_ADD));
    assert_eq!(place.qty_ahead, 30);
    // One that was ahead and leaves is gone.
    model.on_l3_update(&bid(5), &mut place, &venue(1, 0, L3_DELETE));
    assert_eq!(place.qty_ahead, 20);
    // One that was behind and leaves does not matter.
    model.on_l3_update(&bid(5), &mut place, &venue(3, 0, L3_DELETE));
    assert_eq!(place.qty_ahead, 20);
    assert_eq!(model.check_fill(&bid(5), 5, &sale(100, 22), &mut place), 2);
}
