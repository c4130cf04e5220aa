//! What every step of the simulation keeps.
use vstd::prelude::*;

use crate::engine::is_step;
use crate::engine_laws::{distinct_ids, law_event_ids_stay_distinct, numbered};
use crate::event::{Event, EventKind};
use crate::exchange_laws::{
    conserved, indexed, lemma_removed_indexed, lemma_same_orders_indexed, lemma_submitted_indexed,
    lemma_traded_conserves, lemma_traded_keeps_orders, meets_depth, same_orders,
};
use crate::exchange_simulator::{maker_side, shifted_order, ExchangeView};
use crate::feeds::FeedItem;
use crate::math::clamp_i64;
use crate::queue_model::QueueModel;
use crate::sim_view::{last_price, maker_fills, Outcome, SimView};
use crate::strategy::Command;
use crate::types::{L2Update, L3Update, Order, OrderReport, OrderState, Tick};

verus! {

proof fn lemma_notified_numbered<Q: QueueModel>(s: SimView<Q>, ts: i64, reports: Seq<OrderReport>)
    requires
        numbered(s),
        s.next_event_seq + reports.len() <= u64::MAX,
    ensures
        numbered(s.notified(ts, reports)),
        s.notified(ts, reports).next_event_seq == s.next_event_seq + reports.len(),
        s.notified(ts, reports).config == s.config,
    decreases reports.len(),
{
    if reports.len() > 0 {
        lemma_notified_numbered(s, ts, reports.drop_last());
        law_event_ids_stay_distinct(
            s.notified(ts, reports.drop_last()),
            ts,
            EventKind::OrderReport(reports.last()),
        );
    }
}

proof fn lemma_commanded_numbered<Q: QueueModel>(s: SimView<Q>, commands: Seq<Command>, ts: i64)
    requires
        numbered(s),
        s.next_event_seq + commands.len() <= u64::MAX,
    ensures
        numbered(s.commanded(commands, ts)),
        s.commanded(commands, ts).next_event_seq == s.next_event_seq + commands.len(),
    decreases commands.len(),
{
    if commands.len() > 0 {
        lemma_commanded_numbered(s, commands.drop_last(), ts);
        let before = s.commanded(commands.drop_last(), ts);
        match commands.last() {
            Command::SubmitOrder(order) => {
                let sent = Order { ts_submit: ts, order_id: before.next_order_id, ..order };
                let ready = SimView {
                    next_order_id: crate::sim_view::next_number(before.next_order_id),
                    routes: before.routes.insert(before.next_order_id, order.symbol_id),
                    ..before
                };
                law_event_ids_stay_distinct(ready, ts, EventKind::Order(sent));
            },
            Command::CancelOrder { order_id } => {
                law_event_ids_stay_distinct(before, ts, EventKind::OrderCancel { order_id });
            },
        }
    }
}

proof fn lemma_fed_numbered<Q: QueueModel>(s: SimView<Q>, items: Seq<FeedItem>)
    requires
        numbered(s),
        s.next_event_seq + 2 * items.len() <= u64::MAX,
    ensures
        numbered(s.fed_all(items)),
        s.fed_all(items).next_event_seq <= s.next_event_seq + 2 * items.len(),
    decreases items.len(),
{
    if items.len() > 0 {
        lemma_fed_numbered(s, items.drop_last());
        let before = s.fed_all(items.drop_last());
        match items.last() {
            FeedItem::Tick(tick) => {
                let delivery = crate::sim_view::delivery_ts(before.config, tick);
                law_event_ids_stay_distinct(before, tick.ts_exchange, EventKind::Tick(tick));
                law_event_ids_stay_distinct(
                    before.pushed(tick.ts_exchange, EventKind::Tick(tick)),
                    delivery,
                    EventKind::TickDelivery(Tick { ts_local: delivery, ..tick }),
                );
            },
            FeedItem::L3(update) => {
                law_event_ids_stay_distinct(
                    before,
                    update.ts_exchange,
                    EventKind::L3Update(update),
                );
            },
        }
    }
}

/// How many order updates a tick at the exchange leads to.
pub open spec fn fill_count<Q: QueueModel>(s: SimView<Q>, kind: EventKind) -> nat {
    match kind {
        EventKind::Tick(tick) => s.exchange(tick.symbol_id).after_trade(tick).1.len(),
        _ => 0,
    }
}

proof fn lemma_truth_tick_numbered<Q: QueueModel>(s: SimView<Q>, tick: Tick)
    requires
        numbered(s),
        s.next_event_seq + s.exchange(tick.symbol_id).after_trade(tick).1.len() <= u64::MAX,
    ensures
        numbered(s.truth_tick(tick)),
        s.truth_tick(tick).next_event_seq == s.next_event_seq + s.exchange(
            tick.symbol_id,
        ).after_trade(tick).1.len(),
{
    let (ex, reports) = s.exchange(tick.symbol_id).after_trade(tick);
    let fills = maker_fills(ex, reports, tick.ts_exchange, s.config.maker_fee_bps);
    let booked = SimView { truth: s.truth.insert(tick.symbol_id, tick), ..s }.with_exchange(
        tick.symbol_id,
        ex,
    ).booked(tick.ts_exchange, fills);
    assert(numbered(booked));
    lemma_notified_numbered(
        booked,
        clamp_i64(tick.ts_exchange + s.config.order_update_latency_ns),
        reports,
    );
}

proof fn lemma_market_order_numbered<Q: QueueModel>(s: SimView<Q>, order: Order)
    requires
        numbered(s),
        s.next_event_seq + 2 <= u64::MAX,
    ensures
        numbered(s.market_order(order)),
        s.market_order(order).next_event_seq <= s.next_event_seq + 2,
{
    if !(order.side is NoSide) {
        let ex = s.exchange(order.symbol_id).submitted(order);
        let (after, report) = ex.market_filled(
            order.order_id,
            last_price(s.truth, order.symbol_id),
        );
        let filled = ex.with_order(order.order_id, after);
        let cancelled = filled.with_state(order.order_id, OrderState::Cancelled);
        let row = crate::sim_view::fill_row(
            s.now,
            order,
            order.symbol_id,
            order.order_id,
            report.last_fill_price,
            report.last_fill_qty,
            s.config.taker_fee_bps,
            true,
        );
        let kind = EventKind::OrderReport(report);
        match report.status {
            OrderState::Filled => {
                let booked = s.with_exchange(order.symbol_id, filled).booked(
                    s.now,
                    seq![(order, row)],
                );
                assert(numbered(booked));
                law_event_ids_stay_distinct(booked, s.update_ts(), kind);
            },
            OrderState::PartiallyFilled => {
                let booked = s.with_exchange(order.symbol_id, cancelled).booked(
                    s.now,
                    seq![(order, row)],
                );
                assert(numbered(booked));
                law_event_ids_stay_distinct(booked, s.update_ts(), kind);
                law_event_ids_stay_distinct(
                    booked.pushed(s.update_ts(), kind),
                    s.update_ts(),
                    EventKind::OrderReport(
                        cancelled.orders[order.order_id].report(
                            0,
                            0,
                            Some("market order partial fill: remaining qty cancelled"),
                        ),
                    ),
                );
            },
            _ => {
                let held = s.with_exchange(order.symbol_id, filled);
                assert(numbered(held));
                law_event_ids_stay_distinct(held, s.update_ts(), kind);
            },
        }
    }
}

proof fn lemma_handled_numbered<Q: QueueModel>(
    s: SimView<Q>,
    kind: EventKind,
    commands: Seq<Command>,
    delay: i64,
)
    requires
        numbered(s),
        s.next_event_seq + fill_count(s, kind) + commands.len() + 2 <= u64::MAX,
    ensures
        numbered(s.handled(kind, commands, delay)),
        s.handled(kind, commands, delay).next_event_seq <= s.next_event_seq + fill_count(s, kind)
            + commands.len() + 2,
{
    match kind {
        EventKind::Tick(tick) => {
            lemma_truth_tick_numbered(s, tick);
        },
        EventKind::TickDelivery(tick) => {
            let delivered = s.delivered(tick);
            if !(s.config.mode is Tick) && s.timer is None && s.config.max_batch_ns > 0 {
                let set = SimView {
                    market: s.market.insert(tick.symbol_id, tick),
                    ticks: s.ticks.push(tick),
                    timer: Some(s.next_timer_id),
                    next_timer_id: crate::sim_view::next_number(s.next_timer_id),
                    ..s
                };
                assert(numbered(set));
                law_event_ids_stay_distinct(
                    set,
                    clamp_i64(tick.ts_local + s.config.max_batch_ns),
                    EventKind::Timer { timer_id: s.next_timer_id },
                );
            }
            assert(numbered(delivered));
            if s.config.mode is Tick {
                lemma_commanded_numbered(delivered, commands, tick.ts_local);
            }
        },
        EventKind::Order(order) => {
            if order.order_type is Market {
                lemma_market_order_numbered(s, order);
            } else {
                let held = s.with_exchange(
                    order.symbol_id,
                    s.exchange(order.symbol_id).submitted(order),
                );
                assert(numbered(held));
                law_event_ids_stay_distinct(
                    held,
                    s.answer_ts(delay),
                    EventKind::OrderAck { order_id: order.order_id },
                );
            }
        },
        EventKind::OrderAck { order_id } => {
            if s.routes.contains_key(order_id) {
                let symbol_id = s.routes[order_id];
                let open = s.exchange(symbol_id).with_state(order_id, OrderState::Open);
                let held = s.with_exchange(symbol_id, open);
                assert(numbered(held));
                law_event_ids_stay_distinct(
                    held,
                    s.update_ts(),
                    EventKind::OrderReport(
                        OrderReport { filled_qty: 0, ..open.orders[order_id].report(0, 0, None) },
                    ),
                );
            }
        },
        EventKind::OrderCancel { order_id } => {
            if s.routes.contains_key(order_id) {
                let symbol_id = s.routes[order_id];
                let held = s.with_exchange(
                    symbol_id,
                    s.exchange(symbol_id).with_state(order_id, OrderState::PendingCancel),
                );
                assert(numbered(held));
                law_event_ids_stay_distinct(
                    held,
                    s.answer_ts(delay),
                    EventKind::OrderCancelAck { order_id },
                );
            }
        },
        EventKind::OrderCancelAck { order_id } => {
            if s.routes.contains_key(order_id) {
                let symbol_id = s.routes[order_id];
                let done = s.exchange(symbol_id).with_state(order_id, OrderState::Cancelled);
                let held = s.with_exchange(symbol_id, done);
                assert(numbered(held));
                law_event_ids_stay_distinct(
                    held,
                    s.update_ts(),
                    EventKind::OrderReport(done.orders[order_id].report(0, 0, None)),
                );
            }
        },
        EventKind::OrderReport(report) => {
            let arrived = s.report_arrived(report);
            assert(numbered(arrived));
            if s.config.mode is Tick {
                lemma_commanded_numbered(arrived, commands, s.now);
            }
        },
        EventKind::Funding(event) => {
            let funded = s.funded(event);
            assert(numbered(funded));
            lemma_commanded_numbered(funded, commands, s.now);
        },
        _ => {},
    }
}

/// Event identifiers stay distinct over a whole step, as long as the counter has room
/// for the events that the step schedules. With `law_step_is_determined` this makes the
/// run reproducible.
pub proof fn law_step_keeps_ids_distinct<Q: QueueModel>(
    before: SimView<Q>,
    after: SimView<Q>,
    event: Event,
    x: Outcome,
)
    requires
        numbered(before),
        is_step(before, after, event, x),
        before.next_event_seq + 2 * x.items.len() + fill_count(
            before.fed_all(x.items).arrived(event),
            event.kind,
        ) + x.commands.len() + x.flush.len() + 2 <= u64::MAX,
    ensures
        numbered(after),
        distinct_ids(before.fed_all(x.items).queue),
{
    reveal(SimView::taken_up);
    lemma_fed_numbered(before, x.items);
    let fed = before.fed_all(x.items);
    let at = fed.arrived(event);
    assert(numbered(at)) by {
        assert forall|e: Event| #[trigger] at.queue.contains(e) implies fed.queue.contains(e) by {}
    }
    if !at.is_unknown_cancel(event.kind) {
        lemma_handled_numbered(at, event.kind, x.commands, x.delay);
        let handled = at.handled(event.kind, x.commands, x.delay);
        let cleared = SimView {
            timer: None,
            ticks: Seq::empty(),
            reports: Seq::empty(),
            ..handled
        };
        assert(numbered(cleared));
        lemma_commanded_numbered(cleared, x.flush, handled.now);
    }
}

/// An exchange whose price index is right and whose quantities add up.
pub open spec fn sound<Q: QueueModel>(ex: ExchangeView<Q>) -> bool {
    conserved(ex) && indexed(ex)
}

/// All exchanges are sound, as is a new one.
pub open spec fn all_sound<Q: QueueModel>(s: SimView<Q>) -> bool {
    forall|symbol_id: u32| #[trigger] sound(s.exchange(symbol_id))
}

/// An order that arrives has an identifier that its exchange does not hold, and a market
/// order meets depth that is not negative.
pub open spec fn arrives_well<Q: QueueModel>(s: SimView<Q>, kind: EventKind) -> bool {
    match kind {
        EventKind::Order(order) => {
            let ex = s.exchange(order.symbol_id);
            &&& !ex.orders.contains_key(order.order_id)
            &&& order.order_type is Market ==> meets_depth(
                ex.submitted(order),
                order.order_id,
                last_price(s.truth, order.symbol_id),
            )
        },
        _ => true,
    }
}

proof fn lemma_with_state_sound<Q: QueueModel>(ex: ExchangeView<Q>, id: u64, state: OrderState)
    requires
        sound(ex),
        ex.orders.contains_key(id),
    ensures
        sound(ex.with_state(id, state)),
{
    let w = ex.with_state(id, state);
    assert(w.orders.dom() =~= ex.orders.dom());
    assert(same_orders(ex, w));
    lemma_same_orders_indexed(ex, w);
}

proof fn lemma_submitted_sound<Q: QueueModel>(ex: ExchangeView<Q>, order: Order)
    requires
        sound(ex),
        !ex.orders.contains_key(order.order_id),
    ensures
        sound(ex.submitted(order)),
{
    lemma_submitted_indexed(ex, order);
}

proof fn lemma_market_sound<Q: QueueModel>(ex: ExchangeView<Q>, id: u64, fallback: Option<i64>)
    requires
        sound(ex),
        ex.orders.contains_key(id),
        ex.orders[id].filled_qty == 0,
        meets_depth(ex, id, fallback),
    ensures
        sound(ex.with_order(id, ex.market_filled(id, fallback).0)),
{
    let w = ex.with_order(id, ex.market_filled(id, fallback).0);
    assert(w.orders.dom() =~= ex.orders.dom());
    assert(same_orders(ex, w));
    lemma_same_orders_indexed(ex, w);
}

proof fn lemma_one_exchange_sound<Q: QueueModel>(
    s: SimView<Q>,
    t: SimView<Q>,
    symbol_id: u32,
    ex: ExchangeView<Q>,
)
    requires
        all_sound(s),
        sound(ex),
        t.exchanges == s.exchanges.insert(symbol_id, ex),
        t.model == s.model,
    ensures
        all_sound(t),
{
    assert forall|other: u32| #[trigger] sound(t.exchange(other)) by {
        if other != symbol_id {
            assert(sound(s.exchange(other)));
            assert(t.exchange(other) == s.exchange(other));
        }
    }
}

proof fn lemma_same_exchanges_sound<Q: QueueModel>(s: SimView<Q>, t: SimView<Q>)
    requires
        all_sound(s),
        t.exchanges == s.exchanges,
        t.model == s.model,
    ensures
        all_sound(t),
{
    assert forall|other: u32| #[trigger] sound(t.exchange(other)) by {
        assert(sound(s.exchange(other)));
        assert(t.exchange(other) == s.exchange(other));
    }
}

proof fn lemma_trade_sound<Q: QueueModel>(ex: ExchangeView<Q>, trade: Tick)
    requires
        sound(ex),
    ensures
        sound(ex.after_trade(trade).0),
{
    let ids = ex.bucket(trade.price, maker_side(trade.side));
    lemma_traded_conserves(ex, ids, trade);
    lemma_traded_keeps_orders(ex, ids, trade);
    lemma_same_orders_indexed(ex, ex.traded(ids, trade).0);
}

proof fn lemma_depth_sound<Q: QueueModel>(ex: ExchangeView<Q>, l2: L2Update, l3: L3Update)
    requires
        sound(ex),
    ensures
        sound(ex.l2_updated(l2)),
        sound(ex.l3_updated(l3)),
{
    let u = ex.l2_updated(l2);
    assert(same_orders(ex, u));
    lemma_same_orders_indexed(ex, u);
    let w = ex.l3_updated(l3);
    assert(w.orders.dom() =~= ex.orders.dom());
    assert forall|k: u64| #[trigger] w.orders.contains_key(k) implies w.orders[k].filled_qty
        + w.orders[k].remaining_qty == w.orders[k].order.qty && w.orders[k].order
        == ex.orders[k].order by {
        assert(ex.orders.contains_key(k));
        assert(w.orders[k] == shifted_order(ex.model, ex.orders[k], l3));
    }
    assert(same_orders(ex, w)) by {
        assert forall|k: u64| #[trigger] ex.orders.contains_key(k) implies ex.orders[k].order
            == w.orders[k].order by {
            assert(w.orders.contains_key(k));
        }
    }
    lemma_same_orders_indexed(ex, w);
}

proof fn lemma_removed_sound<Q: QueueModel>(ex: ExchangeView<Q>, id: u64)
    requires
        sound(ex),
    ensures
        sound(ex.removed(id)),
{
    lemma_removed_indexed(ex, id);
    assert forall|k: u64| #[trigger] ex.removed(id).orders.contains_key(k) implies ex.removed(
        id,
    ).orders[k] == ex.orders[k] && ex.orders.contains_key(k) by {}
}

proof fn lemma_fresh_sound<Q: QueueModel>(model: Q, l3: bool)
    ensures
        sound(ExchangeView::fresh(model, l3)),
{
}

proof fn lemma_commanded_frame<Q: QueueModel>(s: SimView<Q>, commands: Seq<Command>, ts: i64)
    ensures
        s.commanded(commands, ts).exchanges == s.exchanges,
        s.commanded(commands, ts).model == s.model,
    decreases commands.len(),
{
    if commands.len() > 0 {
        lemma_commanded_frame(s, commands.drop_last(), ts);
    }
}

proof fn lemma_notified_frame<Q: QueueModel>(s: SimView<Q>, ts: i64, reports: Seq<OrderReport>)
    ensures
        s.notified(ts, reports).exchanges == s.exchanges,
        s.notified(ts, reports).model == s.model,
    decreases reports.len(),
{
    if reports.len() > 0 {
        lemma_notified_frame(s, ts, reports.drop_last());
    }
}

proof fn lemma_fed_frame<Q: QueueModel>(s: SimView<Q>, items: Seq<FeedItem>)
    ensures
        s.fed_all(items).exchanges == s.exchanges,
        s.fed_all(items).model == s.model,
        s.fed_all(items).truth == s.truth,
    decreases items.len(),
{
    if items.len() > 0 {
        lemma_fed_frame(s, items.drop_last());
    }
}

proof fn lemma_market_order_sound<Q: QueueModel>(s: SimView<Q>, order: Order)
    requires
        all_sound(s),
        arrives_well(s, EventKind::Order(order)),
        order.order_type is Market,
    ensures
        all_sound(s.market_order(order)),
{
    if !(order.side is NoSide) {
        let id = order.order_id;
        let fallback = last_price(s.truth, order.symbol_id);
        assert(sound(s.exchange(order.symbol_id)));
        lemma_submitted_sound(s.exchange(order.symbol_id), order);
        let ex = s.exchange(order.symbol_id).submitted(order);
        lemma_market_sound(ex, id, fallback);
        let (after, report) = ex.market_filled(id, fallback);
        let filled = ex.with_order(id, after);
        lemma_with_state_sound(filled, id, OrderState::Cancelled);
        let cancelled = filled.with_state(id, OrderState::Cancelled);
        let t = s.market_order(order);
        if report.status is PartiallyFilled {
            lemma_one_exchange_sound(s, t, order.symbol_id, cancelled);
        } else {
            lemma_one_exchange_sound(s, t, order.symbol_id, filled);
        }
    }
}

proof fn lemma_handled_sound<Q: QueueModel>(
    s: SimView<Q>,
    kind: EventKind,
    commands: Seq<Command>,
    delay: i64,
)
    requires
        all_sound(s),
        arrives_well(s, kind),
    ensures
        all_sound(s.handled(kind, commands, delay)),
{
    let t = s.handled(kind, commands, delay);
    match kind {
        EventKind::Tick(tick) => {
            assert(sound(s.exchange(tick.symbol_id)));
            lemma_trade_sound(s.exchange(tick.symbol_id), tick);
            let (ex, reports) = s.exchange(tick.symbol_id).after_trade(tick);
            let fills = maker_fills(ex, reports, tick.ts_exchange, s.config.maker_fee_bps);
            let booked = SimView {
                truth: s.truth.insert(tick.symbol_id, tick),
                ..s
            }.with_exchange(tick.symbol_id, ex).booked(tick.ts_exchange, fills);
            lemma_notified_frame(
                booked,
                clamp_i64(tick.ts_exchange + s.config.order_update_latency_ns),
                reports,
            );
            lemma_one_exchange_sound(s, t, tick.symbol_id, ex);
        },
        EventKind::TickDelivery(tick) => {
            lemma_commanded_frame(s.delivered(tick), commands, tick.ts_local);
            lemma_same_exchanges_sound(s, t);
        },
        EventKind::L2Update(update) => {
            let ex = s.exchange(update.symbol_id);
            assert(sound(ex));
            assert(same_orders(ex, ex.l2_updated(update)));
            lemma_same_orders_indexed(ex, ex.l2_updated(update));
            lemma_one_exchange_sound(s, t, update.symbol_id, ex.l2_updated(update));
        },
        EventKind::L3Update(update) => {
            let ex = if s.exchanges.contains_key(update.symbol_id) {
                s.exchanges[update.symbol_id]
            } else {
                ExchangeView::fresh(s.model, true)
            };
            assert(sound(s.exchange(update.symbol_id)));
            lemma_fresh_sound(s.model, true);
            let any = L2Update {
                ts_exchange: 0,
                seq: 0,
                price: 0,
                qty: 0,
                symbol_id: 0,
                side: update.side,
            };
            lemma_depth_sound(ex, any, update);
            lemma_one_exchange_sound(s, t, update.symbol_id, ex.l3_updated(update));
        },
        EventKind::Order(order) => {
            if order.order_type is Market {
                lemma_market_order_sound(s, order);
            } else {
                assert(sound(s.exchange(order.symbol_id)));
                lemma_submitted_sound(s.exchange(order.symbol_id), order);
                lemma_one_exchange_sound(
                    s,
                    t,
                    order.symbol_id,
                    s.exchange(order.symbol_id).submitted(order),
                );
            }
        },
        EventKind::OrderAck { order_id } => {
            lemma_state_change_sound(s, t, order_id, OrderState::Open);
        },
        EventKind::OrderCancel { order_id } => {
            lemma_state_change_sound(s, t, order_id, OrderState::PendingCancel);
        },
        EventKind::OrderCancelAck { order_id } => {
            lemma_state_change_sound(s, t, order_id, OrderState::Cancelled);
        },
        EventKind::OrderReport(report) => {
            let id = report.order_id;
            let arrived = s.report_arrived(report);
            lemma_commanded_frame(arrived, commands, s.now);
            if report.status.terminal() && s.routes.contains_key(id) {
                let symbol_id = s.routes[id];
                assert(sound(s.exchange(symbol_id)));
                lemma_removed_sound(s.exchange(symbol_id), id);
                lemma_one_exchange_sound(s, t, symbol_id, s.exchange(symbol_id).removed(id));
            } else {
                lemma_same_exchanges_sound(s, t);
            }
        },
        EventKind::Funding(event) => {
            lemma_commanded_frame(s.funded(event), commands, s.now);
            lemma_same_exchanges_sound(s, t);
        },
        EventKind::Timer { timer_id } => {
            lemma_same_exchanges_sound(s, t);
        },
    }
}

/// A state in which at most one order of one exchange changed its state.
proof fn lemma_state_change_sound<Q: QueueModel>(
    s: SimView<Q>,
    t: SimView<Q>,
    order_id: u64,
    state: OrderState,
)
    requires
        all_sound(s),
        t.model == s.model,
        ({
            let symbol_id = s.routes[order_id];
            let ex = s.exchange(symbol_id);
            ||| t.exchanges == s.exchanges
            ||| t.exchanges == s.exchanges.insert(symbol_id, ex)
            ||| ex.orders.contains_key(order_id) && t.exchanges == s.exchanges.insert(
                symbol_id,
                ex.with_state(order_id, state),
            )
        }),
    ensures
        all_sound(t),
{
    let symbol_id = s.routes[order_id];
    let ex = s.exchange(symbol_id);
    assert(sound(ex));
    if t.exchanges == s.exchanges {
        lemma_same_exchanges_sound(s, t);
    } else if t.exchanges == s.exchanges.insert(symbol_id, ex) {
        lemma_one_exchange_sound(s, t, symbol_id, ex);
    } else {
        lemma_with_state_sound(ex, order_id, state);
        lemma_one_exchange_sound(s, t, symbol_id, ex.with_state(order_id, state));
    }
}

/// Every step keeps all exchanges sound: on each of them the price index lists every live
/// order once, under its price and side, and filled and remaining quantity of every
/// order make up its quantity.
pub proof fn law_step_keeps_exchanges_sound<Q: QueueModel>(
    before: SimView<Q>,
    after: SimView<Q>,
    event: Event,
    x: Outcome,
)
    requires
        all_sound(before),
        is_step(before, after, event, x),
        arrives_well(before.fed_all(x.items).arrived(event), event.kind),
    ensures
        all_sound(after),
{
    reveal(SimView::taken_up);
    lemma_fed_frame(before, x.items);
    let at = before.fed_all(x.items).arrived(event);
    lemma_same_exchanges_sound(before, at);
    if !at.is_unknown_cancel(event.kind) {
        lemma_handled_sound(at, event.kind, x.commands, x.delay);
        let handled = at.handled(event.kind, x.commands, x.delay);
        let cleared = SimView {
            timer: None,
            ticks: Seq::empty(),
            reports: Seq::empty(),
            ..handled
        };
        lemma_commanded_frame(cleared, x.flush, handled.now);
        lemma_same_exchanges_sound(handled, after);
    }
}

/// A new simulation is sound, and its (empty) queue is numbered.
pub proof fn law_new_simulation_is_sound<Q: QueueModel>(
    model: Q,
    config: crate::sim_view::EngineConfig,
)
    ensures
        all_sound(SimView::fresh(model, config)),
        numbered(SimView::fresh(model, config)),
{
    let s = SimView::fresh(model, config);
    assert forall|symbol_id: u32| #[trigger] sound(s.exchange(symbol_id)) by {
        lemma_fresh_sound(model, false);
    }
}

} // verus!
