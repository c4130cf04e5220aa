//! What holds of every step of the simulation.
use vstd::multiset::Multiset;
use vstd::prelude::*;

use crate::account::AccountView;
use crate::callbacks::{hears, hears_flush, is_woken};
use crate::cost_basis::PosState;
use crate::engine::{
    is_due, is_finished, is_intake, is_step, lemma_commanded_keeps, lemma_handled_keeps,
};
use crate::event::{Event, EventId, EventKind};
use crate::event_queue::{is_next, law_next_event_is_determined};
use crate::feeds::{FeedItem, FeedsView, Place};
use crate::math::clamp_i64;
use crate::queue_model::QueueModel;
use crate::sim_view::{
    delivery_ts, next_number, next_ts, settled, OrderFill, Outcome, SimView,
};
use crate::stats::{delta_of, position_of, positions_after_all, LogView, TradeFill};
use crate::strategy::{Command, Strategy};
use crate::types::{Order, OrderReport, Tick};

verus! {

/// Every event of `after` was in `before`, or is a new one at `ts` or later that is
/// no market data.
pub open spec fn grows(before: Multiset<Event>, after: Multiset<Event>, ts: i64) -> bool {
    forall|e: Event| #[trigger]
        after.contains(e) ==> before.contains(e) || (e.id.ts_sim >= ts && !(e.kind is Tick)
            && !(e.kind is TickDelivery))
}

/// The clock, the strategy's view of the market and the latency of order updates stay,
/// and the queue gains at most events that lie ahead.
pub open spec fn calm<Q: QueueModel>(a: SimView<Q>, b: SimView<Q>) -> bool {
    &&& b.now == a.now
    &&& b.market == a.market
    &&& b.config.order_update_latency_ns == a.config.order_update_latency_ns
    &&& grows(a.queue, b.queue, a.now)
}

proof fn lemma_calm_trans<Q: QueueModel>(a: SimView<Q>, b: SimView<Q>, c: SimView<Q>)
    requires
        calm(a, b),
        calm(b, c),
    ensures
        calm(a, c),
{
}

proof fn lemma_pushed_calm<Q: QueueModel>(s: SimView<Q>, ts: i64, kind: EventKind)
    requires
        ts >= s.now,
        !(kind is Tick),
        !(kind is TickDelivery),
    ensures
        calm(s, s.pushed(ts, kind)),
{
}

proof fn lemma_notified_calm<Q: QueueModel>(s: SimView<Q>, ts: i64, reports: Seq<OrderReport>)
    requires
        ts >= s.now,
    ensures
        calm(s, s.notified(ts, reports)),
    decreases reports.len(),
{
    if reports.len() > 0 {
        let before = s.notified(ts, reports.drop_last());
        lemma_notified_calm(s, ts, reports.drop_last());
        lemma_pushed_calm(before, ts, EventKind::OrderReport(reports.last()));
        lemma_calm_trans(s, before, s.notified(ts, reports));
    }
}

proof fn lemma_commanded_calm<Q: QueueModel>(s: SimView<Q>, commands: Seq<Command>, ts: i64)
    requires
        ts >= s.now,
    ensures
        calm(s, s.commanded(commands, ts)),
        s.commanded(commands, ts).exchanges == s.exchanges,
        s.commanded(commands, ts).config == s.config,
    decreases commands.len(),
{
    if commands.len() > 0 {
        let before = s.commanded(commands.drop_last(), ts);
        lemma_commanded_calm(s, commands.drop_last(), ts);
        assert(calm(before, before.commanded_one(commands.last(), ts)));
        lemma_calm_trans(s, before, s.commanded(commands, ts));
    }
}

pub proof fn lemma_flushed_calm<Q: QueueModel>(
    s: SimView<Q>,
    ts: i64,
    commands: Seq<Command>,
    duration: i64,
)
    requires
        ts >= s.now,
    ensures
        calm(s, s.flushed(ts, commands, duration)),
        s.flushed(ts, commands, duration).exchanges == s.exchanges,
{
    if s.has_buffered() {
        let cleared = SimView { timer: None, ticks: Seq::empty(), reports: Seq::empty(), ..s };
        lemma_commanded_calm(cleared, commands, ts);
        let commanded = cleared.commanded(commands, ts);
        assert(calm(s, cleared));
        lemma_calm_trans(s, cleared, commanded);
        assert(calm(commanded, commanded.tuned(duration, s.buffered())));
        lemma_calm_trans(s, commanded, s.flushed(ts, commands, duration));
    }
}

proof fn lemma_woken_calm<Q: QueueModel>(s: SimView<Q>, wakeup: bool, x: Outcome)
    ensures
        calm(s, s.woken(wakeup, x.flush, x.duration)),
        s.woken(wakeup, x.flush, x.duration).exchanges == s.exchanges,
{
    lemma_flushed_calm(s, s.now, x.flush, x.duration);
}

proof fn lemma_truth_tick_calm<Q: QueueModel>(s: SimView<Q>, tick: Tick)
    requires
        tick.ts_exchange >= s.now,
        s.config.order_update_latency_ns >= 0,
    ensures
        calm(s, s.truth_tick(tick)),
{
    let (ex, reports) = s.exchange(tick.symbol_id).after_trade(tick);
    let fills = crate::sim_view::maker_fills(
        ex,
        reports,
        tick.ts_exchange,
        s.config.maker_fee_bps,
    );
    let booked = SimView { truth: s.truth.insert(tick.symbol_id, tick), ..s }.with_exchange(
        tick.symbol_id,
        ex,
    ).booked(tick.ts_exchange, fills);
    assert(calm(s, booked));
    let ts = clamp_i64(tick.ts_exchange + s.config.order_update_latency_ns);
    lemma_notified_calm(booked, ts, reports);
    lemma_calm_trans(s, booked, booked.notified(ts, reports));
}

proof fn lemma_market_order_calm<Q: QueueModel>(s: SimView<Q>, order: Order)
    requires
        s.config.order_update_latency_ns >= 0,
    ensures
        calm(s, s.market_order(order)),
{
}

/// The event kinds that leave the strategy's view alone, with what their time stamps
/// have to be: a tick happens when it says.
proof fn lemma_handled_calm<Q: QueueModel>(s: SimView<Q>, kind: EventKind, x: Outcome)
    requires
        s.config.order_update_latency_ns >= 0,
        !(kind is TickDelivery),
        kind matches EventKind::Tick(tick) ==> tick.ts_exchange == s.now,
    ensures
        calm(s, s.handled(kind, x.commands, x.delay)),
{
    match kind {
        EventKind::Tick(tick) => {
            lemma_truth_tick_calm(s, tick);
        },
        EventKind::OrderReport(report) => {
            let arrived = s.report_arrived(report);
            assert(calm(s, arrived));
            if s.config.mode is Tick {
                lemma_commanded_calm(arrived, x.commands, s.now);
                lemma_calm_trans(s, arrived, s.handled(kind, x.commands, x.delay));
            }
        },
        EventKind::Funding(event) => {
            let funded = s.funded(event);
            assert(calm(s, funded));
            lemma_commanded_calm(funded, x.commands, s.now);
            lemma_calm_trans(s, funded, s.handled(kind, x.commands, x.delay));
        },
        EventKind::Order(order) => {
            lemma_market_order_calm(s, order);
        },
        _ => {},
    }
}

/// Ticks carry the time at which they are queued: exchange time at the exchange, local
/// time at the strategy.
pub open spec fn stamped(queue: Multiset<Event>) -> bool {
    forall|e: Event| #[trigger]
        queue.contains(e) ==> match e.kind {
            EventKind::Tick(tick) => tick.ts_exchange == e.id.ts_sim,
            EventKind::TickDelivery(tick) => tick.ts_local == e.id.ts_sim,
            _ => true,
        }
}

/// No queued event lies before `ts`.
pub open spec fn none_before(queue: Multiset<Event>, ts: i64) -> bool {
    forall|e: Event| #[trigger] queue.contains(e) ==> e.id.ts_sim >= ts
}

/// The strategy knows of no tick that has not reached it yet.
pub open spec fn seen_in_time(market: Map<u32, Tick>, now: i64) -> bool {
    forall|symbol_id: u32| #[trigger]
        market.contains_key(symbol_id) ==> market[symbol_id].ts_local <= now
}

/// A state in which time runs forward and the strategy cannot look ahead.
pub open spec fn causal<Q: QueueModel>(s: SimView<Q>) -> bool {
    stamped(s.queue) && none_before(s.queue, s.now) && seen_in_time(s.market, s.now)
}

/// Market data that is not older than the clock, at the exchange and at the strategy.
pub open spec fn in_order<Q: QueueModel>(s: SimView<Q>, items: Seq<FeedItem>) -> bool {
    forall|i: int|
        0 <= i < items.len() ==> (#[trigger] items[i]).ts() >= s.now && (
        items[i] matches FeedItem::Tick(tick) ==> delivery_ts(s.config, tick) >= s.now)
}

proof fn lemma_pushed_contains<Q: QueueModel>(s: SimView<Q>, ts: i64, kind: EventKind, e: Event)
    ensures
        s.pushed(ts, kind).queue.contains(e) <==> s.queue.contains(e) || e == (Event {
            id: EventId { ts_sim: ts, seq: s.next_event_seq },
            kind,
        }),
{
    let new = Event { id: EventId { ts_sim: ts, seq: s.next_event_seq }, kind };
    if e == new {
        assert(s.pushed(ts, kind).queue.count(e) == s.queue.count(e) + 1);
    } else {
        assert(s.pushed(ts, kind).queue.count(e) == s.queue.count(e));
    }
}

proof fn lemma_pushed_causal<Q: QueueModel>(s: SimView<Q>, ts: i64, kind: EventKind)
    requires
        causal(s),
        ts >= s.now,
        match kind {
            EventKind::Tick(tick) => tick.ts_exchange == ts,
            EventKind::TickDelivery(tick) => tick.ts_local == ts,
            _ => true,
        },
    ensures
        causal(s.pushed(ts, kind)),
{
    let after = s.pushed(ts, kind);
    assert forall|e: Event| #[trigger] after.queue.contains(e) implies e.id.ts_sim >= s.now && match e.kind {
        EventKind::Tick(tick) => tick.ts_exchange == e.id.ts_sim,
        EventKind::TickDelivery(tick) => tick.ts_local == e.id.ts_sim,
        _ => true,
    } by {
        lemma_pushed_contains(s, ts, kind, e);
    }
}

proof fn lemma_fed_causal<Q: QueueModel>(s: SimView<Q>, items: Seq<FeedItem>)
    requires
        causal(s),
        in_order(s, items),
    ensures
        causal(s.fed_all(items)),
        s.fed_all(items).now == s.now,
        s.fed_all(items).market == s.market,
        s.fed_all(items).config == s.config,
        s.fed_all(items).exchanges == s.exchanges,
    decreases items.len(),
{
    if items.len() > 0 {
        let front = items.drop_last();
        assert forall|i: int| 0 <= i < front.len() implies (#[trigger] front[i]).ts() >= s.now && (
        front[i] matches FeedItem::Tick(tick) ==> delivery_ts(s.config, tick) >= s.now) by {
            assert(front[i] == items[i]);
        }
        lemma_fed_causal(s, front);
        let before = s.fed_all(front);
        let item = items[items.len() - 1];
        assert(item.ts() >= s.now);
        match item {
            FeedItem::Tick(tick) => {
                let delivery = delivery_ts(s.config, tick);
                let mid = before.pushed(tick.ts_exchange, EventKind::Tick(tick));
                lemma_pushed_causal(before, tick.ts_exchange, EventKind::Tick(tick));
                lemma_pushed_causal(
                    mid,
                    delivery,
                    EventKind::TickDelivery(Tick { ts_local: delivery, ..tick }),
                );
            },
            FeedItem::L3(update) => {
                lemma_pushed_causal(before, update.ts_exchange, EventKind::L3Update(update));
            },
        }
    }
}

pub proof fn lemma_calm_causal<Q: QueueModel>(a: SimView<Q>, b: SimView<Q>)
    requires
        causal(a),
        calm(a, b),
    ensures
        causal(b),
{
}

/// No look-ahead, and no way back in time: with market data in order and no negative
/// latency, a step moves the clock to the event it processes, never back; and after it
/// the strategy's view still holds only ticks that have reached it by then.
pub proof fn law_no_look_ahead<Q: QueueModel>(
    before: SimView<Q>,
    after: SimView<Q>,
    event: Event,
    x: Outcome,
)
    requires
        causal(before),
        before.config.order_update_latency_ns >= 0,
        in_order(before, x.items),
        is_step(before, after, event, x),
    ensures
        after.now == event.id.ts_sim,
        after.now >= before.now,
        causal(after),
        after.config.order_update_latency_ns == before.config.order_update_latency_ns,
{
    reveal(SimView::taken_up);
    lemma_fed_causal(before, x.items);
    let fed = before.fed_all(x.items);
    let at = fed.arrived(event);
    assert(fed.queue.contains(event));
    assert(causal(at)) by {
        assert forall|e: Event| #[trigger] at.queue.contains(e) implies fed.queue.contains(e)
            && e.id.ts_sim >= at.now by {
            assert(fed.queue.contains(e));
            assert(event.id.precedes(e.id));
        }
        assert forall|symbol_id: u32| #[trigger]
            at.market.contains_key(symbol_id) implies at.market[symbol_id].ts_local <= at.now by {
            assert(fed.market.contains_key(symbol_id));
        }
    }
    if !at.is_unknown_cancel(event.kind) {
        let handled = at.handled(event.kind, x.commands, x.delay);
        if let EventKind::TickDelivery(tick) = event.kind {
            let delivered = at.delivered(tick);
            assert(tick.ts_local == at.now);
            assert(causal(delivered)) by {
                assert(grows(at.queue, delivered.queue, at.now));
            }
            if at.config.mode is Tick {
                lemma_commanded_calm(delivered, x.commands, tick.ts_local);
                lemma_calm_causal(delivered, handled);
            }
        } else {
            lemma_handled_calm(at, event.kind, x);
            lemma_calm_causal(at, handled);
        }
        lemma_woken_calm(handled, at.asks_wakeup(event.kind), x);
        lemma_calm_causal(handled, after);
    }
}

/// The strategy's view changes by the delivery of a tick, by that tick alone, and by
/// nothing else: what happens at the exchange is not seen before it is delivered.
pub proof fn law_view_changes_by_delivery_only<Q: QueueModel>(
    before: SimView<Q>,
    after: SimView<Q>,
    event: Event,
    x: Outcome,
)
    requires
        is_step(before, after, event, x),
        stamped(before.fed_all(x.items).queue),
        before.config.order_update_latency_ns >= 0,
    ensures
        after.market == match event.kind {
            EventKind::TickDelivery(tick) => before.market.insert(tick.symbol_id, tick),
            _ => before.market,
        },
{
    reveal(SimView::taken_up);
    lemma_fed_frame(before, x.items);
    let fed = before.fed_all(x.items);
    let at = fed.arrived(event);
    assert(fed.queue.contains(event));
    if !at.is_unknown_cancel(event.kind) {
        let handled = at.handled(event.kind, x.commands, x.delay);
        if let EventKind::TickDelivery(tick) = event.kind {
            let delivered = at.delivered(tick);
            if at.config.mode is Tick {
                lemma_commanded_calm(delivered, x.commands, tick.ts_local);
            }
        } else {
            lemma_handled_calm(at, event.kind, x);
        }
        lemma_woken_calm(handled, at.asks_wakeup(event.kind), x);
    }
}

proof fn lemma_fed_frame<Q: QueueModel>(s: SimView<Q>, items: Seq<FeedItem>)
    ensures
        s.fed_all(items) == (SimView {
            queue: s.fed_all(items).queue,
            next_event_seq: s.fed_all(items).next_event_seq,
            ..s
        }),
    decreases items.len(),
{
    if items.len() > 0 {
        lemma_fed_frame(s, items.drop_last());
    }
}

/// Reproducible: from one state, with the same answers from outside, there is one next
/// event and one next state, where no two events share an identifier.
pub proof fn law_step_is_determined<Q: QueueModel>(
    before: SimView<Q>,
    a: SimView<Q>,
    b: SimView<Q>,
    event_a: Event,
    event_b: Event,
    x: Outcome,
)
    requires
        is_step(before, a, event_a, x),
        is_step(before, b, event_b, x),
        distinct_ids(before.fed_all(x.items).queue),
    ensures
        event_a == event_b,
        a == b,
{
    law_next_event_is_determined(before.fed_all(x.items).queue, event_a, event_b);
}

/// No two different events share an identifier.
pub open spec fn distinct_ids(queue: Multiset<Event>) -> bool {
    forall|x: Event, y: Event|
        #![trigger queue.contains(x), queue.contains(y)]
        queue.contains(x) && queue.contains(y) && x.id == y.id ==> x == y
}

/// Sequence numbers are given out once: all queued events have one that was given out.
pub open spec fn numbered<Q: QueueModel>(s: SimView<Q>) -> bool {
    &&& distinct_ids(s.queue)
    &&& forall|e: Event| #[trigger] s.queue.contains(e) ==> e.id.seq < s.next_event_seq
}

/// Scheduling an event keeps the identifiers distinct, as long as the counter does not
/// wrap around.
pub proof fn law_event_ids_stay_distinct<Q: QueueModel>(
    s: SimView<Q>,
    ts: i64,
    kind: EventKind,
)
    requires
        numbered(s),
        s.next_event_seq < u64::MAX,
    ensures
        numbered(s.pushed(ts, kind)),
{
    let after = s.pushed(ts, kind);
    assert forall|e: Event| #[trigger] after.queue.contains(e) implies e.id.seq
        < after.next_event_seq && (e.id.seq == s.next_event_seq || s.queue.contains(e)) by {
        lemma_pushed_contains(s, ts, kind, e);
    }
    assert forall|x: Event, y: Event|
        #![trigger after.queue.contains(x), after.queue.contains(y)]
        after.queue.contains(x) && after.queue.contains(y) && x.id == y.id implies x == y by {
        lemma_pushed_contains(s, ts, kind, x);
        lemma_pushed_contains(s, ts, kind, y);
    }
}

/// The symbol whose exchange an event concerns, where it concerns one.
pub open spec fn concerns<Q: QueueModel>(s: SimView<Q>, kind: EventKind) -> Option<u32> {
    match kind {
        EventKind::Tick(tick) => Some(tick.symbol_id),
        EventKind::L2Update(update) => Some(update.symbol_id),
        EventKind::L3Update(update) => Some(update.symbol_id),
        EventKind::Order(order) => Some(order.symbol_id),
        EventKind::OrderAck { order_id } | EventKind::OrderCancel { order_id }
        | EventKind::OrderCancelAck { order_id } => if s.routes.contains_key(order_id) {
            Some(s.routes[order_id])
        } else {
            None
        },
        EventKind::OrderReport(report) => if s.routes.contains_key(report.order_id) {
            Some(s.routes[report.order_id])
        } else {
            None
        },
        _ => None,
    }
}

proof fn lemma_notified_exchanges<Q: QueueModel>(s: SimView<Q>, ts: i64, reports: Seq<OrderReport>)
    ensures
        s.notified(ts, reports).exchanges == s.exchanges,
        s.notified(ts, reports).model == s.model,
    decreases reports.len(),
{
    if reports.len() > 0 {
        lemma_notified_exchanges(s, ts, reports.drop_last());
    }
}

proof fn lemma_commanded_exchanges<Q: QueueModel>(s: SimView<Q>, commands: Seq<Command>, ts: i64)
    ensures
        s.commanded(commands, ts).exchanges == s.exchanges,
        s.commanded(commands, ts).model == s.model,
    decreases commands.len(),
{
    if commands.len() > 0 {
        lemma_commanded_exchanges(s, commands.drop_last(), ts);
    }
}

/// Venues do not interfere: an event changes no exchange but that of the symbol it
/// concerns.
pub proof fn law_symbols_are_isolated<Q: QueueModel>(
    s: SimView<Q>,
    event: Event,
    x: Outcome,
    symbol_id: u32,
)
    requires
        concerns(s, event.kind) != Some(symbol_id),
    ensures
        s.processed(event, x).exchange(symbol_id) == s.exchange(symbol_id),
{
    reveal(SimView::taken_up);
    let at = s.arrived(event);
    let handled = at.handled(event.kind, x.commands, x.delay);
    assert(handled.exchange(symbol_id) == s.exchange(symbol_id)) by {
        match event.kind {
            EventKind::Tick(tick) => {
                let (ex, reports) = at.exchange(tick.symbol_id).after_trade(tick);
                let fills = crate::sim_view::maker_fills(
                    ex,
                    reports,
                    tick.ts_exchange,
                    at.config.maker_fee_bps,
                );
                let booked = SimView {
                    truth: at.truth.insert(tick.symbol_id, tick),
                    ..at
                }.with_exchange(tick.symbol_id, ex).booked(tick.ts_exchange, fills);
                lemma_notified_exchanges(
                    booked,
                    clamp_i64(tick.ts_exchange + at.config.order_update_latency_ns),
                    reports,
                );
            },
            EventKind::TickDelivery(tick) => {
                lemma_commanded_exchanges(at.delivered(tick), x.commands, tick.ts_local);
            },
            EventKind::OrderReport(report) => {
                lemma_commanded_exchanges(at.report_arrived(report), x.commands, at.now);
            },
            EventKind::Funding(funding) => {
                lemma_commanded_exchanges(at.funded(funding), x.commands, at.now);
            },
            _ => {},
        }
    }
    let cleared = SimView {
        timer: None,
        ticks: Seq::empty(),
        reports: Seq::empty(),
        ..handled
    };
    lemma_commanded_exchanges(cleared, x.flush, handled.now);
}

/// Every identifier in the routes was given out by the order counter.
pub open spec fn routed_below<Q: QueueModel>(s: SimView<Q>) -> bool {
    forall|id: u64| #[trigger] s.routes.contains_key(id) ==> id < s.next_order_id
}

/// Order identifiers are unique: a submitted order gets one that no known order has, the
/// event that carries it to the exchange has it, and it is routed to its symbol.
pub proof fn law_order_ids_are_unique<Q: QueueModel>(s: SimView<Q>, order: Order, ts: i64)
    requires
        routed_below(s),
        s.next_order_id < u64::MAX,
    ensures
        ({
            let after = s.commanded_one(Command::SubmitOrder(order), ts);
            let sent = Order { ts_submit: ts, order_id: s.next_order_id, ..order };
            &&& !s.routes.contains_key(s.next_order_id)
            &&& after.routes.contains_key(s.next_order_id)
            &&& after.routes[s.next_order_id] == order.symbol_id
            &&& after.queue.contains(
                Event {
                    id: EventId { ts_sim: ts, seq: s.next_event_seq },
                    kind: EventKind::Order(sent),
                },
            )
            &&& routed_below(after)
        }),
{
    let sent = Order { ts_submit: ts, order_id: s.next_order_id, ..order };
    let ready = SimView {
        next_order_id: next_number(s.next_order_id),
        routes: s.routes.insert(s.next_order_id, order.symbol_id),
        ..s
    };
    lemma_pushed_contains(
        ready,
        ts,
        EventKind::Order(sent),
        Event {
            id: EventId { ts_sim: ts, seq: s.next_event_seq },
            kind: EventKind::Order(sent),
        },
    );
}

/// A market order never rests: once it has arrived it is filled, rejected, or cancelled
/// after a partial fill.
pub proof fn law_market_order_never_rests<Q: QueueModel>(s: SimView<Q>, order: Order)
    requires
        !(order.side is NoSide),
    ensures
        ({
            let ex = s.market_order(order).exchange(order.symbol_id);
            ex.orders.contains_key(order.order_id)
                && ex.orders[order.order_id].state.terminal()
        }),
{
    let ex = s.exchange(order.symbol_id).submitted(order);
    let (after, report) = ex.market_filled(
        order.order_id,
        crate::sim_view::last_price(s.truth, order.symbol_id),
    );
    assert(report.status == after.state);
}

/// A market order without depth and without a last trade is rejected, and changes
/// neither account nor log.
pub proof fn law_market_order_without_price_is_rejected<Q: QueueModel>(s: SimView<Q>, order: Order)
    requires
        s.exchange(order.symbol_id).submitted(order).best_against(order.side) is None,
        !s.truth.contains_key(order.symbol_id),
        !(order.side is NoSide),
    ensures
        s.market_order(order).account == s.account,
        s.market_order(order).log == s.log,
        s.market_order(order).exchange(
            order.symbol_id,
        ).orders[order.order_id].state is Rejected,
{
}

/// A flush leaves nothing waiting and no timer set.
pub proof fn law_flush_empties_buffers<Q: QueueModel>(
    s: SimView<Q>,
    ts: i64,
    commands: Seq<Command>,
    duration: i64,
)
    requires
        s.has_buffered(),
    ensures
        !s.flushed(ts, commands, duration).has_buffered(),
        s.flushed(ts, commands, duration).timer is None,
{
    let cleared = SimView { timer: None, ticks: Seq::empty(), reports: Seq::empty(), ..s };
    lemma_commanded_buffers(cleared, commands, ts);
}

proof fn lemma_commanded_buffers<Q: QueueModel>(s: SimView<Q>, commands: Seq<Command>, ts: i64)
    ensures
        s.commanded(commands, ts).ticks == s.ticks,
        s.commanded(commands, ts).reports == s.reports,
        s.commanded(commands, ts).timer == s.timer,
    decreases commands.len(),
{
    if commands.len() > 0 {
        lemma_commanded_buffers(s, commands.drop_last(), ts);
    }
}

/// The fills of a list, without their orders.
pub open spec fn rows(fills: Seq<OrderFill>) -> Seq<TradeFill> {
    fills.map_values(|f: OrderFill| f.1)
}

/// Whether the rows describe fills of their orders.
pub open spec fn rows_fit(fills: Seq<OrderFill>) -> bool {
    forall|i: int|
        0 <= i < fills.len() ==> {
            let (order, row) = #[trigger] fills[i];
            row.side == order.side && row.symbol_id == order.symbol_id && row.qty > 0
        }
}

/// Whether an account holds the positions that a list of fills leads to.
pub open spec fn holds(account: AccountView, positions: Map<u32, PosState>) -> bool {
    forall|symbol_id: u32|
        (#[trigger] account.position(symbol_id)).qty == position_of(positions, symbol_id).qty
            && account.position(symbol_id).avg_price == position_of(positions, symbol_id).avg_price
}

/// The account and the trade log agree: the positions after a list of fills are those
/// of the average-cost model over the logged fills, and what a further fill realises in
/// the account is what the log shows for it.
pub proof fn law_account_matches_fill_log(
    log: LogView,
    ts: i64,
    fills: Seq<OrderFill>,
    order: Order,
    row: TradeFill,
)
    requires
        rows_fit(fills),
        row.side == order.side && row.symbol_id == order.symbol_id && row.qty > 0,
    ensures
        ({
            let account = settled(AccountView::empty(), log, ts, fills).0;
            &&& holds(account, positions_after_all(rows(fills)))
            &&& account.realised_at(order, row.qty, row.price) == delta_of(
                positions_after_all(rows(fills)),
                row,
            ).pnl
        }),
    decreases fills.len(),
{
    let account = settled(AccountView::empty(), log, ts, fills).0;
    let positions = positions_after_all(rows(fills));
    if fills.len() > 0 {
        let front = fills.drop_last();
        let (last_order, last_row) = fills[fills.len() - 1];
        assert(rows_fit(front)) by {
            assert forall|i: int| 0 <= i < front.len() implies {
                let (o, r) = #[trigger] front[i];
                r.side == o.side && r.symbol_id == o.symbol_id && r.qty > 0
            } by {
                assert(front[i] == fills[i]);
            }
        }
        law_account_matches_fill_log(log, ts, front, last_order, last_row);
        assert(rows(fills).drop_last() =~= rows(front));
        assert(rows(fills).last() == last_row);
        let before = settled(AccountView::empty(), log, ts, front).0;
        let positions_before = positions_after_all(rows(front));
        assert forall|symbol_id: u32|
            (#[trigger] account.position(symbol_id)).qty == position_of(
                positions,
                symbol_id,
            ).qty && account.position(symbol_id).avg_price == position_of(
                positions,
                symbol_id,
            ).avg_price by {
            assert(before.position(symbol_id).qty == position_of(positions_before, symbol_id).qty);
            assert(before.position(last_order.symbol_id).qty == position_of(
                positions_before,
                last_order.symbol_id,
            ).qty);
        }
    } else {
        assert(rows(fills) =~= Seq::empty());
        assert(account == AccountView::empty());
    }
    assert(account.position(order.symbol_id).qty == position_of(positions, order.symbol_id).qty);
}

/// In batch mode every delivered tick and every order update is handed out once, in order:
/// it waits behind those that came before, until the strategy is woken, which is then told
/// of all that wait, and nothing is left waiting.
pub proof fn law_batch_is_handed_out_once<Q: QueueModel, S: Strategy>(
    trader: S,
    at: SimView<Q>,
    kind: EventKind,
    x: Outcome,
    then: S,
)
    requires
        at.config.mode is Batch,
        !at.is_unknown_cancel(kind),
        hears(trader, at, kind, x, then),
    ensures
        ({
            let handled = at.handled(kind, x.commands, x.delay);
            let after = at.taken_up(kind, x);
            let wakes = is_woken(handled, at.asks_wakeup(kind));
            &&& handled.ticks == match kind {
                EventKind::TickDelivery(tick) => at.ticks.push(tick),
                _ => at.ticks,
            }
            &&& handled.reports == match kind {
                EventKind::OrderReport(report) => at.reports.push(report),
                _ => at.reports,
            }
            &&& wakes ==> {
                &&& after.ticks.len() == 0
                &&& after.reports.len() == 0
                &&& exists|mid: S| #[trigger]
                    hears_flush(mid, handled, handled.now, x.flush, then)
            }
            &&& !wakes ==> after.ticks == handled.ticks && after.reports == handled.reports
        }),
{
    reveal(SimView::taken_up);
    reveal(hears);
    lemma_handled_keeps(at, kind, x.commands, x.delay);
    let handled = at.handled(kind, x.commands, x.delay);
    let cleared = SimView { timer: None, ticks: Seq::empty(), reports: Seq::empty(), ..handled };
    lemma_commanded_keeps(cleared, x.flush, handled.now);
}

/// Market data comes in before the event that it precedes: no item is taken while an earlier
/// event is queued, and none that is left when an event is processed is as early as it.
pub proof fn law_data_comes_in_before_later_events<Q: QueueModel>(
    s: SimView<Q>,
    feeds: FeedsView,
    items: Seq<FeedItem>,
    after: FeedsView,
    i: int,
    queued: Event,
    place: Place,
    event: Event,
)
    requires
        is_intake(s, feeds, items, after),
        !after.lost,
        is_next(s.fed_all(items).queue, event),
    ensures
        0 <= i < items.len() && s.fed_all(items.take(i)).queue.contains(queued) && is_next(
            s.fed_all(items.take(i)).queue,
            queued,
        ) ==> items[i].ts() <= queued.id.ts_sim,
        after.waits(place) ==> after.item(place).ts() > event.id.ts_sim,
{
    lemma_earliest_time(s.fed_all(items).queue, event);
    if 0 <= i < items.len() && is_next(s.fed_all(items.take(i)).queue, queued) {
        lemma_earliest_time(s.fed_all(items.take(i)).queue, queued);
        assert(is_due(s.fed_all(items.take(i)), items[i]));
    }
}

proof fn lemma_earliest_time(queue: Multiset<Event>, event: Event)
    requires
        is_next(queue, event),
    ensures
        next_ts(queue) == Some(event.id.ts_sim),
{
    let other = choose|other: Event| is_next(queue, other);
    assert(other.id.precedes(event.id) && event.id.precedes(other.id));
    vstd::multiset::axiom_count_le_len(queue, event);
}

/// A run is over when no event is queued and, in batch mode, nothing waits for the strategy.
pub proof fn law_finished_run_has_nothing_left<Q: QueueModel>(s: SimView<Q>, e: Event)
    ensures
        is_finished(s) <==> s.queue.len() == 0 && (s.config.mode is Batch ==> s.ticks.len() == 0
            && s.reports.len() == 0),
        is_finished(s) ==> !s.queue.contains(e),
{
    if s.queue.contains(e) {
        vstd::multiset::axiom_count_le_len(s.queue, e);
    }
}

} // verus!
