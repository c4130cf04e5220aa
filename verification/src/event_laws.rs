//! What each event does to the simulation, said of the state before and after it.
use vstd::multiset::Multiset;
use vstd::prelude::*;

use crate::account::AccountView;
use crate::event::{Event, EventId, EventKind};
use crate::event_queue::is_next;
use crate::exchange_simulator::ExchangeView;
use crate::feeds::FeedItem;
use crate::fees::fee_of;
use crate::queue_model::QueueModel;
use crate::sim_view::{
    logged, maker_fills, next_ts, settled, EngineConfig, OrderFill, Outcome, SimView,
};
use crate::stats::{LogView, TradeFill};
use crate::strategy::Command;
use crate::types::{FundingEvent, L2Update, L3Update, Order, OrderReport, OrderState, Tick};

verus! {

/// The queue after an event of this time and kind was scheduled under this number.
pub open spec fn with_event(queue: Multiset<Event>, ts: i64, seq: int, kind: EventKind) -> Multiset<
    Event,
> {
    queue.insert(Event { id: EventId { ts_sim: ts, seq: seq as u64 }, kind })
}

/// Whether `t` comes `latency` after `ts`, or at the end of time.
pub open spec fn comes_later(ts: i64, latency: i64, t: i64) -> bool {
    &&& i64::MIN <= ts + latency <= i64::MAX ==> t == ts + latency
    &&& ts + latency > i64::MAX ==> t == i64::MAX
    &&& ts + latency < i64::MIN ==> t == i64::MIN
}

/// The event that leaves next is the earliest, and of those of one time the first scheduled;
/// its time is the next time of the queue.
pub proof fn law_next_event_is_earliest(queue: Multiset<Event>, e: Event, other: Event)
    requires
        is_next(queue, e),
        queue.contains(other),
    ensures
        queue.contains(e),
        e.id.ts_sim <= other.id.ts_sim,
        e.id.ts_sim == other.id.ts_sim ==> e.id.seq <= other.id.seq,
        next_ts(queue) == Some(e.id.ts_sim),
{
    let c = choose|c: Event| is_next(queue, c);
    assert(c.id.precedes(e.id) && e.id.precedes(c.id));
    vstd::multiset::axiom_count_le_len(queue, e);
}

/// An event that is scheduled joins the queue at its time, behind all that were scheduled
/// before; nothing else changes.
pub proof fn law_scheduling_only_queues<Q: QueueModel>(s: SimView<Q>, ts: i64, kind: EventKind)
    requires
        s.next_event_seq < u64::MAX,
    ensures
        s.pushed(ts, kind) == (SimView {
            queue: with_event(s.queue, ts, s.next_event_seq as int, kind),
            next_event_seq: (s.next_event_seq + 1) as u64,
            ..s
        }),
{
}

/// A tick that comes in is scheduled twice: at the exchange at its exchange time, and for the
/// strategy at its local time, or after the latency of the feed where it has none. A book
/// update is scheduled at the exchange. Nothing else changes.
pub proof fn law_market_data_is_scheduled<Q: QueueModel>(
    s: SimView<Q>,
    tick: Tick,
    update: L3Update,
    t: i64,
)
    requires
        s.next_event_seq + 2 <= u64::MAX,
        tick.ts_local != 0 ==> t == tick.ts_local,
        tick.ts_local == 0 ==> comes_later(tick.ts_exchange, s.config.feed_latency_ns, t),
    ensures
        s.fed(FeedItem::Tick(tick)) == (SimView {
            queue: with_event(
                with_event(
                    s.queue,
                    tick.ts_exchange,
                    s.next_event_seq as int,
                    EventKind::Tick(tick),
                ),
                t,
                s.next_event_seq + 1,
                EventKind::TickDelivery(Tick { ts_local: t, ..tick }),
            ),
            next_event_seq: (s.next_event_seq + 2) as u64,
            ..s
        }),
        s.fed(FeedItem::L3(update)) == (SimView {
            queue: with_event(
                s.queue,
                update.ts_exchange,
                s.next_event_seq as int,
                EventKind::L3Update(update),
            ),
            next_event_seq: (s.next_event_seq + 1) as u64,
            ..s
        }),
{
}

/// The row of the trade log that a fill of an order makes.
pub open spec fn is_fill_row(
    row: TradeFill,
    order: Order,
    report: OrderReport,
    ts: i64,
    fee_bps: i64,
    is_taker: bool,
) -> bool {
    &&& row.ts_exchange == ts
    &&& row.order_id == report.order_id
    &&& row.symbol_id == report.symbol_id
    &&& row.price == report.last_fill_price
    &&& row.qty == report.last_fill_qty
    &&& row.side == order.side
    &&& row.is_taker == is_taker
    &&& row.fee == fee_of(report.last_fill_price, report.last_fill_qty, fee_bps)
}

/// Every report on a fill of a known order makes a row of the log, in order, as a maker's
/// fill with the maker's fee; a report without a fill makes none.
pub proof fn law_reports_become_fills<Q: QueueModel>(
    ex: ExchangeView<Q>,
    reports: Seq<OrderReport>,
    report: OrderReport,
    ts: i64,
    fee_bps: i64,
)
    ensures
        ({
            let before = maker_fills(ex, reports, ts, fee_bps);
            let after = maker_fills(ex, reports.push(report), ts, fee_bps);
            let counts = report.last_fill_qty > 0 && ex.orders.contains_key(report.order_id);
            &&& !counts ==> after == before
            &&& counts ==> {
                let order = ex.orders[report.order_id].order;
                &&& after.len() == before.len() + 1
                &&& after.drop_last() == before
                &&& after.last().0 == order
                &&& is_fill_row(after.last().1, order, report, ts, fee_bps, false)
            }
        }),
        maker_fills(ex, Seq::empty(), ts, fee_bps).len() == 0,
{
    let more = reports.push(report);
    assert(more.drop_last() =~= reports);
    assert(more.last() == report);
    let before = maker_fills(ex, reports, ts, fee_bps);
    let after = maker_fills(ex, more, ts, fee_bps);
    if report.last_fill_qty > 0 && ex.orders.contains_key(report.order_id) {
        assert(after.drop_last() =~= before);
    }
}

/// Fills are logged one after the other.
pub proof fn law_fills_are_logged(log: LogView, fills: Seq<OrderFill>, fill: OrderFill)
    ensures
        logged(log, Seq::empty()) == log,
        logged(log, fills.push(fill)) == logged(log, fills).with_fill(fill.1),
{
    assert(fills.push(fill).drop_last() =~= fills);
}

/// A fill is settled on the position of its order at its price and quantity, and leaves as
/// PnL of a trade what it realised, less its fee.
pub proof fn law_fills_are_settled(
    account: AccountView,
    log: LogView,
    ts: i64,
    fills: Seq<OrderFill>,
    fill: OrderFill,
)
    ensures
        settled(account, log, ts, Seq::empty()) == (account, log),
        ({
            let (a, l) = settled(account, log, ts, fills);
            let (b, m) = settled(account, log, ts, fills.push(fill));
            let (order, row) = fill;
            let net = a.realised_at(order, row.qty, row.price) - row.fee;
            &&& b == a.with_fill_at(order, row.qty, row.price)
            &&& i64::MIN <= net <= i64::MAX ==> m == l.with_pnl(ts, net as i64, true)
            &&& m.fills == l.fills
            &&& !(l.mode is Off) ==> m.pnl_history.len() == l.pnl_history.len() + 1
        }),
{
    assert(fills.push(fill).drop_last() =~= fills);
}

/// Every report is scheduled for the strategy, in order.
pub proof fn law_reports_are_scheduled<Q: QueueModel>(
    s: SimView<Q>,
    ts: i64,
    reports: Seq<OrderReport>,
    report: OrderReport,
)
    ensures
        s.notified(ts, Seq::empty()) == s,
        s.notified(ts, reports.push(report)) == s.notified(ts, reports).pushed(
            ts,
            EventKind::OrderReport(report),
        ),
{
    assert(reports.push(report).drop_last() =~= reports);
}

proof fn lemma_notified_frame<Q: QueueModel>(s: SimView<Q>, ts: i64, reports: Seq<OrderReport>)
    ensures
        ({
            let n = s.notified(ts, reports);
            n == (SimView { queue: n.queue, next_event_seq: n.next_event_seq, ..s })
        }),
    decreases reports.len(),
{
    if reports.len() > 0 {
        lemma_notified_frame(s, ts, reports.drop_last());
    }
}

/// A trade at the exchange is the last price of its symbol there, and meets the orders of its
/// symbol alone. What it fills is booked as a maker's, at the time of the trade; every report
/// reaches the strategy after the latency of order updates. The strategy's view of the market
/// does not change.
pub proof fn law_trade_at_the_exchange<Q: QueueModel>(s: SimView<Q>, tick: Tick, t: i64, other: u32)
    requires
        comes_later(tick.ts_exchange, s.config.order_update_latency_ns, t),
    ensures
        ({
            let after = s.truth_tick(tick);
            let (ex, reports) = s.exchange(tick.symbol_id).after_trade(tick);
            let fills = maker_fills(ex, reports, tick.ts_exchange, s.config.maker_fee_bps);
            let books = settled(s.account, logged(s.log, fills), tick.ts_exchange, fills);
            &&& after.truth.contains_key(tick.symbol_id) && after.truth[tick.symbol_id] == tick
            &&& other != tick.symbol_id ==> after.truth.contains_key(other)
                == s.truth.contains_key(other)
            &&& other != tick.symbol_id && s.truth.contains_key(other) ==> after.truth[other]
                == s.truth[other]
            &&& after.exchange(tick.symbol_id) == ex
            &&& other != tick.symbol_id ==> after.exchange(other) == s.exchange(other)
            &&& after.market == s.market
            &&& after.account == books.0
            &&& after.log == books.1
            &&& after.queue == s.notified(t, reports).queue
            &&& after.now == s.now
            &&& after.routes == s.routes
            &&& after.ticks == s.ticks
            &&& after.reports == s.reports
        }),
{
    let (ex, reports) = s.exchange(tick.symbol_id).after_trade(tick);
    let fills = maker_fills(ex, reports, tick.ts_exchange, s.config.maker_fee_bps);
    let booked = SimView { truth: s.truth.insert(tick.symbol_id, tick), ..s }.with_exchange(
        tick.symbol_id,
        ex,
    ).booked(tick.ts_exchange, fills);
    lemma_notified_frame(booked, t, reports);
    lemma_notified_queue(booked, s, t, reports);
}

proof fn lemma_notified_queue<Q: QueueModel>(
    a: SimView<Q>,
    b: SimView<Q>,
    ts: i64,
    reports: Seq<OrderReport>,
)
    requires
        a.queue == b.queue,
        a.next_event_seq == b.next_event_seq,
    ensures
        a.notified(ts, reports).queue == b.notified(ts, reports).queue,
        a.notified(ts, reports).next_event_seq == b.notified(ts, reports).next_event_seq,
    decreases reports.len(),
{
    if reports.len() > 0 {
        lemma_notified_queue(a, b, ts, reports.drop_last());
    }
}

/// Whether the books after a market order are those of one fill, as a taker's, now.
pub open spec fn books_taker_fill<Q: QueueModel>(
    s: SimView<Q>,
    after: SimView<Q>,
    order: Order,
    report: OrderReport,
    row: TradeFill,
) -> bool {
    &&& is_fill_row(row, order, report, s.now, s.config.taker_fee_bps, true)
    &&& (after.account, after.log) == settled(
        s.account,
        s.log.with_fill(row),
        s.now,
        seq![(order, row)],
    )
}

/// A market order is filled on arrival, at what the exchange of its symbol has against it,
/// and else at the price of the last trade there. The fill is booked as a taker's, now; what
/// is not filled is cancelled; and the strategy is told after the latency of order updates.
pub proof fn law_market_order_arrives<Q: QueueModel>(
    s: SimView<Q>,
    order: Order,
    last: Option<i64>,
    t: i64,
    row: TradeFill,
    delay: i64,
)
    requires
        order.order_type is Market,
        !(order.side is NoSide),
        s.next_event_seq + 2 <= u64::MAX,
        comes_later(s.now, s.config.order_update_latency_ns, t),
        s.truth.contains_key(order.symbol_id) ==> last == Some(s.truth[order.symbol_id].price),
        !s.truth.contains_key(order.symbol_id) ==> last is None,
        row == (TradeFill {
            ts_exchange: s.now,
            order_id: order.order_id,
            price: row.price,
            qty: row.qty,
            fee: fee_of(row.price, row.qty, s.config.taker_fee_bps),
            symbol_id: order.symbol_id,
            side: order.side,
            is_taker: true,
        }),
        ({
            let ex = s.exchange(order.symbol_id).submitted(order);
            let report = ex.market_filled(order.order_id, last).1;
            row.price == report.last_fill_price && row.qty == report.last_fill_qty
        }),
    ensures
        ({
            let after = s.handled(EventKind::Order(order), Seq::empty(), delay);
            let ex = s.exchange(order.symbol_id).submitted(order);
            let (o, report) = ex.market_filled(order.order_id, last);
            let told = with_event(
                s.queue,
                t,
                s.next_event_seq as int,
                EventKind::OrderReport(report),
            );
            let kept = after.exchange(order.symbol_id).orders[order.order_id];
            &&& report.status is Filled ==> {
                &&& books_taker_fill(s, after, order, report, row)
                &&& after.queue == told
                &&& kept == o
            }
            &&& report.status is PartiallyFilled ==> {
                &&& books_taker_fill(s, after, order, report, row)
                &&& kept.state is Cancelled
                &&& kept.filled_qty == o.filled_qty
                &&& kept.remaining_qty == o.remaining_qty
                &&& after.queue == with_event(
                    told,
                    t,
                    s.next_event_seq + 1,
                    EventKind::OrderReport(
                        OrderReport {
                            order_id: order.order_id,
                            last_fill_qty: 0,
                            last_fill_price: 0,
                            filled_qty: o.filled_qty,
                            remaining_qty: o.remaining_qty,
                            reason: Some("market order partial fill: remaining qty cancelled"),
                            symbol_id: order.symbol_id,
                            status: OrderState::Cancelled,
                        },
                    ),
                )
            }
            &&& report.status is Rejected ==> {
                &&& after.account == s.account
                &&& after.log == s.log
                &&& after.queue == told
                &&& kept == o
            }
            &&& after.market == s.market
            &&& after.truth == s.truth
        }),
{
    let ex = s.exchange(order.symbol_id).submitted(order);
    let (o, report) = ex.market_filled(order.order_id, last);
    let fills = seq![(order, row)];
    assert(fills.drop_last() =~= Seq::empty());
    assert(logged(s.log, fills.drop_last()) == s.log);
    assert(logged(s.log, fills) == s.log.with_fill(row));
    assert(report.order_id == order.order_id);
    assert(report.symbol_id == order.symbol_id);
}

/// A limit order that arrives waits at the exchange of its symbol, which answers after the
/// latency of the order, never before now.
pub proof fn law_limit_order_arrives<Q: QueueModel>(
    s: SimView<Q>,
    order: Order,
    delay: i64,
    t: i64,
)
    requires
        order.order_type is Limit,
        s.next_event_seq < u64::MAX,
        delay >= 0 ==> comes_later(s.now, delay, t),
        delay < 0 ==> t == s.now,
    ensures
        s.handled(EventKind::Order(order), Seq::empty(), delay) == (SimView {
            exchanges: s.exchanges.insert(
                order.symbol_id,
                s.exchange(order.symbol_id).submitted(order),
            ),
            queue: with_event(
                s.queue,
                t,
                s.next_event_seq as int,
                EventKind::OrderAck { order_id: order.order_id },
            ),
            next_event_seq: (s.next_event_seq + 1) as u64,
            ..s
        }),
{
}

/// An acknowledged order is open, and the strategy is told so after the latency of order
/// updates; an acknowledgement of any other order changes no order and tells nothing.
pub proof fn law_order_is_acknowledged<Q: QueueModel>(s: SimView<Q>, id: u64, t: i64, other: u64)
    requires
        s.next_event_seq < u64::MAX,
        comes_later(s.now, s.config.order_update_latency_ns, t),
        s.routes.contains_key(id),
        s.exchange(s.routes[id]).orders.contains_key(id),
    ensures
        ({
            let after = s.handled(EventKind::OrderAck { order_id: id }, Seq::empty(), 0);
            let o = s.exchange(s.routes[id]).orders[id];
            let p = after.exchange(s.routes[id]).orders[id];
            &&& o.state is PendingNew ==> {
                &&& p.state is Open
                &&& p.order == o.order && p.place == o.place
                &&& p.filled_qty == o.filled_qty && p.remaining_qty == o.remaining_qty
                &&& after.queue == with_event(
                    s.queue,
                    t,
                    s.next_event_seq as int,
                    EventKind::OrderReport(
                        OrderReport {
                            order_id: o.order.order_id,
                            last_fill_qty: 0,
                            last_fill_price: 0,
                            filled_qty: 0,
                            remaining_qty: o.remaining_qty,
                            reason: None,
                            symbol_id: o.order.symbol_id,
                            status: OrderState::Open,
                        },
                    ),
                )
            }
            &&& !(o.state is PendingNew) ==> p == o && after.queue == s.queue
            &&& other != id && s.exchange(s.routes[id]).orders.contains_key(other)
                ==> after.exchange(s.routes[id]).orders[other] == s.exchange(
                s.routes[id],
            ).orders[other]
            &&& after.account == s.account && after.log == s.log && after.market == s.market
        }),
{
}

/// A cancel request that arrives puts an open order on its way out, which the exchange
/// carries out after the latency of the request; any other order is left alone.
pub proof fn law_cancel_arrives<Q: QueueModel>(s: SimView<Q>, id: u64, delay: i64, t: i64)
    requires
        s.next_event_seq < u64::MAX,
        delay >= 0 ==> comes_later(s.now, delay, t),
        delay < 0 ==> t == s.now,
        s.routes.contains_key(id),
        s.exchange(s.routes[id]).orders.contains_key(id),
    ensures
        ({
            let after = s.handled(EventKind::OrderCancel { order_id: id }, Seq::empty(), delay);
            let o = s.exchange(s.routes[id]).orders[id];
            let p = after.exchange(s.routes[id]).orders[id];
            &&& o.state is Open || o.state is PartiallyFilled ==> {
                &&& p.state is PendingCancel
                &&& p.order == o.order && p.place == o.place
                &&& p.filled_qty == o.filled_qty && p.remaining_qty == o.remaining_qty
                &&& after.queue == with_event(
                    s.queue,
                    t,
                    s.next_event_seq as int,
                    EventKind::OrderCancelAck { order_id: id },
                )
            }
            &&& !(o.state is Open || o.state is PartiallyFilled) ==> p == o && after.queue
                == s.queue
            &&& after.account == s.account && after.log == s.log && after.market == s.market
        }),
{
}

/// A cancel is carried out on an order that still waits for it, and the strategy is told
/// what was filled before, after the latency of order updates; an order that was filled in
/// between stays filled.
pub proof fn law_cancel_is_carried_out<Q: QueueModel>(s: SimView<Q>, id: u64, t: i64)
    requires
        s.next_event_seq < u64::MAX,
        comes_later(s.now, s.config.order_update_latency_ns, t),
        s.routes.contains_key(id),
        s.exchange(s.routes[id]).orders.contains_key(id),
    ensures
        ({
            let after = s.handled(EventKind::OrderCancelAck { order_id: id }, Seq::empty(), 0);
            let o = s.exchange(s.routes[id]).orders[id];
            let p = after.exchange(s.routes[id]).orders[id];
            &&& o.state is PendingCancel ==> {
                &&& p.state is Cancelled
                &&& p.order == o.order && p.place == o.place
                &&& p.filled_qty == o.filled_qty && p.remaining_qty == o.remaining_qty
                &&& after.queue == with_event(
                    s.queue,
                    t,
                    s.next_event_seq as int,
                    EventKind::OrderReport(
                        OrderReport {
                            order_id: o.order.order_id,
                            last_fill_qty: 0,
                            last_fill_price: 0,
                            filled_qty: o.filled_qty,
                            remaining_qty: o.remaining_qty,
                            reason: None,
                            symbol_id: o.order.symbol_id,
                            status: OrderState::Cancelled,
                        },
                    ),
                )
            }
            &&& !(o.state is PendingCancel) ==> p == o && after.queue == s.queue
            &&& after.account == s.account && after.log == s.log && after.market == s.market
        }),
{
}

/// An update that is delivered on an order that is done makes the simulation forget the
/// order; any other update changes no order. In batch mode it waits for the strategy.
pub proof fn law_update_is_delivered<Q: QueueModel>(s: SimView<Q>, report: OrderReport, other: u64)
    ensures
        ({
            let after = s.report_arrived(report);
            let id = report.order_id;
            let done = report.status is Filled || report.status is Cancelled
                || report.status is Rejected;
            &&& done ==> !after.routes.contains_key(id)
            &&& done && s.routes.contains_key(id) ==> !after.exchange(
                s.routes[id],
            ).orders.contains_key(id)
            &&& !done ==> after.routes == s.routes && after.exchanges == s.exchanges
            &&& other != id ==> after.routes.contains_key(other) == s.routes.contains_key(other)
            &&& other != id && s.routes.contains_key(other) ==> after.routes[other]
                == s.routes[other]
            &&& s.config.mode is Batch ==> after.reports == s.reports.push(report)
            &&& s.config.mode is Tick ==> after.reports == s.reports
            &&& after.ticks == s.ticks
            &&& after.account == s.account && after.log == s.log
            &&& after.market == s.market && after.queue == s.queue
        }),
{
}

/// A funding event pays on the position of its symbol, at the price of the last trade of that
/// symbol at the exchange, or at 0 where there was none; what it pays is logged at its time,
/// and not as a trade.
pub proof fn law_funding_is_paid<Q: QueueModel>(s: SimView<Q>, event: FundingEvent, mark: i64)
    requires
        s.truth.contains_key(event.symbol_id) ==> mark == s.truth[event.symbol_id].price,
        !s.truth.contains_key(event.symbol_id) ==> mark == 0,
    ensures
        s.funded(event) == (SimView {
            account: s.account.with_funding(event, mark),
            log: s.log.with_pnl(event.ts_exchange, s.account.funding(event, mark), false),
            ..s
        }),
{
}

/// An order that a strategy submits gets the next identifier and the time of its submission,
/// keeps all else, and goes to the exchange of its symbol at once; a cancel goes the way of
/// its order.
pub proof fn law_commands_are_sent<Q: QueueModel>(s: SimView<Q>, order: Order, id: u64, ts: i64)
    requires
        s.next_event_seq < u64::MAX,
        s.next_order_id < u64::MAX,
    ensures
        s.commanded_one(Command::SubmitOrder(order), ts) == (SimView {
            queue: with_event(
                s.queue,
                ts,
                s.next_event_seq as int,
                EventKind::Order(Order { order_id: s.next_order_id, ts_submit: ts, ..order }),
            ),
            next_event_seq: (s.next_event_seq + 1) as u64,
            routes: s.routes.insert(s.next_order_id, order.symbol_id),
            next_order_id: (s.next_order_id + 1) as u64,
            ..s
        }),
        s.commanded_one(Command::CancelOrder { order_id: id }, ts) == (SimView {
            queue: with_event(
                s.queue,
                ts,
                s.next_event_seq as int,
                EventKind::OrderCancel { order_id: id },
            ),
            next_event_seq: (s.next_event_seq + 1) as u64,
            ..s
        }),
{
}

/// Commands are carried out in the order in which they were given.
pub proof fn law_commands_are_sent_in_order<Q: QueueModel>(
    s: SimView<Q>,
    commands: Seq<Command>,
    command: Command,
    ts: i64,
)
    ensures
        s.commanded(Seq::empty(), ts) == s,
        s.commanded(commands.push(command), ts) == s.commanded(commands, ts).commanded_one(
            command,
            ts,
        ),
{
    assert(commands.push(command).drop_last() =~= commands);
}

/// A tick that is delivered is in the strategy's view from then on. In batch mode it waits
/// for the strategy, and the first one that waits sets the timer of the batch.
pub proof fn law_tick_is_delivered<Q: QueueModel>(s: SimView<Q>, tick: Tick, t: i64)
    requires
        s.next_event_seq < u64::MAX,
        s.next_timer_id < u64::MAX,
        comes_later(tick.ts_local, s.config.max_batch_ns, t),
    ensures
        ({
            let after = s.delivered(tick);
            let seen = s.market.insert(tick.symbol_id, tick);
            let sets_timer = s.timer is None && s.config.max_batch_ns > 0;
            &&& s.config.mode is Tick ==> after == (SimView { market: seen, ..s })
            &&& s.config.mode is Batch && !sets_timer ==> after == (SimView {
                market: seen,
                ticks: s.ticks.push(tick),
                ..s
            })
            &&& s.config.mode is Batch && sets_timer ==> after == (SimView {
                market: seen,
                ticks: s.ticks.push(tick),
                timer: Some(s.next_timer_id),
                next_timer_id: (s.next_timer_id + 1) as u64,
                queue: with_event(
                    s.queue,
                    t,
                    s.next_event_seq as int,
                    EventKind::Timer { timer_id: s.next_timer_id },
                ),
                next_event_seq: (s.next_event_seq + 1) as u64,
                ..s
            })
        }),
{
}

/// Depth goes to the book of its symbol alone. The first book update of a symbol makes its
/// exchange keep an order-by-order book.
pub proof fn law_depth_goes_to_its_symbol<Q: QueueModel>(
    s: SimView<Q>,
    l2: L2Update,
    l3: L3Update,
    other: u32,
)
    ensures
        ({
            let after = s.handled(EventKind::L2Update(l2), Seq::empty(), 0);
            &&& after.exchange(l2.symbol_id).book == s.exchange(l2.symbol_id).book.updated(l2)
            &&& after.exchange(l2.symbol_id).orders == s.exchange(l2.symbol_id).orders
            &&& other != l2.symbol_id ==> after.exchange(other) == s.exchange(other)
            &&& after.queue == s.queue && after.account == s.account && after.log == s.log
            &&& after.market == s.market
        }),
        ({
            let after = s.handled(EventKind::L3Update(l3), Seq::empty(), 0);
            &&& !s.exchanges.contains_key(l3.symbol_id) ==> after.exchange(
                l3.symbol_id,
            ).book_l3 is Some
            &&& s.exchanges.contains_key(l3.symbol_id) ==> after.exchange(l3.symbol_id)
                == s.exchanges[l3.symbol_id].l3_updated(l3)
            &&& other != l3.symbol_id ==> after.exchange(other) == s.exchange(other)
            &&& after.queue == s.queue && after.account == s.account && after.log == s.log
            &&& after.market == s.market
        }),
{
}

/// In tick mode the strategy's commands follow a delivered tick at its local time, and an
/// order update now; in batch mode they wait for the flush.
pub proof fn law_commands_follow_the_callback<Q: QueueModel>(
    s: SimView<Q>,
    tick: Tick,
    report: OrderReport,
    commands: Seq<Command>,
    delay: i64,
)
    ensures
        s.config.mode is Tick ==> s.handled(EventKind::TickDelivery(tick), commands, delay)
            == s.delivered(tick).commanded(commands, tick.ts_local),
        s.config.mode is Batch ==> s.handled(EventKind::TickDelivery(tick), commands, delay)
            == s.delivered(tick),
        s.config.mode is Tick ==> s.handled(EventKind::OrderReport(report), commands, delay)
            == s.report_arrived(report).commanded(commands, s.now),
        s.config.mode is Batch ==> s.handled(EventKind::OrderReport(report), commands, delay)
            == s.report_arrived(report),
{
}

/// A trade at the exchange is told to no strategy, and takes no command; the commands that
/// answer a funding event follow it, in both modes.
pub proof fn law_trades_and_funding_are_handled<Q: QueueModel>(
    s: SimView<Q>,
    tick: Tick,
    event: FundingEvent,
    commands: Seq<Command>,
    delay: i64,
)
    ensures
        s.handled(EventKind::Tick(tick), commands, delay) == s.truth_tick(tick),
        s.handled(EventKind::Funding(event), commands, delay) == s.funded(event).commanded(
            commands,
            s.now,
        ),
{
}

/// A timer ends the batch that it was set for, and no other.
pub proof fn law_timer_ends_its_batch<Q: QueueModel>(
    s: SimView<Q>,
    timer_id: u64,
    commands: Seq<Command>,
    delay: i64,
)
    ensures
        s.config.mode is Batch && s.timer == Some(timer_id) ==> s.handled(
            EventKind::Timer { timer_id },
            commands,
            delay,
        ) == (SimView { timer: None, ..s }),
        s.config.mode is Tick || s.timer != Some(timer_id) ==> s.handled(
            EventKind::Timer { timer_id },
            commands,
            delay,
        ) == s,
{
}

/// When a batch is handed to the strategy: after an order update, a funding event or the
/// timer of the batch, once no other event of the same time is left.
pub proof fn law_batch_is_flushed_in_time<Q: QueueModel>(
    s: SimView<Q>,
    kind: EventKind,
    flush: Seq<Command>,
    duration: i64,
    e: Event,
)
    requires
        is_next(s.queue, e) || s.queue.len() == 0,
    ensures
        s.asks_wakeup(kind) <==> kind is OrderReport || kind is Funding || (s.config.mode is Batch
            && (kind matches EventKind::Timer { timer_id } && s.timer == Some(timer_id))),
        ({
            let asked = s.woken(true, flush, duration);
            let unasked = s.woken(false, flush, duration);
            let is_busy = s.queue.len() > 0 && e.id.ts_sim == s.now;
            &&& s.config.mode is Tick ==> asked == s && unasked == s
            &&& s.config.mode is Batch && is_busy ==> asked == (SimView {
                pending_wakeup: true,
                ..s
            })
            &&& s.config.mode is Batch && !is_busy ==> asked == (SimView {
                pending_wakeup: false,
                ..s.flushed(s.now, flush, duration)
            })
            &&& s.config.mode is Batch && s.pending_wakeup ==> unasked == asked
            &&& s.config.mode is Batch && !s.pending_wakeup ==> unasked == s
        }),
{
    if s.queue.len() > 0 {
        assert(s.queue.contains(e));
        law_next_event_is_earliest(s.queue, e, e);
    }
}

/// A new simulation has nothing: no events, orders, positions or data; its clock stands at 0,
/// and it has the configuration and the log that it is given.
pub proof fn law_new_simulation_is_empty<Q: QueueModel>(
    model: Q,
    config: EngineConfig,
    symbol_id: u32,
)
    ensures
        ({
            let s = SimView::fresh(model, config);
            &&& s.config == config
            &&& s.model == model
            &&& s.queue.len() == 0
            &&& s.now == 0
            &&& !s.exchanges.contains_key(symbol_id)
            &&& s.account.position(symbol_id).qty == 0
            &&& s.account.total_funding_pnl == 0
            &&& s.log.mode == config.trade_log_mode
            &&& s.log.fills.len() == 0
            &&& s.log.pnl_history.len() == 0
            &&& !s.market.contains_key(symbol_id)
            &&& !s.truth.contains_key(symbol_id)
            &&& s.ticks.len() == 0
            &&& s.reports.len() == 0
            &&& s.timer is None
        }),
{
}

/// A flush hands out all that waits: nothing waits after it and no timer is set, the
/// strategy's commands are carried out, and a tuner that is on counts the items and sets the
/// batch size. Where nothing waits, there is no flush.
pub proof fn law_flush_hands_out_all<Q: QueueModel>(
    s: SimView<Q>,
    ts: i64,
    commands: Seq<Command>,
    duration: i64,
    items: u64,
)
    requires
        items == s.ticks.len() + s.reports.len(),
    ensures
        items == 0 ==> s.flushed(ts, commands, duration) == s,
        items > 0 ==> {
            let cleared = SimView { timer: None, ticks: Seq::empty(), reports: Seq::empty(), ..s };
            let after = cleared.commanded(commands, ts);
            let is_tuned = after.config.mode is Batch && after.config.auto_tune;
            let tuner = after.tuner.recorded(duration, items);
            s.flushed(ts, commands, duration) == if is_tuned {
                SimView {
                    tuner,
                    config: EngineConfig { max_batch_ns: tuner.current, ..after.config },
                    ..after
                }
            } else {
                after
            }
        },
{
}

/// A step takes the market data in, moves the clock to the event, which leaves the queue, and
/// then handles it and wakes the strategy where that is due; a cancel of an order that is not
/// known is passed over.
pub proof fn law_step_handles_its_event<Q: QueueModel>(s: SimView<Q>, event: Event, x: Outcome)
    ensures
        ({
            let fed = s.fed_all(x.items);
            let at = SimView { queue: fed.queue.remove(event), now: event.id.ts_sim, ..fed };
            let is_unknown = event.kind matches EventKind::OrderCancel { order_id }
                && !at.routes.contains_key(order_id);
            &&& is_unknown ==> s.stepped(event, x) == at
            &&& !is_unknown ==> s.stepped(event, x) == at.handled(
                event.kind,
                x.commands,
                x.delay,
            ).woken(at.asks_wakeup(event.kind), x.flush, x.duration)
        }),
{
    reveal(SimView::taken_up);
}

/// Market data is taken in item by item.
pub proof fn law_market_data_is_taken_in_order<Q: QueueModel>(
    s: SimView<Q>,
    items: Seq<FeedItem>,
    item: FeedItem,
)
    ensures
        s.fed_all(Seq::empty()) == s,
        s.fed_all(items.push(item)) == s.fed_all(items).fed(item),
{
    assert(items.push(item).drop_last() =~= items);
}

/// The exchange of a symbol is the one that there is, and else a new one without orders or
/// depth, with a price-level book.
pub proof fn law_exchange_of_a_symbol<Q: QueueModel>(
    s: SimView<Q>,
    symbol_id: u32,
    id: u64,
    price: i64,
)
    ensures
        s.exchanges.contains_key(symbol_id) ==> s.exchange(symbol_id) == s.exchanges[symbol_id],
        !s.exchanges.contains_key(symbol_id) ==> {
            let ex = s.exchange(symbol_id);
            &&& !ex.orders.contains_key(id)
            &&& !ex.book.bids.contains_key(price)
            &&& !ex.book.asks.contains_key(price)
            &&& ex.book_l3 is None
            &&& ex.model == s.model
        },
{
}

} // verus!
