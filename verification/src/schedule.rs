//! What the handling of events adds to the queue.
use vstd::multiset::Multiset;
use vstd::prelude::*;

use crate::engine::{is_last_move, is_move, is_step, is_trace, moves, Stage};
use crate::event::{Event, EventId, EventKind};
use crate::feeds::FeedItem;
use crate::latency_model::LatencyModel;
use crate::math::clamp_i64;
use crate::queue_model::QueueModel;
use crate::sim_view::{
    delivery_ts, last_price, maker_fills, next_number, EngineConfig, Outcome, SimView,
};
use crate::strategy::{Command, Strategy};
use crate::types::{Order, OrderReport, OrderState, Tick};

verus! {

/// The queue of a simulation, and the sequence number that the next event gets.
#[verifier::ext_equal]
pub ghost struct Line {
    pub queue: Multiset<Event>,
    pub next: u64,
}

impl Line {
    /// The event that is made of what is scheduled next.
    pub open spec fn next_event(self, new: (i64, EventKind)) -> Event {
        Event { id: EventId { ts_sim: new.0, seq: self.next }, kind: new.1 }
    }

    pub open spec fn push(self, new: (i64, EventKind)) -> Line {
        Line { queue: self.queue.insert(self.next_event(new)), next: next_number(self.next) }
    }

    /// After several events were scheduled, one after the other.
    pub open spec fn push_all(self, new: Seq<(i64, EventKind)>) -> Line
        decreases new.len(),
    {
        if new.len() == 0 {
            self
        } else {
            self.push_all(new.drop_last()).push(new.last())
        }
    }

    /// After an event left.
    pub open spec fn without(self, event: Event) -> Line {
        Line { queue: self.queue.remove(event), ..self }
    }

    /// Whether all queued events have different sequence numbers, and all were given out.
    pub open spec fn is_numbered(self) -> bool {
        &&& forall|e: Event| #[trigger] self.queue.contains(e) ==> e.id.seq < self.next
        &&& forall|e: Event| #[trigger] self.queue.count(e) <= 1
        &&& forall|a: Event, b: Event|
            #![trigger self.queue.contains(a), self.queue.contains(b)]
            self.queue.contains(a) && self.queue.contains(b) && a.id.seq == b.id.seq ==> a == b
    }
}

/// The queue of a simulation.
pub open spec fn line_of<Q: QueueModel>(s: SimView<Q>) -> Line {
    Line { queue: s.queue, next: s.next_event_seq }
}

/// The simulation with another queue.
pub open spec fn on_line<Q: QueueModel>(s: SimView<Q>, line: Line) -> SimView<Q> {
    SimView { queue: line.queue, next_event_seq: line.next, ..s }
}

pub proof fn lemma_push_contains(line: Line, new: (i64, EventKind), e: Event)
    ensures
        line.push(new).queue.contains(e) <==> line.queue.contains(e) || e == line.next_event(new),
{
    if e == line.next_event(new) {
        assert(line.push(new).queue.count(e) == line.queue.count(e) + 1);
    } else {
        assert(line.push(new).queue.count(e) == line.queue.count(e));
    }
}

/// Scheduling keeps the sequence numbers apart, while there are numbers left.
pub proof fn lemma_push_numbered(line: Line, new: (i64, EventKind))
    requires
        line.is_numbered(),
        line.next < u64::MAX,
    ensures
        line.push(new).is_numbered(),
        line.push(new).next == line.next + 1,
{
    let after = line.push(new);
    assert forall|e: Event| #[trigger] after.queue.contains(e) implies e.id.seq < after.next by {
        lemma_push_contains(line, new, e);
    }
    assert forall|e: Event| #[trigger] after.queue.count(e) <= 1 by {
        assert(line.queue.count(e) <= 1);
        if e == line.next_event(new) {
            assert(!line.queue.contains(e));
        }
    }
    assert forall|a: Event, b: Event|
        #![trigger after.queue.contains(a), after.queue.contains(b)]
        after.queue.contains(a) && after.queue.contains(b) && a.id.seq == b.id.seq implies a
        == b by {
        lemma_push_contains(line, new, a);
        lemma_push_contains(line, new, b);
    }
}

pub proof fn lemma_push_all_numbered(line: Line, new: Seq<(i64, EventKind)>)
    requires
        line.is_numbered(),
        line.next + new.len() <= u64::MAX,
    ensures
        line.push_all(new).is_numbered(),
        line.push_all(new).next == line.next + new.len(),
    decreases new.len(),
{
    if new.len() > 0 {
        lemma_push_all_numbered(line, new.drop_last());
        lemma_push_numbered(line.push_all(new.drop_last()), new.last());
    }
}

/// What is queued after several events were scheduled: what was queued before, and the new
/// events, numbered in the order in which they were scheduled.
pub proof fn lemma_push_all_contains(line: Line, new: Seq<(i64, EventKind)>, e: Event)
    requires
        line.next + new.len() <= u64::MAX,
    ensures
        line.push_all(new).next == line.next + new.len(),
        line.push_all(new).queue.contains(e) <==> line.queue.contains(e) || is_new(line, new, e),
    decreases new.len(),
{
    if new.len() > 0 {
        let front = new.drop_last();
        let mid = line.push_all(front);
        lemma_push_all_contains(line, front, e);
        lemma_push_contains(mid, new.last(), e);
        if e == mid.next_event(new.last()) {
            assert(new_event(line, new, new.len() - 1) == e);
        }
        if is_new(line, front, e) {
            let i = choose|i: int| 0 <= i < front.len() && #[trigger] new_event(line, front, i) == e;
            assert(new_event(line, new, i) == e);
        }
        if is_new(line, new, e) {
            let i = choose|i: int| 0 <= i < new.len() && #[trigger] new_event(line, new, i) == e;
            if i < front.len() {
                assert(new_event(line, front, i) == e);
            }
        }
    }
}

/// The event that the `i`-th of several new ones becomes.
pub open spec fn new_event(line: Line, new: Seq<(i64, EventKind)>, i: int) -> Event {
    Event { id: EventId { ts_sim: new[i].0, seq: (line.next + i) as u64 }, kind: new[i].1 }
}

/// Whether an event is one of several new ones.
pub open spec fn is_new(line: Line, new: Seq<(i64, EventKind)>, e: Event) -> bool {
    exists|i: int| 0 <= i < new.len() && #[trigger] new_event(line, new, i) == e
}

pub proof fn lemma_push_all_joins(
    line: Line,
    a: Seq<(i64, EventKind)>,
    b: Seq<(i64, EventKind)>,
)
    ensures
        line.push_all(a + b) == line.push_all(a).push_all(b),
    decreases b.len(),
{
    if b.len() == 0 {
        assert(a + b =~= a);
    } else {
        assert((a + b).drop_last() =~= a + b.drop_last());
        lemma_push_all_joins(line, a, b.drop_last());
    }
}

/// Scheduling and the leaving of another event commute.
pub proof fn lemma_push_all_without(line: Line, new: Seq<(i64, EventKind)>, event: Event)
    requires
        line.queue.contains(event),
    ensures
        line.without(event).push_all(new) == line.push_all(new).without(event),
        line.push_all(new).queue.contains(event),
    decreases new.len(),
{
    if new.len() > 0 {
        let front = new.drop_last();
        lemma_push_all_without(line, front, event);
        let (a, b) = (line.push_all(front), new.last());
        lemma_push_contains(a, b, event);
        assert(a.without(event).push(b) =~= a.push(b).without(event));
    }
}

/// The events that an item of market data becomes.
pub open spec fn item_events(config: EngineConfig, item: FeedItem) -> Seq<(i64, EventKind)> {
    match item {
        FeedItem::Tick(tick) => {
            let delivery = delivery_ts(config, tick);
            seq![
                (tick.ts_exchange, EventKind::Tick(tick)),
                (delivery, EventKind::TickDelivery(Tick { ts_local: delivery, ..tick })),
            ]
        },
        FeedItem::L3(update) => seq![(update.ts_exchange, EventKind::L3Update(update))],
    }
}

/// The events that market data becomes, in the order in which it comes in.
pub open spec fn feed_events(config: EngineConfig, items: Seq<FeedItem>) -> Seq<(i64, EventKind)>
    decreases items.len(),
{
    if items.len() == 0 {
        Seq::empty()
    } else {
        feed_events(config, items.drop_last()) + item_events(config, items.last())
    }
}

pub proof fn lemma_feed_events_join(config: EngineConfig, a: Seq<FeedItem>, b: Seq<FeedItem>)
    ensures
        feed_events(config, a + b) == feed_events(config, a) + feed_events(config, b),
    decreases b.len(),
{
    if b.len() == 0 {
        assert(a + b =~= a);
        assert(feed_events(config, a) + Seq::empty() =~= feed_events(config, a));
    } else {
        assert((a + b).drop_last() =~= a + b.drop_last());
        lemma_feed_events_join(config, a, b.drop_last());
        assert(feed_events(config, a + b) =~= feed_events(config, a) + feed_events(config, b));
    }
}

/// Market data that comes in is scheduled, and nothing else happens.
pub proof fn lemma_fed_on_line<Q: QueueModel>(s: SimView<Q>, items: Seq<FeedItem>)
    ensures
        s.fed_all(items) == on_line(s, line_of(s).push_all(feed_events(s.config, items))),
    decreases items.len(),
{
    if items.len() > 0 {
        let front = items.drop_last();
        lemma_fed_on_line(s, front);
        let last = item_events(s.config, items.last());
        lemma_push_all_joins(line_of(s), feed_events(s.config, front), last);
        let line = line_of(s).push_all(feed_events(s.config, front));
        if let FeedItem::Tick(_) = items.last() {
            lemma_one_on_line(line, last[0]);
            assert(last.drop_last() =~= seq![last[0]]);
            assert(line.push_all(last) == line.push(last[0]).push(last[1]));
        } else {
            lemma_one_on_line(line, last[0]);
            assert(last =~= seq![last[0]]);
        }
    }
}

/// The events of order updates.
pub open spec fn report_events(ts: i64, reports: Seq<OrderReport>) -> Seq<(i64, EventKind)> {
    Seq::new(reports.len(), |i: int| (ts, EventKind::OrderReport(reports[i])))
}

proof fn lemma_notified_on_line<Q: QueueModel>(
    s: SimView<Q>,
    line: Line,
    ts: i64,
    reports: Seq<OrderReport>,
)
    ensures
        on_line(s, line).notified(ts, reports) == on_line(
            s.notified(ts, reports),
            line.push_all(report_events(ts, reports)),
        ),
    decreases reports.len(),
{
    if reports.len() > 0 {
        let front = reports.drop_last();
        lemma_notified_on_line(s, line, ts, front);
        assert(report_events(ts, reports).drop_last() =~= report_events(ts, front));
    }
}

/// The event of a command, where `order_id` is the next identifier of an order.
pub open spec fn command_event(order_id: u64, command: Command, ts: i64) -> (i64, EventKind) {
    match command {
        Command::SubmitOrder(order) => (
            ts,
            EventKind::Order(Order { ts_submit: ts, order_id, ..order }),
        ),
        Command::CancelOrder { order_id } => (ts, EventKind::OrderCancel { order_id }),
    }
}

/// The events of commands.
pub open spec fn command_events<Q: QueueModel>(
    s: SimView<Q>,
    commands: Seq<Command>,
    ts: i64,
) -> Seq<(i64, EventKind)>
    decreases commands.len(),
{
    if commands.len() == 0 {
        Seq::empty()
    } else {
        command_events(s, commands.drop_last(), ts).push(
            command_event(
                s.commanded(commands.drop_last(), ts).next_order_id,
                commands.last(),
                ts,
            ),
        )
    }
}

proof fn lemma_commanded_on_line<Q: QueueModel>(
    s: SimView<Q>,
    line: Line,
    commands: Seq<Command>,
    ts: i64,
)
    ensures
        on_line(s, line).commanded(commands, ts) == on_line(
            s.commanded(commands, ts),
            line.push_all(command_events(s, commands, ts)),
        ),
    decreases commands.len(),
{
    if commands.len() > 0 {
        let front = commands.drop_last();
        lemma_commanded_on_line(s, line, front, ts);
        let new = command_events(s, commands, ts);
        assert(new.drop_last() =~= command_events(s, front, ts));
        let before = s.commanded(front, ts);
        let l = line.push_all(command_events(s, front, ts));
        assert(on_line(before, l).commanded_one(commands.last(), ts) =~= on_line(
            before.commanded_one(commands.last(), ts),
            l.push(new.last()),
        ));
    }
}

/// The events that a market order leads to: its report, and that of the cancelled rest.
pub open spec fn market_events<Q: QueueModel>(s: SimView<Q>, order: Order) -> Seq<
    (i64, EventKind),
> {
    let ex = s.exchange(order.symbol_id).submitted(order);
    let (after, report) = ex.market_filled(order.order_id, last_price(s.truth, order.symbol_id));
    let cancelled = ex.with_order(order.order_id, after).with_state(
        order.order_id,
        OrderState::Cancelled,
    );
    let first = (s.update_ts(), EventKind::OrderReport(report));
    if order.side is NoSide {
        Seq::empty()
    } else if report.status is PartiallyFilled {
        seq![
            first,
            (
                s.update_ts(),
                EventKind::OrderReport(
                    cancelled.orders[order.order_id].report(
                        0,
                        0,
                        Some("market order partial fill: remaining qty cancelled"),
                    ),
                ),
            ),
        ]
    } else {
        seq![first]
    }
}

/// The events that the handling of an event schedules, in this order.
pub open spec fn new_events<Q: QueueModel>(
    s: SimView<Q>,
    kind: EventKind,
    commands: Seq<Command>,
    delay: i64,
) -> Seq<(i64, EventKind)> {
    match kind {
        EventKind::Tick(tick) => report_events(
            clamp_i64(tick.ts_exchange + s.config.order_update_latency_ns),
            s.exchange(tick.symbol_id).after_trade(tick).1,
        ),
        EventKind::TickDelivery(tick) => if s.config.mode is Tick {
            command_events(s.delivered(tick), commands, tick.ts_local)
        } else if s.timer is None && s.config.max_batch_ns > 0 {
            seq![
                (
                    clamp_i64(tick.ts_local + s.config.max_batch_ns),
                    EventKind::Timer { timer_id: s.next_timer_id },
                ),
            ]
        } else {
            Seq::empty()
        },
        EventKind::Order(order) => if order.order_type is Market {
            market_events(s, order)
        } else {
            seq![(s.answer_ts(delay), EventKind::OrderAck { order_id: order.order_id })]
        },
        EventKind::OrderAck { order_id } => {
            let ex = s.exchange(s.routes[order_id]);
            let open = ex.with_state(order_id, OrderState::Open);
            if s.routes.contains_key(order_id) && ex.orders.contains_key(order_id)
                && ex.orders[order_id].state is PendingNew {
                seq![
                    (
                        s.update_ts(),
                        EventKind::OrderReport(
                            OrderReport {
                                filled_qty: 0,
                                ..open.orders[order_id].report(0, 0, None)
                            },
                        ),
                    ),
                ]
            } else {
                Seq::empty()
            }
        },
        EventKind::OrderCancel { order_id } => if s.can_cancel(order_id) {
            seq![(s.answer_ts(delay), EventKind::OrderCancelAck { order_id })]
        } else {
            Seq::empty()
        },
        EventKind::OrderCancelAck { order_id } => {
            let ex = s.exchange(s.routes[order_id]);
            let done = ex.with_state(order_id, OrderState::Cancelled);
            if s.routes.contains_key(order_id) && ex.orders.contains_key(order_id)
                && ex.orders[order_id].state is PendingCancel {
                seq![
                    (
                        s.update_ts(),
                        EventKind::OrderReport(done.orders[order_id].report(0, 0, None)),
                    ),
                ]
            } else {
                Seq::empty()
            }
        },
        EventKind::OrderReport(report) => if s.config.mode is Tick {
            command_events(s.report_arrived(report), commands, s.now)
        } else {
            Seq::empty()
        },
        EventKind::Funding(event) => command_events(s.funded(event), commands, s.now),
        _ => Seq::empty(),
    }
}

proof fn lemma_one_on_line(line: Line, new: (i64, EventKind))
    ensures
        line.push_all(seq![new]) == line.push(new),
{
    assert(seq![new].drop_last() =~= Seq::empty());
    assert(line.push_all(Seq::empty()) == line);
}

proof fn lemma_market_on_line<Q: QueueModel>(s: SimView<Q>, line: Line, order: Order)
    ensures
        on_line(s, line).market_order(order) == on_line(
            s.market_order(order),
            line.push_all(market_events(s, order)),
        ),
{
    let new = market_events(s, order);
    if new.len() == 1 {
        lemma_one_on_line(line, new[0]);
        assert(new =~= seq![new[0]]);
    } else if new.len() == 2 {
        lemma_one_on_line(line, new[0]);
        assert(new.drop_last() =~= seq![new[0]]);
    }
    let t = on_line(s, line);
    assert(t.exchange(order.symbol_id) == s.exchange(order.symbol_id));
    assert(t.market_order(order) =~= on_line(s.market_order(order), line.push_all(new)));
}

proof fn lemma_tick_on_line<Q: QueueModel>(
    s: SimView<Q>,
    line: Line,
    kind: EventKind,
    commands: Seq<Command>,
    delay: i64,
)
    requires
        kind is Tick,
    ensures
        on_line(s, line).handled(kind, commands, delay) == on_line(
            s.handled(kind, commands, delay),
            line.push_all(new_events(s, kind, commands, delay)),
        ),
{
    let t = on_line(s, line);
    let new = new_events(s, kind, commands, delay);
    if new.len() == 1 {
        lemma_one_on_line(line, new[0]);
        assert(new =~= seq![new[0]]);
    }
    if let EventKind::Tick(tick) = kind {
        let (ex, reports) = s.exchange(tick.symbol_id).after_trade(tick);
        let fills = maker_fills(ex, reports, tick.ts_exchange, s.config.maker_fee_bps);
        let booked = SimView { truth: s.truth.insert(tick.symbol_id, tick), ..s }.with_exchange(
            tick.symbol_id,
            ex,
        ).booked(tick.ts_exchange, fills);
        assert(t.exchange(tick.symbol_id) == s.exchange(tick.symbol_id));
        lemma_notified_on_line(
            booked,
            line,
            clamp_i64(tick.ts_exchange + s.config.order_update_latency_ns),
            reports,
        );
    }
}

proof fn lemma_delivery_on_line<Q: QueueModel>(
    s: SimView<Q>,
    line: Line,
    kind: EventKind,
    commands: Seq<Command>,
    delay: i64,
)
    requires
        kind is TickDelivery,
    ensures
        on_line(s, line).handled(kind, commands, delay) == on_line(
            s.handled(kind, commands, delay),
            line.push_all(new_events(s, kind, commands, delay)),
        ),
{
    let t = on_line(s, line);
    let new = new_events(s, kind, commands, delay);
    if new.len() == 1 {
        lemma_one_on_line(line, new[0]);
        assert(new =~= seq![new[0]]);
    }
    if let EventKind::TickDelivery(tick) = kind {
        if s.config.mode is Tick {
            assert(t.delivered(tick) =~= on_line(s.delivered(tick), line));
            lemma_commanded_on_line(s.delivered(tick), line, commands, tick.ts_local);
        } else {
            assert(t.delivered(tick) =~= on_line(s.delivered(tick), line.push_all(new)));
        }
    }
}

proof fn lemma_order_on_line<Q: QueueModel>(
    s: SimView<Q>,
    line: Line,
    kind: EventKind,
    commands: Seq<Command>,
    delay: i64,
)
    requires
        kind is Order,
    ensures
        on_line(s, line).handled(kind, commands, delay) == on_line(
            s.handled(kind, commands, delay),
            line.push_all(new_events(s, kind, commands, delay)),
        ),
{
    let t = on_line(s, line);
    let new = new_events(s, kind, commands, delay);
    if new.len() == 1 {
        lemma_one_on_line(line, new[0]);
        assert(new =~= seq![new[0]]);
    }
    if let EventKind::Order(order) = kind {
        if order.order_type is Market {
            lemma_market_on_line(s, line, order);
        } else {
            assert(t.exchange(order.symbol_id) == s.exchange(order.symbol_id));
            assert(t.order_arrived(order, delay) =~= on_line(
                s.order_arrived(order, delay),
                line.push_all(new),
            ));
        }
    }
}

proof fn lemma_ack_on_line<Q: QueueModel>(
    s: SimView<Q>,
    line: Line,
    kind: EventKind,
    commands: Seq<Command>,
    delay: i64,
)
    requires
        kind is OrderAck,
    ensures
        on_line(s, line).handled(kind, commands, delay) == on_line(
            s.handled(kind, commands, delay),
            line.push_all(new_events(s, kind, commands, delay)),
        ),
{
    let t = on_line(s, line);
    let new = new_events(s, kind, commands, delay);
    if new.len() == 1 {
        lemma_one_on_line(line, new[0]);
        assert(new =~= seq![new[0]]);
    }
    if let EventKind::OrderAck { order_id } = kind {
        if s.routes.contains_key(order_id) {
            assert(t.exchange(s.routes[order_id]) == s.exchange(s.routes[order_id]));
        }
        assert(t.order_acked(order_id) =~= on_line(s.order_acked(order_id), line.push_all(new)));
    }
}

proof fn lemma_cancel_on_line<Q: QueueModel>(
    s: SimView<Q>,
    line: Line,
    kind: EventKind,
    commands: Seq<Command>,
    delay: i64,
)
    requires
        kind is OrderCancel,
    ensures
        on_line(s, line).handled(kind, commands, delay) == on_line(
            s.handled(kind, commands, delay),
            line.push_all(new_events(s, kind, commands, delay)),
        ),
{
    let t = on_line(s, line);
    let new = new_events(s, kind, commands, delay);
    if new.len() == 1 {
        lemma_one_on_line(line, new[0]);
        assert(new =~= seq![new[0]]);
    }
    if let EventKind::OrderCancel { order_id } = kind {
        if s.routes.contains_key(order_id) {
            assert(t.exchange(s.routes[order_id]) == s.exchange(s.routes[order_id]));
        }
        assert(t.cancel_arrived(order_id, delay) =~= on_line(s.cancel_arrived(order_id, delay), line.push_all(new)));
    }
}

proof fn lemma_cancel_ack_on_line<Q: QueueModel>(
    s: SimView<Q>,
    line: Line,
    kind: EventKind,
    commands: Seq<Command>,
    delay: i64,
)
    requires
        kind is OrderCancelAck,
    ensures
        on_line(s, line).handled(kind, commands, delay) == on_line(
            s.handled(kind, commands, delay),
            line.push_all(new_events(s, kind, commands, delay)),
        ),
{
    let t = on_line(s, line);
    let new = new_events(s, kind, commands, delay);
    if new.len() == 1 {
        lemma_one_on_line(line, new[0]);
        assert(new =~= seq![new[0]]);
    }
    if let EventKind::OrderCancelAck { order_id } = kind {
        if s.routes.contains_key(order_id) {
            assert(t.exchange(s.routes[order_id]) == s.exchange(s.routes[order_id]));
        }
        assert(t.cancel_acked(order_id) =~= on_line(s.cancel_acked(order_id), line.push_all(new)));
    }
}

proof fn lemma_report_on_line<Q: QueueModel>(
    s: SimView<Q>,
    line: Line,
    kind: EventKind,
    commands: Seq<Command>,
    delay: i64,
)
    requires
        kind is OrderReport,
    ensures
        on_line(s, line).handled(kind, commands, delay) == on_line(
            s.handled(kind, commands, delay),
            line.push_all(new_events(s, kind, commands, delay)),
        ),
{
    let t = on_line(s, line);
    let new = new_events(s, kind, commands, delay);
    if new.len() == 1 {
        lemma_one_on_line(line, new[0]);
        assert(new =~= seq![new[0]]);
    }
    if let EventKind::OrderReport(report) = kind {
        let id = report.order_id;
        if s.routes.contains_key(id) {
            assert(t.exchange(s.routes[id]) == s.exchange(s.routes[id]));
        }
        assert(t.report_arrived(report) =~= on_line(s.report_arrived(report), line));
        if s.config.mode is Tick {
            lemma_commanded_on_line(s.report_arrived(report), line, commands, s.now);
        }
    }
}

proof fn lemma_funding_on_line<Q: QueueModel>(
    s: SimView<Q>,
    line: Line,
    kind: EventKind,
    commands: Seq<Command>,
    delay: i64,
)
    requires
        kind is Funding,
    ensures
        on_line(s, line).handled(kind, commands, delay) == on_line(
            s.handled(kind, commands, delay),
            line.push_all(new_events(s, kind, commands, delay)),
        ),
{
    let t = on_line(s, line);
    let new = new_events(s, kind, commands, delay);
    if new.len() == 1 {
        lemma_one_on_line(line, new[0]);
        assert(new =~= seq![new[0]]);
    }
    if let EventKind::Funding(event) = kind {
        assert(t.funded(event) =~= on_line(s.funded(event), line));
        lemma_commanded_on_line(s.funded(event), line, commands, s.now);
    }
}

proof fn lemma_depth_on_line<Q: QueueModel>(
    s: SimView<Q>,
    line: Line,
    kind: EventKind,
    commands: Seq<Command>,
    delay: i64,
)
    requires
        kind is L2Update || kind is L3Update || kind is Timer,
    ensures
        on_line(s, line).handled(kind, commands, delay) == on_line(
            s.handled(kind, commands, delay),
            line.push_all(new_events(s, kind, commands, delay)),
        ),
{
    let t = on_line(s, line);
    let new = new_events(s, kind, commands, delay);
    if new.len() == 1 {
        lemma_one_on_line(line, new[0]);
        assert(new =~= seq![new[0]]);
    }
    if let EventKind::L2Update(update) = kind {
        assert(t.exchange(update.symbol_id) == s.exchange(update.symbol_id));
    }
    assert(t.handled(kind, commands, delay) =~= on_line(
        s.handled(kind, commands, delay),
        line.push_all(new),
    ));
}

/// What the handling of an event does and schedules does not depend on what else is
/// queued.
pub proof fn lemma_handled_on_line<Q: QueueModel>(
    s: SimView<Q>,
    line: Line,
    kind: EventKind,
    commands: Seq<Command>,
    delay: i64,
)
    ensures
        on_line(s, line).handled(kind, commands, delay) == on_line(
            s.handled(kind, commands, delay),
            line.push_all(new_events(s, kind, commands, delay)),
        ),
{
    match kind {
        EventKind::Tick(_) => lemma_tick_on_line(s, line, kind, commands, delay),
        EventKind::TickDelivery(_) => lemma_delivery_on_line(s, line, kind, commands, delay),
        EventKind::Order(_) => lemma_order_on_line(s, line, kind, commands, delay),
        EventKind::OrderAck { .. } => lemma_ack_on_line(s, line, kind, commands, delay),
        EventKind::OrderCancel { .. } => lemma_cancel_on_line(s, line, kind, commands, delay),
        EventKind::OrderCancelAck { .. } => lemma_cancel_ack_on_line(
            s,
            line,
            kind,
            commands,
            delay,
        ),
        EventKind::OrderReport(_) => lemma_report_on_line(s, line, kind, commands, delay),
        EventKind::Funding(_) => lemma_funding_on_line(s, line, kind, commands, delay),
        _ => lemma_depth_on_line(s, line, kind, commands, delay),
    }
}

/// Whether a queue comes from another by scheduling at most `n` events.
pub open spec fn grows_by(before: Line, after: Line, n: nat) -> bool {
    exists|new: Seq<(i64, EventKind)>| #[trigger]
        before.push_all(new) == after && new.len() <= n
}

/// Events keep different sequence numbers when one leaves.
pub proof fn lemma_without_numbered(line: Line, event: Event)
    requires
        line.is_numbered(),
    ensures
        line.without(event).is_numbered(),
{
    let rest = line.without(event);
    assert forall|e: Event| #[trigger] rest.queue.contains(e) implies e.id.seq < rest.next
        && line.queue.contains(e) by {
        assert(line.queue.count(e) >= rest.queue.count(e));
        assert(line.queue.contains(e));
    }
    assert forall|e: Event| #[trigger] rest.queue.count(e) <= 1 by {
        assert(line.queue.count(e) <= 1);
    }
    assert forall|a: Event, b: Event|
        #![trigger rest.queue.contains(a), rest.queue.contains(b)]
        rest.queue.contains(a) && rest.queue.contains(b) && a.id.seq == b.id.seq implies a
        == b by {
        assert(line.queue.contains(a) && line.queue.contains(b));
    }
}

/// How many events the handling of an event schedules at most.
pub open spec fn most_new_events<Q: QueueModel>(
    s: SimView<Q>,
    kind: EventKind,
    commands: Seq<Command>,
) -> nat {
    match kind {
        EventKind::Tick(tick) => s.exchange(tick.symbol_id).after_trade(tick).1.len(),
        _ => commands.len() + 2,
    }
}

proof fn lemma_command_events_len<Q: QueueModel>(s: SimView<Q>, commands: Seq<Command>, ts: i64)
    ensures
        command_events(s, commands, ts).len() == commands.len(),
    decreases commands.len(),
{
    if commands.len() > 0 {
        lemma_command_events_len(s, commands.drop_last(), ts);
    }
}

pub proof fn lemma_new_events_len<Q: QueueModel>(
    s: SimView<Q>,
    kind: EventKind,
    commands: Seq<Command>,
    delay: i64,
)
    ensures
        new_events(s, kind, commands, delay).len() <= most_new_events(s, kind, commands),
{
    match kind {
        EventKind::TickDelivery(tick) => {
            lemma_command_events_len(s.delivered(tick), commands, tick.ts_local);
        },
        EventKind::OrderReport(report) => {
            lemma_command_events_len(s.report_arrived(report), commands, s.now);
        },
        EventKind::Funding(event) => {
            lemma_command_events_len(s.funded(event), commands, s.now);
        },
        _ => {},
    }
}

pub proof fn lemma_flushed_grows<Q: QueueModel>(
    s: SimView<Q>,
    ts: i64,
    commands: Seq<Command>,
    duration: i64,
)
    ensures
        grows_by(line_of(s), line_of(s.flushed(ts, commands, duration)), commands.len()),
{
    let cleared = SimView { timer: None, ticks: Seq::empty(), reports: Seq::empty(), ..s };
    lemma_commanded_on_line(cleared, line_of(s), commands, ts);
    lemma_command_events_len(cleared, commands, ts);
    assert(on_line(cleared, line_of(s)) =~= cleared);
    let new = command_events(cleared, commands, ts);
    assert(line_of(cleared.commanded(commands, ts)) =~= line_of(s).push_all(new));
    assert(line_of(s).push_all(Seq::empty()) == line_of(s));
    assert(line_of(s.flushed(ts, commands, duration)) == line_of(s).push_all(new)
        || line_of(s.flushed(ts, commands, duration)) == line_of(s).push_all(Seq::empty()));
}

proof fn lemma_grows_on(a: Line, b: Line, c: Line, m: nat, n: nat)
    requires
        grows_by(a, b, m),
        grows_by(b, c, n),
    ensures
        grows_by(a, c, m + n),
{
    let x = choose|new: Seq<(i64, EventKind)>| #[trigger] a.push_all(new) == b && new.len() <= m;
    let y = choose|new: Seq<(i64, EventKind)>| #[trigger] b.push_all(new) == c && new.len() <= n;
    lemma_push_all_joins(a, x, y);
    assert(a.push_all(x + y) == c);
}

/// Whether the sequence numbers last for a step.
pub open spec fn has_room<Q: QueueModel>(before: SimView<Q>, event: Event, x: Outcome) -> bool {
    before.next_event_seq + feed_events(before.config, x.items).len() + most_new_events(
        before.fed_all(x.items).arrived(event),
        event.kind,
        x.commands,
    ) + x.flush.len() <= u64::MAX
}

/// A step takes an event from the queue, and else only schedules.
pub proof fn lemma_step_grows<Q: QueueModel>(
    before: SimView<Q>,
    after: SimView<Q>,
    event: Event,
    x: Outcome,
)
    requires
        is_step(before, after, event, x),
    ensures
        grows_by(
            line_of(before).push_all(feed_events(before.config, x.items)).without(event),
            line_of(after),
            most_new_events(before.fed_all(x.items).arrived(event), event.kind, x.commands)
                + x.flush.len(),
        ),
{
    reveal(SimView::taken_up);
    let (kind, commands, delay) = (event.kind, x.commands, x.delay);
    let at = before.fed_all(x.items).arrived(event);
    lemma_fed_on_line(before, x.items);
    let line = line_of(at);
    assert(line =~= line_of(before).push_all(feed_events(before.config, x.items)).without(event));
    if at.is_unknown_cancel(kind) {
        assert(line.push_all(Seq::empty()) == line);
    } else {
        let handled = at.handled(kind, commands, delay);
        let new = new_events(at, kind, commands, delay);
        lemma_handled_on_line(at, line, kind, commands, delay);
        lemma_new_events_len(at, kind, commands, delay);
        assert(on_line(at, line) =~= at);
        assert(line_of(handled) =~= line.push_all(new));
        lemma_flushed_grows(handled, handled.now, x.flush, x.duration);
        assert(line_of(handled).push_all(Seq::empty()) == line_of(handled));
        assert(line_of(after) == line_of(handled) || line_of(after) == line_of(
            handled.flushed(handled.now, x.flush, x.duration),
        ));
        assert(grows_by(line_of(handled), line_of(after), x.flush.len()));
        lemma_grows_on(
            line,
            line_of(handled),
            line_of(after),
            most_new_events(at, kind, commands),
            x.flush.len(),
        );
    }
}

/// All queued events of a time have larger sequence numbers than `event`, and so will all
/// that are scheduled from now on.
pub open spec fn comes_after(line: Line, event: Event) -> bool {
    &&& event.id.seq < line.next
    &&& forall|e: Event| #[trigger]
        line.queue.contains(e) && e.id.ts_sim == event.id.ts_sim ==> event.id.seq < e.id.seq
}

proof fn lemma_growing_comes_after(before: Line, after: Line, n: nat, event: Event)
    requires
        comes_after(before, event),
        grows_by(before, after, n),
        before.next + n <= u64::MAX,
    ensures
        comes_after(after, event),
{
    let new = choose|new: Seq<(i64, EventKind)>| #[trigger]
        before.push_all(new) == after && new.len() <= n;
    lemma_push_all_contains(before, new, event);
    assert forall|e: Event| #[trigger]
        after.queue.contains(e) && e.id.ts_sim == event.id.ts_sim implies event.id.seq
        < e.id.seq by {
        lemma_push_all_contains(before, new, e);
    }
}

/// After a step, all events of its time come later in the order of scheduling.
proof fn lemma_step_comes_after<Q: QueueModel>(
    before: SimView<Q>,
    after: SimView<Q>,
    event: Event,
    x: Outcome,
)
    requires
        is_step(before, after, event, x),
        has_room(before, event, x),
        line_of(before).is_numbered(),
    ensures
        comes_after(line_of(after), event),
{
    let feed = feed_events(before.config, x.items);
    let fed = line_of(before).push_all(feed);
    lemma_push_all_numbered(line_of(before), feed);
    lemma_fed_on_line(before, x.items);
    assert(fed.queue == before.fed_all(x.items).queue);
    let rest = fed.without(event);
    assert(fed.queue.contains(event));
    assert(comes_after(rest, event)) by {
        assert forall|e: Event| #[trigger]
            rest.queue.contains(e) && e.id.ts_sim == event.id.ts_sim implies event.id.seq
            < e.id.seq by {
            assert(fed.queue.contains(e));
            assert(event.id.precedes(e.id));
            assert(fed.queue.count(event) <= 1);
        }
    }
    lemma_step_grows(before, after, event, x);
    let n = most_new_events(before.fed_all(x.items).arrived(event), event.kind, x.commands)
        + x.flush.len();
    lemma_growing_comes_after(rest, line_of(after), n, event);
}

/// A further move keeps what is queued later in the order of scheduling.
proof fn lemma_move_keeps_after<Q: QueueModel, S: Strategy, L: LatencyModel>(
    before: Stage<Q, S, L>,
    after: Stage<Q, S, L>,
    event: Event,
)
    requires
        comes_after(line_of(before.sim), event),
        moves(before, after),
        lasts(before, after),
    ensures
        comes_after(line_of(after.sim), event),
{
    if exists|e: Event, x: Outcome| #[trigger] is_move(before, after, e, x) {
        let (e, x) = choose|e: Event, x: Outcome| #[trigger] is_move(before, after, e, x);
        let feed = feed_events(before.sim.config, x.items);
        assert(grows_by(line_of(before.sim), line_of(before.sim).push_all(feed), feed.len()));
        lemma_growing_comes_after(
            line_of(before.sim),
            line_of(before.sim).push_all(feed),
            feed.len(),
            event,
        );
        lemma_push_all_contains(line_of(before.sim), feed, e);
        let fed = line_of(before.sim).push_all(feed);
        assert(comes_after(fed.without(e), event)) by {
            assert forall|g: Event| #[trigger] fed.without(e).queue.contains(g) implies
                fed.queue.contains(g) by {}
        }
        lemma_step_grows(before.sim, after.sim, e, x);
        let n = most_new_events(before.at(x.items, e), e.kind, x.commands) + x.flush.len();
        lemma_growing_comes_after(fed.without(e), line_of(after.sim), n, event);
    } else {
        let x = choose|x: Outcome| #[trigger] is_last_move(before, after, x);
        lemma_flushed_grows(before.sim, before.sim.now, x.flush, x.duration);
        lemma_growing_comes_after(
            line_of(before.sim),
            line_of(after.sim),
            x.flush.len(),
            event,
        );
    }
}

/// Whether the sequence numbers last for a move.
pub open spec fn lasts<Q: QueueModel, S: Strategy, L: LatencyModel>(
    before: Stage<Q, S, L>,
    after: Stage<Q, S, L>,
) -> bool {
    &&& forall|event: Event, x: Outcome| #[trigger]
        is_move(before, after, event, x) ==> has_room(before.sim, event, x)
    &&& forall|x: Outcome| #[trigger]
        is_last_move(before, after, x) ==> before.sim.next_event_seq + x.flush.len() <= u64::MAX
}

proof fn lemma_trace_keeps_after<Q: QueueModel, S: Strategy, L: LatencyModel>(
    trace: Seq<Stage<Q, S, L>>,
    event: Event,
    i: int,
    j: int,
)
    requires
        is_trace(trace),
        0 <= i <= j < trace.len(),
        comes_after(line_of(trace[i].sim), event),
        forall|k: int| 0 <= k < trace.len() - 1 ==> lasts(#[trigger] trace[k], trace[k + 1]),
    ensures
        comes_after(line_of(trace[j].sim), event),
    decreases j - i,
{
    if i < j {
        assert(moves(trace[j - 1], trace[j - 1 + 1]));
        assert(lasts(trace[j - 1], trace[j - 1 + 1]));
        lemma_trace_keeps_after(trace, event, i, j - 1);
        lemma_move_keeps_after(trace[j - 1], trace[j], event);
    }
}

/// Events of the same time are processed in the order in which they were scheduled, over a
/// whole run, as long as there are sequence numbers: the later one has the larger number,
/// and numbers are given out in the order of scheduling.
pub proof fn law_equal_times_run_in_scheduling_order<Q: QueueModel, S: Strategy, L: LatencyModel>(
    trace: Seq<Stage<Q, S, L>>,
    i: int,
    j: int,
    first: Event,
    second: Event,
    x: Outcome,
    y: Outcome,
)
    requires
        is_trace(trace),
        0 <= i < j < trace.len() - 1,
        forall|k: int| 0 <= k < trace.len() - 1 ==> lasts(#[trigger] trace[k], trace[k + 1]),
        line_of(trace[i].sim).is_numbered(),
        is_move(trace[i], trace[i + 1], first, x),
        is_move(trace[j], trace[j + 1], second, y),
        first.id.ts_sim == second.id.ts_sim,
    ensures
        first.id.seq < second.id.seq,
{
    assert(lasts(trace[i], trace[i + 1]));
    assert(lasts(trace[j], trace[j + 1]));
    lemma_step_comes_after(trace[i].sim, trace[i + 1].sim, first, x);
    lemma_trace_keeps_after(trace, first, i + 1, j);
    let before = trace[j].sim;
    let feed = feed_events(before.config, y.items);
    lemma_fed_on_line(before, y.items);
    assert(grows_by(line_of(before), line_of(before).push_all(feed), feed.len()));
    lemma_growing_comes_after(
        line_of(before),
        line_of(before).push_all(feed),
        feed.len(),
        first,
    );
    assert(line_of(before).push_all(feed).queue.contains(second));
}

} // verus!
