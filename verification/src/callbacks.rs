//! What the strategy is told, when, and in which context.
use vstd::prelude::*;

use crate::event::EventKind;
use crate::latency_model::LatencyModel;
use crate::queue_model::QueueModel;
use crate::rng::SeededRng;
use crate::sim_view::{next_ts, Outcome, SimView};
use crate::strategy::{may_hear, Command, ContextView, Notice, Strategy};
use crate::types::{FundingEvent, OrderReport, Tick};

verus! {

/// What the strategy is told when an event is handled: in tick mode the tick that is
/// delivered, at its local time and with the market that it is part of, and order
/// updates; funding in any mode.
pub open spec fn event_call<Q: QueueModel>(s: SimView<Q>, kind: EventKind) -> Option<
    (Notice, ContextView),
> {
    match kind {
        EventKind::TickDelivery(tick) => if s.config.mode is Tick {
            Some(
                (
                    Notice::Tick(tick),
                    ContextView::fresh(tick.ts_local, s.market.insert(tick.symbol_id, tick)),
                ),
            )
        } else {
            None
        },
        EventKind::OrderReport(report) => if s.config.mode is Tick {
            Some((Notice::OrderUpdate(report), ContextView::fresh(s.now, s.market)))
        } else {
            None
        },
        EventKind::Funding(event) => Some(
            (Notice::Funding(event), ContextView::fresh(s.now, s.market)),
        ),
        _ => None,
    }
}

/// Whether the strategy, told of an event that is handled, may give these commands.
pub open spec fn hears_event<Q: QueueModel, S: Strategy>(
    trader: S,
    s: SimView<Q>,
    kind: EventKind,
    commands: Seq<Command>,
    then: S,
) -> bool {
    match event_call(s, kind) {
        None => then == trader && commands == Seq::<Command>::empty(),
        Some((notice, before)) => exists|after: ContextView| #[trigger]
            may_hear(trader, notice, before, after, true, then) && after.given == commands,
    }
}

/// Whether the strategy, told of an event that is handled, may fail and end as `then`. The
/// event has had its effect by then, and no command of the callback is taken.
pub open spec fn breaks_on_event<Q: QueueModel, S: Strategy>(
    trader: S,
    s: SimView<Q>,
    kind: EventKind,
    after: SimView<Q>,
    then: S,
) -> bool {
    &&& after == s.handled(kind, Seq::empty(), 0)
    &&& event_call(s, kind) matches Some((notice, before)) && exists|seen: ContextView| #[trigger]
        may_hear(trader, notice, before, seen, false, then)
}

/// The ticks that a flush brings.
pub open spec fn batch_of_ticks<Q: QueueModel>(s: SimView<Q>) -> Option<Notice> {
    if s.ticks.len() > 0 {
        Some(Notice::Ticks(s.ticks))
    } else {
        None
    }
}

/// The order updates that a flush brings.
pub open spec fn batch_of_reports<Q: QueueModel>(s: SimView<Q>) -> Option<Notice> {
    if s.reports.len() > 0 {
        Some(Notice::OrderUpdates(s.reports))
    } else {
        None
    }
}

/// Whether the strategy, told of something or not, may end as `then`.
pub open spec fn may_end_as<S: Strategy>(
    trader: S,
    notice: Option<Notice>,
    before: ContextView,
    after: ContextView,
    then: S,
) -> bool {
    match notice {
        None => then == trader && after == before,
        Some(notice) => may_hear(trader, notice, before, after, true, then),
    }
}

/// Whether the strategy may give these commands in a flush: it is told of the ticks that
/// wait, then of the order updates, in one context.
pub open spec fn hears_flush<Q: QueueModel, S: Strategy>(
    trader: S,
    s: SimView<Q>,
    ts: i64,
    commands: Seq<Command>,
    then: S,
) -> bool {
    exists|mid: S, between: ContextView, after: ContextView|
        #![trigger may_end_as(mid, batch_of_reports(s), between, after, then)]
        {
            &&& may_end_as(
                trader,
                batch_of_ticks(s),
                ContextView::fresh(ts, s.market),
                between,
                mid,
            )
            &&& may_end_as(mid, batch_of_reports(s), between, after, then)
            &&& after.given == commands
        }
}

/// Whether the strategy may fail in a flush and end as `then`: over the ticks, which then
/// still wait, or over the order updates, which do, where the ticks were taken. No command
/// of the flush is taken, and the timer is off.
pub open spec fn breaks_on_flush<Q: QueueModel, S: Strategy>(
    trader: S,
    s: SimView<Q>,
    ts: i64,
    after: SimView<Q>,
    then: S,
) -> bool {
    let fresh = ContextView::fresh(ts, s.market);
    ||| {
        &&& s.ticks.len() > 0
        &&& after == (SimView { timer: None, ..s })
        &&& exists|seen: ContextView| #[trigger]
            may_hear(trader, Notice::Ticks(s.ticks), fresh, seen, false, then)
    }
    ||| {
        &&& s.reports.len() > 0
        &&& after == (SimView { timer: None, ticks: Seq::empty(), ..s })
        &&& exists|mid: S, between: ContextView, seen: ContextView|
            may_end_as(trader, batch_of_ticks(s), fresh, between, mid) && #[trigger] may_hear(
                mid,
                Notice::OrderUpdates(s.reports),
                between,
                seen,
                false,
                then,
            )
    }
}

/// Whether the strategy is woken after an event.
pub open spec fn is_woken<Q: QueueModel>(s: SimView<Q>, wakeup: bool) -> bool {
    s.config.mode is Batch && (wakeup || s.pending_wakeup) && next_ts(s.queue) != Some(s.now)
}

/// Whether the strategy may give these commands in the wake-up after an event.
pub open spec fn hears_wakeup<Q: QueueModel, S: Strategy>(
    trader: S,
    s: SimView<Q>,
    wakeup: bool,
    commands: Seq<Command>,
    then: S,
) -> bool {
    if is_woken(s, wakeup) {
        hears_flush(trader, s, s.now, commands, then)
    } else {
        then == trader && commands == Seq::<Command>::empty()
    }
}

/// Whether the commands of `x` may come from the strategy while the event is taken up
/// that the clock moved to.
#[verifier::opaque]
pub open spec fn hears<Q: QueueModel, S: Strategy>(
    trader: S,
    s: SimView<Q>,
    kind: EventKind,
    x: Outcome,
    then: S,
) -> bool {
    if s.is_unknown_cancel(kind) {
        then == trader
    } else {
        exists|mid: S| #[trigger]
            hears_event(trader, s, kind, x.commands, mid) && hears_wakeup(
                mid,
                s.handled(kind, x.commands, x.delay),
                s.asks_wakeup(kind),
                x.flush,
                then,
            )
    }
}

/// Whether the strategy may fail while the event is taken up that the clock moved to, and
/// leave the simulation as `after`: in the callback of the event, or in the wake-up behind
/// it.
#[verifier::opaque]
pub open spec fn breaks<Q: QueueModel, S: Strategy>(
    trader: S,
    s: SimView<Q>,
    kind: EventKind,
    x: Outcome,
    after: SimView<Q>,
    then: S,
) -> bool {
    let handled = s.handled(kind, x.commands, x.delay);
    &&& !s.is_unknown_cancel(kind)
    &&& breaks_on_event(trader, s, kind, after, then) || exists|mid: S| #[trigger]
        hears_event(trader, s, kind, x.commands, mid) && is_woken(handled, s.asks_wakeup(kind))
            && breaks_on_flush(mid, handled, handled.now, after, then)
}

/// The two callbacks of an event make up what the strategy hears of it.
pub proof fn lemma_hears<Q: QueueModel, S: Strategy>(
    trader: S,
    s: SimView<Q>,
    kind: EventKind,
    x: Outcome,
    mid: S,
    then: S,
)
    requires
        !s.is_unknown_cancel(kind),
        hears_event(trader, s, kind, x.commands, mid),
        hears_wakeup(
            mid,
            s.handled(kind, x.commands, x.delay),
            s.asks_wakeup(kind),
            x.flush,
            then,
        ),
    ensures
        hears(trader, s, kind, x, then),
{
    reveal(hears);
}

/// A failure in the callback of an event is one while it is taken up.
pub proof fn lemma_breaks_on_event<Q: QueueModel, S: Strategy>(
    trader: S,
    s: SimView<Q>,
    kind: EventKind,
    x: Outcome,
    after: SimView<Q>,
    then: S,
)
    requires
        !s.is_unknown_cancel(kind),
        breaks_on_event(trader, s, kind, after, then),
    ensures
        breaks(trader, s, kind, x, after, then),
{
    reveal(breaks);
}

/// A failure in the wake-up behind an event is one while it is taken up.
pub proof fn lemma_breaks_on_wakeup<Q: QueueModel, S: Strategy>(
    trader: S,
    s: SimView<Q>,
    kind: EventKind,
    x: Outcome,
    mid: S,
    after: SimView<Q>,
    then: S,
)
    requires
        !s.is_unknown_cancel(kind),
        hears_event(trader, s, kind, x.commands, mid),
        is_woken(s.handled(kind, x.commands, x.delay), s.asks_wakeup(kind)),
        breaks_on_flush(
            mid,
            s.handled(kind, x.commands, x.delay),
            s.handled(kind, x.commands, x.delay).now,
            after,
            then,
        ),
    ensures
        breaks(trader, s, kind, x, after, then),
{
    reveal(breaks);
}

/// Whether the latency model decides how long the exchange takes to answer an event.
pub open spec fn takes_time<Q: QueueModel>(s: SimView<Q>, kind: EventKind) -> bool {
    match kind {
        EventKind::Order(order) => order.order_type is Limit,
        EventKind::OrderCancel { order_id } => s.can_cancel(order_id),
        _ => false,
    }
}

/// Whether a delay is one that the latency model may give to the event; where it has none
/// to give, the generator is left alone.
pub open spec fn may_take<Q: QueueModel, L: LatencyModel>(
    latency: L,
    s: SimView<Q>,
    kind: EventKind,
    before: SeededRng,
    delay: i64,
    after: SeededRng,
) -> bool {
    &&& after.seed() == before.seed()
    &&& if takes_time(s, kind) {
        latency.may_delay_order(s.now, before.state(), delay, after.state())
    } else {
        after == before
    }
}

/// No look-ahead: what the strategy is told of an event depends on the data that was
/// delivered to it, on its clock and on the event alone; the exchange, its last trades
/// and the events to come have no part in it.
pub proof fn law_callbacks_see_delivered_data_only<Q: QueueModel>(
    a: SimView<Q>,
    b: SimView<Q>,
    kind: EventKind,
)
    requires
        a.config.mode == b.config.mode,
        a.now == b.now,
        a.market == b.market,
    ensures
        event_call(a, kind) == event_call(b, kind),
{
}

/// The context of a callback shows the market as it stands once the event was handled:
/// a tick is visible in its own callback, and no later one.
pub proof fn law_callbacks_see_the_market_of_their_time<Q: QueueModel>(
    s: SimView<Q>,
    kind: EventKind,
)
    ensures
        event_call(s, kind) matches Some((notice, before)) ==> {
            &&& before.given == Seq::<Command>::empty()
            &&& kind matches EventKind::TickDelivery(tick) ==> before.market == s.delivered(
                tick,
            ).market && before.clock == tick.ts_local
            &&& !(kind is TickDelivery) ==> before.market == s.market && before.clock == s.now
        },
{
}

/// What the strategy is told of an event: in tick mode of a delivered tick, which is in its
/// view by then, at the local time of the tick, and of an order update now; in both modes of
/// funding now; and of nothing else.
pub proof fn law_strategy_is_told<Q: QueueModel>(
    s: SimView<Q>,
    tick: Tick,
    report: OrderReport,
    event: FundingEvent,
    kind: EventKind,
)
    ensures
        s.config.mode is Tick ==> event_call(s, EventKind::TickDelivery(tick)) == Some(
            (
                Notice::Tick(tick),
                ContextView {
                    clock: tick.ts_local,
                    market: s.market.insert(tick.symbol_id, tick),
                    given: Seq::empty(),
                },
            ),
        ),
        s.config.mode is Tick ==> event_call(s, EventKind::OrderReport(report)) == Some(
            (
                Notice::OrderUpdate(report),
                ContextView { clock: s.now, market: s.market, given: Seq::empty() },
            ),
        ),
        event_call(s, EventKind::Funding(event)) == Some(
            (
                Notice::Funding(event),
                ContextView { clock: s.now, market: s.market, given: Seq::empty() },
            ),
        ),
        s.config.mode is Batch && !(kind is Funding) ==> event_call(s, kind) is None,
        !(kind is TickDelivery || kind is OrderReport || kind is Funding) ==> event_call(
            s,
            kind,
        ) is None,
{
}

/// What the strategy is told in a flush: first all ticks that wait, then all order updates,
/// in the order in which they came, each once; and nothing of which there is none.
pub proof fn law_flush_tells_ticks_then_updates<Q: QueueModel, S: Strategy>(
    trader: S,
    s: SimView<Q>,
    ts: i64,
    commands: Seq<Command>,
    then: S,
)
    requires
        hears_flush(trader, s, ts, commands, then),
    ensures
        ({
            let fresh = ContextView { clock: ts, market: s.market, given: Seq::empty() };
            exists|mid: S, between: ContextView, after: ContextView|
                #![trigger may_end_as(mid, batch_of_reports(s), between, after, then)]
                {
                    &&& s.ticks.len() > 0 ==> may_hear(
                        trader,
                        Notice::Ticks(s.ticks),
                        fresh,
                        between,
                        true,
                        mid,
                    )
                    &&& s.ticks.len() == 0 ==> mid == trader && between == fresh
                    &&& s.reports.len() > 0 ==> may_hear(
                        mid,
                        Notice::OrderUpdates(s.reports),
                        between,
                        after,
                        true,
                        then,
                    )
                    &&& s.reports.len() == 0 ==> then == mid && after == between
                    &&& after.given == commands
                }
        }),
{
    let fresh = ContextView::fresh(ts, s.market);
    let (mid, between, after) = choose|mid: S, between: ContextView, after: ContextView|
        #![trigger may_end_as(mid, batch_of_reports(s), between, after, then)]
        {
            &&& may_end_as(trader, batch_of_ticks(s), fresh, between, mid)
            &&& may_end_as(mid, batch_of_reports(s), between, after, then)
            &&& after.given == commands
        };
    assert(may_end_as(mid, batch_of_reports(s), between, after, then));
}

/// Which events the latency model delays: a limit order, and a cancel of an order that is
/// open at its exchange. All others are answered without it.
pub proof fn law_latency_is_for_requests<Q: QueueModel>(s: SimView<Q>, kind: EventKind)
    ensures
        takes_time(s, kind) <==> {
            ||| kind matches EventKind::Order(order) && order.order_type is Limit
            ||| kind matches EventKind::OrderCancel { order_id } && s.routes.contains_key(order_id)
                && ({
                let orders = s.exchange(s.routes[order_id]).orders;
                orders.contains_key(order_id) && (orders[order_id].state is Open
                    || orders[order_id].state is PartiallyFilled)
            })
        },
{
}

} // verus!
