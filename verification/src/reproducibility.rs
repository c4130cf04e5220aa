//! The same inputs lead to the same run.
use rand::rngs::SmallRng;
use vstd::prelude::*;

use crate::backtest::ends_in;
use crate::callbacks::{
    batch_of_reports, batch_of_ticks, breaks, breaks_on_event, breaks_on_flush, event_call, hears,
    hears_event, hears_flush, hears_wakeup, is_woken, may_end_as, may_take, takes_time,
};
use crate::engine::{
    depth_clash_text, fails_to_feed, has_intake, is_break, is_due, is_endless, is_finished,
    is_intake, is_last_break, is_last_move, is_move, is_taken, is_trace, leads_to,
    lemma_commanded_keeps, lemma_handled_keeps, meets_wrong_depth, moves, stops_at, EngineError,
    Stage,
};
use crate::engine_laws::distinct_ids;
use crate::event::{Event, EventKind};
use crate::event_queue::{is_next, law_next_event_is_determined};
use crate::feeds::{
    lemma_known_states_agree, lemma_nothing_gives_nothing, takes_all, FeedItem, FeedsView, Place,
};
use crate::latency_model::{ConstantLatency, LatencyModel};
use crate::queue_model::QueueModel;
use crate::rng::SeededRng;
use crate::sim_view::{Outcome, SimView};
use crate::strategy::{may_hear, Command, ContextView, Notice, Strategy};

verus! {

/// Whether a strategy that is told this can answer it in one way only.
pub open spec fn is_decided<S: Strategy>(s: S, notice: Notice, before: ContextView) -> bool {
    forall|
        after: ContextView,
        ok: bool,
        then: S,
        other_after: ContextView,
        other_ok: bool,
        other_then: S,
    |
        #![trigger may_hear(s, notice, before, after, ok, then), may_hear(s, notice, before, other_after, other_ok, other_then)]
        may_hear(s, notice, before, after, ok, then) && may_hear(
            s,
            notice,
            before,
            other_after,
            other_ok,
            other_then,
        ) ==> after == other_after && ok == other_ok && then == other_then
}

/// Whether a strategy that is told of an event, if it is, can answer in one way only.
pub open spec fn decides_event<Q: QueueModel, S: Strategy>(
    trader: S,
    s: SimView<Q>,
    kind: EventKind,
) -> bool {
    event_call(s, kind) matches Some((notice, before)) ==> is_decided(trader, notice, before)
}

/// Whether a strategy can answer a flush in one way only: the ticks, then the order updates.
pub open spec fn decides_flush<Q: QueueModel, S: Strategy>(
    trader: S,
    s: SimView<Q>,
    ts: i64,
) -> bool {
    let fresh = ContextView::fresh(ts, s.market);
    &&& s.ticks.len() > 0 ==> is_decided(trader, Notice::Ticks(s.ticks), fresh)
    &&& s.reports.len() > 0 ==> forall|between: ContextView, mid: S| #[trigger]
        may_end_as(trader, batch_of_ticks(s), fresh, between, mid) ==> is_decided(
            mid,
            Notice::OrderUpdates(s.reports),
            between,
        )
}

/// Whether a strategy can answer in one way only what it is told while an event is taken
/// up: the event, and the wake-up behind it.
#[verifier::opaque]
pub open spec fn decides_on<Q: QueueModel, S: Strategy, L: LatencyModel>(
    trader: S,
    latency: L,
    rng: SeededRng,
    at: SimView<Q>,
    kind: EventKind,
) -> bool {
    !at.is_unknown_cancel(kind) ==> {
        &&& decides_event(trader, at, kind)
        &&& forall|commands: Seq<Command>, delay: i64, mid: S, drawn: SeededRng|
            #![trigger hears_event(trader, at, kind, commands, mid), may_take(latency, at, kind, rng, delay, drawn)]
            {
                let handled = at.handled(kind, commands, delay);
                hears_event(trader, at, kind, commands, mid) && may_take(
                    latency,
                    at,
                    kind,
                    rng,
                    delay,
                    drawn,
                ) && is_woken(handled, at.asks_wakeup(kind)) ==> decides_flush(
                    mid,
                    handled,
                    handled.now,
                )
            }
    }
}

/// Whether the strategy can answer in one way only what it is told in the next step, or in
/// the flush at the end where there is no step to take.
pub open spec fn decides<Q: QueueModel, S: Strategy, L: LatencyModel>(
    stage: Stage<Q, S, L>,
) -> bool {
    &&& forall|items: Seq<FeedItem>, event: Event|
        #![trigger stage.at(items, event)]
        has_intake(stage.sim, stage.feeds, items) && is_next(
            stage.sim.fed_all(items).queue,
            event,
        ) ==> decides_on(
            stage.trader,
            stage.latency,
            stage.rng,
            stage.at(items, event),
            event.kind,
        )
    &&& stage.sim.queue.len() == 0 && (!stage.feeds.lost ==> stage.feeds.is_exhausted())
        && stage.sim.config.mode is Batch ==> decides_flush(
        stage.trader,
        stage.sim,
        stage.sim.now,
    )
}

/// Whether what a strategy is told decides what it answers, and what becomes of it. Of
/// funding nothing is said.
pub open spec fn is_functional<S: Strategy>() -> bool {
    forall|s: S, notice: Notice, before: ContextView|
        !(notice is Funding) ==> #[trigger] is_decided(s, notice, before)
}

/// A strategy whose answers are decided by what it is told is one in every state of a run,
/// where it is not told of funding next, or can answer that in one way only.
pub proof fn law_functional_strategy_decides<Q: QueueModel, S: Strategy, L: LatencyModel>(
    stage: Stage<Q, S, L>,
)
    requires
        is_functional::<S>(),
        forall|items: Seq<FeedItem>, event: Event|
            #![trigger stage.at(items, event)]
            has_intake(stage.sim, stage.feeds, items) && is_next(
                stage.sim.fed_all(items).queue,
                event,
            ) && event.kind is Funding ==> decides_event(
                stage.trader,
                stage.at(items, event),
                event.kind,
            ),
    ensures
        decides(stage),
{
    reveal(decides_on);
    assert forall|items: Seq<FeedItem>, event: Event|
        #![trigger stage.at(items, event)]
        has_intake(stage.sim, stage.feeds, items) && is_next(
            stage.sim.fed_all(items).queue,
            event,
        ) implies decides_on(
        stage.trader,
        stage.latency,
        stage.rng,
        stage.at(items, event),
        event.kind,
    ) by {
        assert(decides_event(stage.trader, stage.at(items, event), event.kind));
    }
}

/// Whether the latency of an order depends on its time alone.
pub open spec fn is_certain<L: LatencyModel>(latency: L) -> bool {
    forall|ts: i64, r: SmallRng, a: i64, after: SmallRng, q: SmallRng, b: i64, other: SmallRng|
        #![trigger latency.may_delay_order(ts, r, a, after), latency.may_delay_order(ts, q, b, other)]
        latency.may_delay_order(ts, r, a, after) && latency.may_delay_order(ts, q, b, other)
            ==> a == b
}

/// Whether the time of an order and the state of the generator alone decide the latency, and
/// the state that the generator is left in.
pub open spec fn is_drawn<L: LatencyModel>(latency: L) -> bool {
    forall|ts: i64, r: SmallRng, a: i64, after: SmallRng, b: i64, other: SmallRng|
        #![trigger latency.may_delay_order(ts, r, a, after), latency.may_delay_order(ts, r, b, other)]
        latency.may_delay_order(ts, r, a, after) && latency.may_delay_order(ts, r, b, other)
            ==> a == b && after == other
}

/// A constant latency is certain.
pub proof fn law_constant_latency_is_certain(latency: ConstantLatency)
    ensures
        is_certain(latency),
        is_drawn(latency),
{
}

/// Whether a latency model gives the same latencies with either generator: it draws
/// nothing, or the generators are in the same state.
pub open spec fn are_in_step<L: LatencyModel>(
    latency: L,
    rng: SeededRng,
    other: SeededRng,
) -> bool {
    is_certain(latency) || (is_drawn(latency) && rng.state() == other.state())
}

/// Whether two states differ in their sources at most, and in generators that give the same
/// latencies.
pub open spec fn are_alike<Q: QueueModel, S: Strategy, L: LatencyModel>(
    a: Stage<Q, S, L>,
    b: Stage<Q, S, L>,
) -> bool {
    &&& a.sim == b.sim
    &&& a.trader == b.trader
    &&& a.latency == b.latency
    &&& are_in_step(a.latency, a.rng, b.rng)
}

/// Whether two states differ in generators at most, which give the same latencies.
pub open spec fn are_same<Q: QueueModel, S: Strategy, L: LatencyModel>(
    a: Stage<Q, S, L>,
    b: Stage<Q, S, L>,
) -> bool {
    are_alike(a, b) && a.feeds == b.feeds
}

/// Whether no two events share an identifier, once the market data that is due came in.
pub open spec fn has_distinct_ids<Q: QueueModel, S: Strategy, L: LatencyModel>(
    stage: Stage<Q, S, L>,
) -> bool {
    forall|items: Seq<FeedItem>| #[trigger]
        has_intake(stage.sim, stage.feeds, items) ==> distinct_ids(
            stage.sim.fed_all(items).queue,
        )
}

/// Whether it is known what the sources have still to give, and the batch size is not tuned
/// by the wall clock.
pub open spec fn is_closed<Q: QueueModel, S: Strategy, L: LatencyModel>(
    stage: Stage<Q, S, L>,
) -> bool {
    stage.feeds.is_known() && !stage.sim.config.auto_tune
}

/// Whether the next step is decided: no two events share an identifier, and the strategy
/// can answer in one way only.
pub open spec fn is_orderly<Q: QueueModel, S: Strategy, L: LatencyModel>(
    stage: Stage<Q, S, L>,
) -> bool {
    has_distinct_ids(stage) && decides(stage)
}

/// Whether every step of every run from a state is decided.
#[verifier::opaque]
pub open spec fn is_orderly_run<Q: QueueModel, S: Strategy, L: LatencyModel>(
    first: Stage<Q, S, L>,
) -> bool {
    forall|mid: Stage<Q, S, L>| #[trigger] leads_to(first, mid) ==> is_orderly(mid)
}

/// Where it is known what the sources have still to give, the market data that comes in
/// before the next event is determined.
pub proof fn law_intake_is_determined<Q: QueueModel>(
    s: SimView<Q>,
    feeds: FeedsView,
    a: Seq<FeedItem>,
    after_a: FeedsView,
    b: Seq<FeedItem>,
    after_b: FeedsView,
)
    requires
        feeds.is_known(),
        is_intake(s, feeds, a, after_a),
        is_intake(s, feeds, b, after_b),
    ensures
        a == b,
        after_a == after_b,
        after_a.is_known(),
{
    let states = choose|states: Seq<FeedsView>| #[trigger]
        takes_all(states, a) && states.first() == feeds && states.last() == after_a;
    let others = choose|states: Seq<FeedsView>| #[trigger]
        takes_all(states, b) && states.first() == feeds && states.last() == after_b;
    lemma_intake_is_no_shorter(s, states, a, others, b);
    lemma_intake_is_no_shorter(s, others, b, states, a);
    assert(a =~= b) by {
        assert forall|i: int| 0 <= i < a.len() implies a[i] == b[i] by {
            lemma_known_states_agree(states, a, others, b, i + 1);
        }
    }
    lemma_known_states_agree(states, a, others, b, a.len() as int);
}

proof fn lemma_intake_is_no_shorter<Q: QueueModel>(
    s: SimView<Q>,
    states: Seq<FeedsView>,
    items: Seq<FeedItem>,
    others: Seq<FeedsView>,
    other_items: Seq<FeedItem>,
)
    requires
        takes_all(states, items),
        takes_all(others, other_items),
        states.first() == others.first(),
        states.first().is_known(),
        is_intake(s, states.first(), items, states.last()),
        is_taken(s, states.first(), other_items, others.last()),
    ensures
        items.len() >= other_items.len(),
{
    let n = items.len() as int;
    if n < other_items.len() {
        assert forall|i: int| 0 <= i < n implies items[i] == other_items[i] by {
            lemma_known_states_agree(states, items, others, other_items, i + 1);
        }
        assert(other_items.take(n) =~= items);
        lemma_known_states_agree(states, items, others, other_items, n);
        assert(others[n].takes(other_items[n], others[n + 1]));
        let place = choose|place: Place| #[trigger]
            others[n].takes_at(place, others[n + 1]) && others[n].item(place) == other_items[n];
        assert(states.last().waits(place));
        assert(is_due(s.fed_all(other_items.take(n)), other_items[n]));
    }
}

/// What is heard of an event decides the answer.
pub proof fn lemma_event_answer<Q: QueueModel, S: Strategy>(
    trader: S,
    s: SimView<Q>,
    kind: EventKind,
    commands: Seq<Command>,
    then: S,
    other_commands: Seq<Command>,
    other_then: S,
)
    requires
        decides_event(trader, s, kind),
        hears_event(trader, s, kind, commands, then),
        hears_event(trader, s, kind, other_commands, other_then),
    ensures
        commands == other_commands,
        then == other_then,
{
    if let Some((notice, before)) = event_call(s, kind) {
        let after = choose|after: ContextView| #[trigger]
            may_hear(trader, notice, before, after, true, then) && after.given == commands;
        let other = choose|after: ContextView| #[trigger]
            may_hear(trader, notice, before, after, true, other_then) && after.given
                == other_commands;
        assert(may_hear(trader, notice, before, after, true, then));
        assert(may_hear(trader, notice, before, other, true, other_then));
    }
}

proof fn lemma_flush_answer<Q: QueueModel, S: Strategy>(
    trader: S,
    s: SimView<Q>,
    ts: i64,
    commands: Seq<Command>,
    then: S,
    other_commands: Seq<Command>,
    other_then: S,
)
    requires
        decides_flush(trader, s, ts),
        hears_flush(trader, s, ts, commands, then),
        hears_flush(trader, s, ts, other_commands, other_then),
    ensures
        commands == other_commands,
        then == other_then,
{
    let fresh = ContextView::fresh(ts, s.market);
    let (mid, between, after) = choose|mid: S, between: ContextView, after: ContextView|
        #![trigger may_end_as(mid, batch_of_reports(s), between, after, then)]
        {
            &&& may_end_as(trader, batch_of_ticks(s), fresh, between, mid)
            &&& may_end_as(mid, batch_of_reports(s), between, after, then)
            &&& after.given == commands
        };
    let (mid2, between2, after2) = choose|mid: S, between: ContextView, after: ContextView|
        #![trigger may_end_as(mid, batch_of_reports(s), between, after, other_then)]
        {
            &&& may_end_as(trader, batch_of_ticks(s), fresh, between, mid)
            &&& may_end_as(mid, batch_of_reports(s), between, after, other_then)
            &&& after.given == other_commands
        };
    assert(mid == mid2 && between == between2) by {
        if s.ticks.len() > 0 {
            assert(may_hear(trader, Notice::Ticks(s.ticks), fresh, between, true, mid));
            assert(may_hear(trader, Notice::Ticks(s.ticks), fresh, between2, true, mid2));
        }
    }
    if s.reports.len() > 0 {
        assert(may_hear(mid, Notice::OrderUpdates(s.reports), between, after, true, then));
        assert(may_hear(mid, Notice::OrderUpdates(s.reports), between, after2, true, other_then));
    }
}

/// The latency of an event is the same with generators in step, which stay so.
pub proof fn lemma_same_delay<Q: QueueModel, L: LatencyModel>(
    latency: L,
    at: SimView<Q>,
    kind: EventKind,
    commands: Seq<Command>,
    rng: SeededRng,
    delay: i64,
    drawn: SeededRng,
    other_rng: SeededRng,
    other_delay: i64,
    other_drawn: SeededRng,
)
    requires
        are_in_step(latency, rng, other_rng),
        may_take(latency, at, kind, rng, delay, drawn),
        may_take(latency, at, kind, other_rng, other_delay, other_drawn),
    ensures
        are_in_step(latency, drawn, other_drawn),
        at.handled(kind, commands, delay) == at.handled(kind, commands, other_delay),
{
    if takes_time(at, kind) {
        assert(latency.may_delay_order(at.now, rng.state(), delay, drawn.state()));
        assert(latency.may_delay_order(
            at.now,
            other_rng.state(),
            other_delay,
            other_drawn.state(),
        ));
    }
}

proof fn lemma_answers<Q: QueueModel, S: Strategy, L: LatencyModel>(
    trader: S,
    latency: L,
    at: SimView<Q>,
    kind: EventKind,
    rng: SeededRng,
    x: Outcome,
    then: S,
    drawn: SeededRng,
    other_rng: SeededRng,
    y: Outcome,
    other_then: S,
    other_drawn: SeededRng,
)
    requires
        decides_on(trader, latency, rng, at, kind),
        are_in_step(latency, rng, other_rng),
        !at.config.auto_tune,
        hears(trader, at, kind, x, then),
        hears(trader, at, kind, y, other_then),
        may_take(latency, at, kind, rng, x.delay, drawn),
        may_take(latency, at, kind, other_rng, y.delay, other_drawn),
    ensures
        then == other_then,
        at.taken_up(kind, x) == at.taken_up(kind, y),
        at.taken_up(kind, x).config == at.config,
        are_in_step(latency, drawn, other_drawn),
{
    reveal(hears);
    reveal(decides_on);
    reveal(SimView::taken_up);
    lemma_same_delay(
        latency,
        at,
        kind,
        x.commands,
        rng,
        x.delay,
        drawn,
        other_rng,
        y.delay,
        other_drawn,
    );
    if !at.is_unknown_cancel(kind) {
        let mid = choose|mid: S| #[trigger]
            hears_event(trader, at, kind, x.commands, mid) && hears_wakeup(
                mid,
                at.handled(kind, x.commands, x.delay),
                at.asks_wakeup(kind),
                x.flush,
                then,
            );
        let other = choose|mid: S| #[trigger]
            hears_event(trader, at, kind, y.commands, mid) && hears_wakeup(
                mid,
                at.handled(kind, y.commands, y.delay),
                at.asks_wakeup(kind),
                y.flush,
                other_then,
            );
        lemma_event_answer(trader, at, kind, x.commands, mid, y.commands, other);
        let handled = at.handled(kind, x.commands, x.delay);
        lemma_handled_keeps(at, kind, x.commands, x.delay);
        if is_woken(handled, at.asks_wakeup(kind)) {
            assert(decides_flush(mid, handled, handled.now));
            lemma_flush_answer(mid, handled, handled.now, x.flush, then, y.flush, other_then);
        }
        lemma_flushed(handled, handled.now, x.flush, x.duration, y.duration);
    }
}

/// Without tuning, the wall clock does not matter.
proof fn lemma_flushed<Q: QueueModel>(
    s: SimView<Q>,
    ts: i64,
    commands: Seq<Command>,
    duration: i64,
    other: i64,
)
    requires
        !s.config.auto_tune,
    ensures
        s.flushed(ts, commands, duration) == s.flushed(ts, commands, other),
        s.flushed(ts, commands, duration).config == s.config,
{
    let cleared = SimView { timer: None, ticks: Seq::empty(), reports: Seq::empty(), ..s };
    lemma_commanded_keeps(cleared, commands, ts);
}

/// Reproducible: a state has one successor, whatever generator in the same state the
/// latencies are drawn from.
pub proof fn law_move_is_reproducible<Q: QueueModel, S: Strategy, L: LatencyModel>(
    a: Stage<Q, S, L>,
    after_a: Stage<Q, S, L>,
    b: Stage<Q, S, L>,
    after_b: Stage<Q, S, L>,
)
    requires
        are_same(a, b),
        is_closed(a),
        is_orderly(a),
        moves(a, after_a),
        moves(b, after_b),
    ensures
        are_same(after_a, after_b),
        is_closed(after_a),
        after_a.latency == a.latency,
{
    if exists|event: Event, x: Outcome| #[trigger] is_move(a, after_a, event, x) {
        let (event, x) = choose|event: Event, x: Outcome| #[trigger]
            is_move(a, after_a, event, x);
        lemma_no_last_move(a, after_a, event, x);
        let (other, y) = choose|event: Event, x: Outcome| #[trigger]
            is_move(b, after_b, event, x);
        assert(is_move(b, after_b, other, y));
        law_intake_is_determined(
            a.sim,
            a.feeds,
            x.items,
            after_a.feeds,
            y.items,
            after_b.feeds,
        );
        assert(has_intake(a.sim, a.feeds, x.items));
        law_next_event_is_determined(a.sim.fed_all(x.items).queue, event, other);
        lemma_fed_config(a.sim, x.items);
        lemma_answers(
            a.trader,
            a.latency,
            a.at(x.items, event),
            event.kind,
            a.rng,
            x,
            after_a.trader,
            after_a.rng,
            b.rng,
            y,
            after_b.trader,
            after_b.rng,
        );
    } else {
        let x = choose|x: Outcome| #[trigger] is_last_move(a, after_a, x);
        assert(is_last_move(a, after_a, x));
        if exists|event: Event, y: Outcome| #[trigger] is_move(b, after_b, event, y) {
            let (event, y) = choose|event: Event, y: Outcome| #[trigger]
                is_move(b, after_b, event, y);
            lemma_no_last_move(b, after_b, event, y);
        }
        let y = choose|y: Outcome| #[trigger] is_last_move(b, after_b, y);
        assert(is_last_move(b, after_b, y));
        let s = a.sim;
        lemma_flush_answer(
            a.trader,
            s,
            s.now,
            x.flush,
            after_a.trader,
            y.flush,
            after_b.trader,
        );
        lemma_flushed(s, s.now, x.flush, x.duration, y.duration);
    }
}

pub proof fn lemma_fed_config<Q: QueueModel>(s: SimView<Q>, items: Seq<FeedItem>)
    ensures
        s.fed_all(items).config == s.config,
    decreases items.len(),
{
    if items.len() > 0 {
        lemma_fed_config(s, items.drop_last());
    }
}

/// Where there is an event to process, there is no flush at the end yet.
proof fn lemma_no_last_move<Q: QueueModel, S: Strategy, L: LatencyModel>(
    before: Stage<Q, S, L>,
    after: Stage<Q, S, L>,
    event: Event,
    x: Outcome,
)
    requires
        is_move(before, after, event, x),
        !before.feeds.lost,
    ensures
        !(before.sim.queue.len() == 0 && before.feeds.is_exhausted()),
{
    if before.sim.queue.len() == 0 && before.feeds.is_exhausted() {
        lemma_nothing_gives_nothing(before.feeds, x.items, after.feeds);
        assert(before.sim.queue.contains(event));
        vstd::multiset::axiom_count_le_len(before.sim.queue, event);
    }
}

/// Reproducible: two runs from one state go through the same states, with latencies drawn
/// from generators in the same state too.
pub proof fn law_run_is_reproducible<Q: QueueModel, S: Strategy, L: LatencyModel>(
    a: Seq<Stage<Q, S, L>>,
    b: Seq<Stage<Q, S, L>>,
    i: int,
)
    requires
        is_trace(a),
        is_trace(b),
        are_same(a.first(), b.first()),
        is_closed(a.first()),
        0 <= i < a.len(),
        i < b.len(),
        forall|k: int| 0 <= k < i ==> is_orderly(#[trigger] a[k]),
    ensures
        are_same(a[i], b[i]),
        is_closed(a[i]),
        a[i].latency == a.first().latency,
    decreases i,
{
    if i > 0 {
        law_run_is_reproducible(a, b, i - 1);
        assert(moves(a[i - 1], a[i]));
        assert(moves(b[i - 1], b[i]));
        assert(is_orderly(a[i - 1]));
        law_move_is_reproducible(a[i - 1], a[i], b[i - 1], b[i]);
    }
}

/// A strategy that gives commands in a flush does not fail in it.
proof fn lemma_flush_does_not_fail<Q: QueueModel, S: Strategy>(
    trader: S,
    s: SimView<Q>,
    ts: i64,
    commands: Seq<Command>,
    then: S,
    after: SimView<Q>,
    other: S,
)
    requires
        decides_flush(trader, s, ts),
        hears_flush(trader, s, ts, commands, then),
    ensures
        !breaks_on_flush(trader, s, ts, after, other),
{
    let fresh = ContextView::fresh(ts, s.market);
    let (mid, between, seen) = choose|mid: S, between: ContextView, seen: ContextView|
        #![trigger may_end_as(mid, batch_of_reports(s), between, seen, then)]
        {
            &&& may_end_as(trader, batch_of_ticks(s), fresh, between, mid)
            &&& may_end_as(mid, batch_of_reports(s), between, seen, then)
            &&& seen.given == commands
        };
    if s.ticks.len() > 0 {
        assert(may_hear(trader, Notice::Ticks(s.ticks), fresh, between, true, mid));
    }
    if s.reports.len() > 0 {
        assert(may_hear(mid, Notice::OrderUpdates(s.reports), between, seen, true, then));
        assert(is_decided(mid, Notice::OrderUpdates(s.reports), between));
    }
    if breaks_on_flush(trader, s, ts, after, other) {
        if s.ticks.len() > 0 && exists|a: ContextView| #[trigger]
            may_hear(trader, Notice::Ticks(s.ticks), fresh, a, false, other) {
            assert(false);
        } else {
            let (m, c, a) = choose|m: S, c: ContextView, a: ContextView|
                may_end_as(trader, batch_of_ticks(s), fresh, c, m) && #[trigger] may_hear(
                    m,
                    Notice::OrderUpdates(s.reports),
                    c,
                    a,
                    false,
                    other,
                );
            lemma_same_ticks_answer(trader, s, ts, between, mid, c, m);
            assert(false);
        }
    }
}

/// The ticks of a flush are answered in one way.
proof fn lemma_same_ticks_answer<Q: QueueModel, S: Strategy>(
    trader: S,
    s: SimView<Q>,
    ts: i64,
    between: ContextView,
    mid: S,
    other_between: ContextView,
    other_mid: S,
)
    requires
        decides_flush(trader, s, ts),
        may_end_as(trader, batch_of_ticks(s), ContextView::fresh(ts, s.market), between, mid),
        may_end_as(
            trader,
            batch_of_ticks(s),
            ContextView::fresh(ts, s.market),
            other_between,
            other_mid,
        ),
    ensures
        between == other_between,
        mid == other_mid,
{
    let fresh = ContextView::fresh(ts, s.market);
    if s.ticks.len() > 0 {
        assert(may_hear(trader, Notice::Ticks(s.ticks), fresh, between, true, mid));
        assert(may_hear(trader, Notice::Ticks(s.ticks), fresh, other_between, true, other_mid));
    }
}

/// A strategy that fails in a flush fails in one way.
proof fn lemma_flush_fails_alike<Q: QueueModel, S: Strategy>(
    trader: S,
    s: SimView<Q>,
    ts: i64,
    after: SimView<Q>,
    then: S,
    other_after: SimView<Q>,
    other_then: S,
)
    requires
        decides_flush(trader, s, ts),
        breaks_on_flush(trader, s, ts, after, then),
        breaks_on_flush(trader, s, ts, other_after, other_then),
    ensures
        after == other_after,
        then == other_then,
{
    let fresh = ContextView::fresh(ts, s.market);
    if s.ticks.len() > 0 && exists|a: ContextView, t: S| #[trigger]
        may_hear(trader, Notice::Ticks(s.ticks), fresh, a, false, t) {
        let (a, t) = choose|a: ContextView, t: S| #[trigger]
            may_hear(trader, Notice::Ticks(s.ticks), fresh, a, false, t);
        assert(may_hear(trader, Notice::Ticks(s.ticks), fresh, a, false, t));
        assert forall|c: ContextView, m: S| !(#[trigger] may_end_as(
            trader,
            batch_of_ticks(s),
            fresh,
            c,
            m,
        )) by {
            if may_end_as(trader, batch_of_ticks(s), fresh, c, m) {
                assert(may_hear(trader, Notice::Ticks(s.ticks), fresh, c, true, m));
            }
        }
    } else {
        let (mid, between, seen) = choose|mid: S, between: ContextView, seen: ContextView|
            may_end_as(trader, batch_of_ticks(s), fresh, between, mid) && #[trigger] may_hear(
                mid,
                Notice::OrderUpdates(s.reports),
                between,
                seen,
                false,
                then,
            );
        let (m, c, a) = choose|m: S, c: ContextView, a: ContextView|
            may_end_as(trader, batch_of_ticks(s), fresh, c, m) && #[trigger] may_hear(
                m,
                Notice::OrderUpdates(s.reports),
                c,
                a,
                false,
                other_then,
            );
        lemma_same_ticks_answer(trader, s, ts, between, mid, c, m);
        assert(is_decided(mid, Notice::OrderUpdates(s.reports), between));
    }
}

/// A strategy that takes its commands does not fail while the event is taken up.
proof fn lemma_hearing_does_not_fail<Q: QueueModel, S: Strategy, L: LatencyModel>(
    trader: S,
    latency: L,
    at: SimView<Q>,
    kind: EventKind,
    rng: SeededRng,
    x: Outcome,
    then: S,
    drawn: SeededRng,
    other_rng: SeededRng,
    y: Outcome,
    after: SimView<Q>,
    other_then: S,
    other_drawn: SeededRng,
)
    requires
        decides_on(trader, latency, rng, at, kind) || decides_on(
            trader,
            latency,
            other_rng,
            at,
            kind,
        ),
        are_in_step(latency, rng, other_rng),
        hears(trader, at, kind, x, then),
        may_take(latency, at, kind, rng, x.delay, drawn),
        may_take(latency, at, kind, other_rng, y.delay, other_drawn),
    ensures
        !breaks(trader, at, kind, y, after, other_then),
{
    reveal(hears);
    reveal(breaks);
    reveal(decides_on);
    if breaks(trader, at, kind, y, after, other_then) {
        let mid = choose|mid: S| #[trigger]
            hears_event(trader, at, kind, x.commands, mid) && hears_wakeup(
                mid,
                at.handled(kind, x.commands, x.delay),
                at.asks_wakeup(kind),
                x.flush,
                then,
            );
        if breaks_on_event(trader, at, kind, after, other_then) {
            lemma_event_does_not_fail(trader, at, kind, x.commands, mid, after, other_then);
        } else {
            let other = choose|m: S| #[trigger]
                hears_event(trader, at, kind, y.commands, m) && is_woken(
                    at.handled(kind, y.commands, y.delay),
                    at.asks_wakeup(kind),
                ) && breaks_on_flush(
                    m,
                    at.handled(kind, y.commands, y.delay),
                    at.handled(kind, y.commands, y.delay).now,
                    after,
                    other_then,
                );
            lemma_event_answer(trader, at, kind, x.commands, mid, y.commands, other);
            lemma_same_delay(
                latency,
                at,
                kind,
                x.commands,
                rng,
                x.delay,
                drawn,
                other_rng,
                y.delay,
                other_drawn,
            );
            let handled = at.handled(kind, x.commands, x.delay);
            assert(decides_flush(mid, handled, handled.now));
            lemma_flush_does_not_fail(
                mid,
                handled,
                handled.now,
                x.flush,
                then,
                after,
                other_then,
            );
        }
    }
}

pub proof fn lemma_event_does_not_fail<Q: QueueModel, S: Strategy>(
    trader: S,
    at: SimView<Q>,
    kind: EventKind,
    commands: Seq<Command>,
    then: S,
    after: SimView<Q>,
    other: S,
)
    requires
        decides_event(trader, at, kind),
        hears_event(trader, at, kind, commands, then),
    ensures
        !breaks_on_event(trader, at, kind, after, other),
{
    if breaks_on_event(trader, at, kind, after, other) {
        let (notice, before) = event_call(at, kind).unwrap();
        let a = choose|a: ContextView| #[trigger]
            may_hear(trader, notice, before, a, false, other);
        let good = choose|a: ContextView| #[trigger]
            may_hear(trader, notice, before, a, true, then) && a.given == commands;
        assert(may_hear(trader, notice, before, a, false, other));
        assert(may_hear(trader, notice, before, good, true, then));
    }
}

/// A strategy that fails while an event is taken up fails in one way.
proof fn lemma_fails_alike<Q: QueueModel, S: Strategy, L: LatencyModel>(
    trader: S,
    latency: L,
    at: SimView<Q>,
    kind: EventKind,
    rng: SeededRng,
    x: Outcome,
    after: SimView<Q>,
    then: S,
    drawn: SeededRng,
    other_rng: SeededRng,
    y: Outcome,
    other_after: SimView<Q>,
    other_then: S,
    other_drawn: SeededRng,
)
    requires
        decides_on(trader, latency, rng, at, kind),
        are_in_step(latency, rng, other_rng),
        breaks(trader, at, kind, x, after, then),
        breaks(trader, at, kind, y, other_after, other_then),
        may_take(latency, at, kind, rng, x.delay, drawn),
        may_take(latency, at, kind, other_rng, y.delay, other_drawn),
    ensures
        after == other_after,
        then == other_then,
{
    reveal(breaks);
    reveal(decides_on);
    if breaks_on_event(trader, at, kind, after, then) {
        let (notice, before) = event_call(at, kind).unwrap();
        let a = choose|a: ContextView| #[trigger]
            may_hear(trader, notice, before, a, false, then);
        assert(may_hear(trader, notice, before, a, false, then));
        if breaks_on_event(trader, at, kind, other_after, other_then) {
            let b = choose|b: ContextView| #[trigger]
                may_hear(trader, notice, before, b, false, other_then);
            assert(may_hear(trader, notice, before, b, false, other_then));
        } else {
            let m = choose|m: S| #[trigger] hears_event(trader, at, kind, y.commands, m);
            lemma_event_does_not_fail(trader, at, kind, y.commands, m, after, then);
        }
    } else {
        let mid = choose|m: S| #[trigger]
            hears_event(trader, at, kind, x.commands, m) && is_woken(
                at.handled(kind, x.commands, x.delay),
                at.asks_wakeup(kind),
            ) && breaks_on_flush(
                m,
                at.handled(kind, x.commands, x.delay),
                at.handled(kind, x.commands, x.delay).now,
                after,
                then,
            );
        if breaks_on_event(trader, at, kind, other_after, other_then) {
            lemma_event_does_not_fail(
                trader,
                at,
                kind,
                x.commands,
                mid,
                other_after,
                other_then,
            );
        } else {
            let other = choose|m: S| #[trigger]
                hears_event(trader, at, kind, y.commands, m) && is_woken(
                    at.handled(kind, y.commands, y.delay),
                    at.asks_wakeup(kind),
                ) && breaks_on_flush(
                    m,
                    at.handled(kind, y.commands, y.delay),
                    at.handled(kind, y.commands, y.delay).now,
                    other_after,
                    other_then,
                );
            lemma_event_answer(trader, at, kind, x.commands, mid, y.commands, other);
            lemma_same_delay(
                latency,
                at,
                kind,
                x.commands,
                rng,
                x.delay,
                drawn,
                other_rng,
                y.delay,
                other_drawn,
            );
            let handled = at.handled(kind, x.commands, x.delay);
            assert(decides_flush(mid, handled, handled.now));
            lemma_flush_fails_alike(
                mid,
                handled,
                handled.now,
                after,
                then,
                other_after,
                other_then,
            );
        }
    }
}

/// What came in before the market data failed is no longer than what comes in.
proof fn lemma_known_data_comes_in<Q: QueueModel, E>(
    s: SimView<Q>,
    feeds: FeedsView,
    items: Seq<FeedItem>,
    left: FeedsView,
    after: SimView<Q>,
    error: EngineError<E>,
)
    requires
        feeds.is_known(),
        is_intake(s, feeds, items, left),
    ensures
        !fails_to_feed(s, feeds, after, error),
{
    if fails_to_feed(s, feeds, after, error) {
        let (others, rest) = choose|items: Seq<FeedItem>, left: FeedsView|
            {
                &&& #[trigger] is_taken(s, feeds, items, left)
                &&& after == s.fed_all(items)
                &&& match error {
                    EngineError::TickSource(_) => left.may_fail(),
                    EngineError::Internal(message) => message@ == "market data never ends"@
                        && items.len() == u64::MAX,
                    EngineError::Strategy(_) => false,
                }
            };
        lemma_known_stays(feeds, others, rest);
        let a = choose|states: Seq<FeedsView>| #[trigger]
            takes_all(states, items) && states.first() == feeds && states.last() == left;
        let b = choose|states: Seq<FeedsView>| #[trigger]
            takes_all(states, others) && states.first() == feeds && states.last() == rest;
        lemma_intake_is_no_shorter(s, a, items, b, others);
    }
}

/// Sources whose items are known do not fail.
pub proof fn lemma_known_stays(feeds: FeedsView, items: Seq<FeedItem>, left: FeedsView)
    requires
        feeds.is_known(),
        feeds.gives(items, left),
    ensures
        left.is_known(),
        !left.may_fail(),
{
    let states = choose|states: Seq<FeedsView>| #[trigger]
        takes_all(states, items) && states.first() == feeds && states.last() == left;
    lemma_known_states_agree(states, items, states, items, items.len() as int);
}

/// Where as many items come in as can be counted, they are determined.
proof fn lemma_endless_data_is_determined<Q: QueueModel>(
    s: SimView<Q>,
    feeds: FeedsView,
    items: Seq<FeedItem>,
    left: FeedsView,
    others: Seq<FeedItem>,
    rest: FeedsView,
)
    requires
        feeds.is_known(),
        is_taken(s, feeds, items, left),
        is_taken(s, feeds, others, rest),
        items.len() == others.len(),
    ensures
        items == others,
{
    let a = choose|states: Seq<FeedsView>| #[trigger]
        takes_all(states, items) && states.first() == feeds && states.last() == left;
    let b = choose|states: Seq<FeedsView>| #[trigger]
        takes_all(states, others) && states.first() == feeds && states.last() == rest;
    assert(items =~= others) by {
        assert forall|i: int| 0 <= i < items.len() implies items[i] == others[i] by {
            lemma_known_states_agree(a, items, b, others, i + 1);
        }
    }
}

/// The market data that comes in and the next event are the same, whatever becomes of them.
proof fn lemma_same_event<Q: QueueModel, S: Strategy, L: LatencyModel>(
    stage: Stage<Q, S, L>,
    items: Seq<FeedItem>,
    left: FeedsView,
    event: Event,
    others: Seq<FeedItem>,
    rest: FeedsView,
    other: Event,
)
    requires
        is_closed(stage),
        has_distinct_ids(stage),
        is_intake(stage.sim, stage.feeds, items, left),
        is_next(stage.sim.fed_all(items).queue, event),
        is_intake(stage.sim, stage.feeds, others, rest),
        is_next(stage.sim.fed_all(others).queue, other),
    ensures
        others == items,
        other == event,
        left == rest,
        has_intake(stage.sim, stage.feeds, items),
{
    law_intake_is_determined(stage.sim, stage.feeds, items, left, others, rest);
    assert(has_intake(stage.sim, stage.feeds, items));
    law_next_event_is_determined(stage.sim.fed_all(items).queue, event, other);
}

/// Where nothing is queued and nothing waits, there is no event to fail on.
proof fn lemma_nothing_to_process<Q: QueueModel, S: Strategy, L: LatencyModel>(
    stage: Stage<Q, S, L>,
    items: Seq<FeedItem>,
    left: FeedsView,
    event: Event,
)
    requires
        stage.sim.queue.len() == 0,
        stage.feeds.is_exhausted(),
        is_intake(stage.sim, stage.feeds, items, left),
    ensures
        !is_next(stage.sim.fed_all(items).queue, event),
{
    lemma_nothing_gives_nothing(stage.feeds, items, left);
    if is_next(stage.sim.queue, event) {
        assert(stage.sim.queue.contains(event));
        vstd::multiset::axiom_count_le_len(stage.sim.queue, event);
    }
}

/// Where nothing is queued and nothing waits, only the flush at the end can fail.
pub proof fn lemma_only_flush_fails<Q: QueueModel, S: Strategy, L: LatencyModel>(
    stage: Stage<Q, S, L>,
    after: Stage<Q, S, L>,
    error: EngineError<S::Error>,
)
    requires
        stage.feeds.is_known(),
        stage.sim.queue.len() == 0,
        stage.feeds.is_exhausted(),
        stops_at(stage, after, error),
    ensures
        error is Strategy,
        is_last_break(stage, after),
{
    if fails_to_feed(stage.sim, stage.feeds, after.sim, error) {
        let (items, left) = choose|items: Seq<FeedItem>, left: FeedsView|
            {
                &&& #[trigger] is_taken(stage.sim, stage.feeds, items, left)
                &&& match error {
                    EngineError::TickSource(_) => left.may_fail(),
                    EngineError::Internal(message) => items.len() == u64::MAX,
                    EngineError::Strategy(_) => false,
                }
            };
        lemma_known_stays(stage.feeds, items, left);
        lemma_nothing_gives_nothing(stage.feeds, items, left);
    }
    assert forall|event: Event, x: Outcome| !(#[trigger] is_break(stage, after, event, x)) by {
        if is_break(stage, after, event, x) {
            lemma_nothing_to_process(stage, x.items, after.feeds, event);
        }
    }
    assert forall|items: Seq<FeedItem>, event: Event| !(#[trigger] meets_wrong_depth(
        stage,
        items,
        event,
        after.feeds,
    )) by {
        if meets_wrong_depth(stage, items, event, after.feeds) {
            lemma_nothing_to_process(stage, items, after.feeds, event);
        }
    }
}

/// A step that can be taken does not fail.
proof fn lemma_move_does_not_fail<Q: QueueModel, S: Strategy, L: LatencyModel>(
    a: Stage<Q, S, L>,
    after_a: Stage<Q, S, L>,
    b: Stage<Q, S, L>,
    after_b: Stage<Q, S, L>,
    error: EngineError<S::Error>,
)
    requires
        are_same(a, b),
        is_closed(a),
        is_orderly(a) || is_orderly(b),
        moves(a, after_a),
    ensures
        !stops_at(b, after_b, error),
{
    assert(has_distinct_ids(a) && has_distinct_ids(b));
    if stops_at(b, after_b, error) {
        if exists|event: Event, x: Outcome| #[trigger] is_move(a, after_a, event, x) {
            let (event, x) = choose|event: Event, x: Outcome| #[trigger]
                is_move(a, after_a, event, x);
            lemma_no_last_move(a, after_a, event, x);
            lemma_known_data_comes_in(a.sim, a.feeds, x.items, after_a.feeds, after_b.sim, error);
            if exists|e: Event, y: Outcome| #[trigger] is_break(b, after_b, e, y) {
                let (e, y) = choose|e: Event, y: Outcome| #[trigger] is_break(b, after_b, e, y);
                lemma_same_event(
                    a,
                    x.items,
                    after_a.feeds,
                    event,
                    y.items,
                    after_b.feeds,
                    e,
                );
                assert(a.at(x.items, event) == b.at(y.items, e));
                lemma_hearing_does_not_fail(
                    a.trader,
                    a.latency,
                    a.at(x.items, event),
                    event.kind,
                    a.rng,
                    x,
                    after_a.trader,
                    after_a.rng,
                    b.rng,
                    y,
                    after_b.sim,
                    after_b.trader,
                    after_b.rng,
                );
            } else {
                let (items, e) = choose|items: Seq<FeedItem>, e: Event| #[trigger]
                    meets_wrong_depth(b, items, e, after_b.feeds);
                lemma_same_event(
                    a,
                    x.items,
                    after_a.feeds,
                    event,
                    items,
                    after_b.feeds,
                    e,
                );
            }
        } else {
            let x = choose|x: Outcome| #[trigger] is_last_move(a, after_a, x);
            assert(is_last_move(a, after_a, x));
            lemma_only_flush_fails(b, after_b, error);
            let s = a.sim;
            lemma_flush_does_not_fail(
                a.trader,
                s,
                s.now,
                x.flush,
                after_a.trader,
                after_b.sim,
                after_b.trader,
            );
        }
    }
}

/// Whether two errors are of one kind and, where the engine itself gives them, say the same.
pub open spec fn is_same_error<E>(a: EngineError<E>, b: EngineError<E>) -> bool {
    match (a, b) {
        (EngineError::TickSource(_), EngineError::TickSource(_)) => true,
        (EngineError::Strategy(_), EngineError::Strategy(_)) => true,
        (EngineError::Internal(x), EngineError::Internal(y)) => x@ == y@,
        _ => false,
    }
}

/// Reproducible: a step that fails does so in one way.
pub proof fn law_failure_is_reproducible<Q: QueueModel, S: Strategy, L: LatencyModel>(
    a: Stage<Q, S, L>,
    after_a: Stage<Q, S, L>,
    error_a: EngineError<S::Error>,
    b: Stage<Q, S, L>,
    after_b: Stage<Q, S, L>,
    error_b: EngineError<S::Error>,
)
    requires
        are_same(a, b),
        is_closed(a),
        is_orderly(a),
        stops_at(a, after_a, error_a),
        stops_at(b, after_b, error_b),
    ensures
        after_a.sim == after_b.sim,
        after_a.trader == after_b.trader,
        is_same_error(error_a, error_b),
{
    assert(has_distinct_ids(b));
    if a.sim.queue.len() == 0 && a.feeds.is_exhausted() {
        lemma_only_flush_fails(a, after_a, error_a);
        lemma_only_flush_fails(b, after_b, error_b);
        lemma_flush_fails_alike(
            a.trader,
            a.sim,
            a.sim.now,
            after_a.sim,
            after_a.trader,
            after_b.sim,
            after_b.trader,
        );
    } else if fails_to_feed(a.sim, a.feeds, after_a.sim, error_a) {
        lemma_fault_is_reproducible(a, after_a, error_a, b, after_b, error_b);
    } else if fails_to_feed(b.sim, b.feeds, after_b.sim, error_b) {
        lemma_fault_is_reproducible(b, after_b, error_b, a, after_a, error_a);
    } else if error_a is Strategy {
        let (e, x) = choose|e: Event, x: Outcome| #[trigger] is_break(a, after_a, e, x);
        if error_b is Strategy {
            let (f, y) = choose|f: Event, y: Outcome| #[trigger] is_break(b, after_b, f, y);
            lemma_same_event(a, x.items, after_a.feeds, e, y.items, after_b.feeds, f);
            assert(a.at(x.items, e) == b.at(y.items, f));
            lemma_fails_alike(
                a.trader,
                a.latency,
                a.at(x.items, e),
                e.kind,
                a.rng,
                x,
                after_a.sim,
                after_a.trader,
                after_a.rng,
                b.rng,
                y,
                after_b.sim,
                after_b.trader,
                after_b.rng,
            );
        } else {
            let (items, f) = choose|items: Seq<FeedItem>, f: Event| #[trigger]
                meets_wrong_depth(b, items, f, after_b.feeds);
            lemma_same_event(a, x.items, after_a.feeds, e, items, after_b.feeds, f);
        }
    } else {
        let text = error_a->Internal_0@;
        let (items, e) = choose|items: Seq<FeedItem>, e: Event|
            {
                &&& #[trigger] meets_wrong_depth(a, items, e, after_a.feeds)
                &&& text == depth_clash_text(e.kind)
                &&& after_a == (Stage { sim: a.at(items, e), feeds: after_a.feeds, ..a })
            };
        if error_b is Strategy {
            let (f, y) = choose|f: Event, y: Outcome| #[trigger] is_break(b, after_b, f, y);
            lemma_same_event(a, items, after_a.feeds, e, y.items, after_b.feeds, f);
        } else {
            let other = error_b->Internal_0@;
            let (others, f) = choose|items: Seq<FeedItem>, f: Event|
                {
                    &&& #[trigger] meets_wrong_depth(b, items, f, after_b.feeds)
                    &&& other == depth_clash_text(f.kind)
                    &&& after_b == (Stage { sim: b.at(items, f), feeds: after_b.feeds, ..b })
                };
            lemma_same_event(a, items, after_a.feeds, e, others, after_b.feeds, f);
        }
    }
}

/// Market data that fails to come in does so in one way.
proof fn lemma_fault_is_reproducible<Q: QueueModel, S: Strategy, L: LatencyModel>(
    a: Stage<Q, S, L>,
    after_a: Stage<Q, S, L>,
    error_a: EngineError<S::Error>,
    b: Stage<Q, S, L>,
    after_b: Stage<Q, S, L>,
    error_b: EngineError<S::Error>,
)
    requires
        are_same(a, b),
        is_closed(a),
        !(a.sim.queue.len() == 0 && a.feeds.is_exhausted()),
        fails_to_feed(a.sim, a.feeds, after_a.sim, error_a),
        stops_at(a, after_a, error_a),
        stops_at(b, after_b, error_b),
    ensures
        after_a.sim == after_b.sim,
        after_a.trader == after_b.trader,
        is_same_error(error_a, error_b),
{
    assert forall|items: Seq<FeedItem>, left: FeedsView| !(#[trigger] is_intake(
        a.sim,
        a.feeds,
        items,
        left,
    )) by {
        if is_intake(a.sim, a.feeds, items, left) {
            lemma_known_data_comes_in(a.sim, a.feeds, items, left, after_a.sim, error_a);
        }
    }
    let (items, left) = choose|items: Seq<FeedItem>, left: FeedsView|
        {
            &&& #[trigger] is_taken(a.sim, a.feeds, items, left)
            &&& after_a.sim == a.sim.fed_all(items)
            &&& match error_a {
                EngineError::TickSource(_) => left.may_fail(),
                EngineError::Internal(message) => message@ == "market data never ends"@
                    && items.len() == u64::MAX,
                EngineError::Strategy(_) => false,
            }
        };
    lemma_known_stays(a.feeds, items, left);
    assert(fails_to_feed(b.sim, b.feeds, after_b.sim, error_b)) by {
        if exists|f: Event, y: Outcome| #[trigger] is_break(b, after_b, f, y) {
            let (f, y) = choose|f: Event, y: Outcome| #[trigger] is_break(b, after_b, f, y);
            assert(is_intake(a.sim, a.feeds, y.items, after_b.feeds));
        }
        if exists|items: Seq<FeedItem>, f: Event| #[trigger]
            meets_wrong_depth(b, items, f, after_b.feeds) {
            let (others, f) = choose|items: Seq<FeedItem>, f: Event| #[trigger]
                meets_wrong_depth(b, items, f, after_b.feeds);
            assert(is_intake(a.sim, a.feeds, others, after_b.feeds));
        }
    }
    let (others, rest) = choose|items: Seq<FeedItem>, left: FeedsView|
        {
            &&& #[trigger] is_taken(b.sim, b.feeds, items, left)
            &&& after_b.sim == b.sim.fed_all(items)
            &&& match error_b {
                EngineError::TickSource(_) => left.may_fail(),
                EngineError::Internal(message) => message@ == "market data never ends"@
                    && items.len() == u64::MAX,
                EngineError::Strategy(_) => false,
            }
        };
    lemma_known_stays(b.feeds, others, rest);
    lemma_endless_data_is_determined(a.sim, a.feeds, items, left, others, rest);
}

/// Whether a run that goes through these states may end so.
pub open spec fn ends_at<Q: QueueModel, S: Strategy, L: LatencyModel>(
    trace: Seq<Stage<Q, S, L>>,
    end: Stage<Q, S, L>,
    outcome: Result<(), EngineError<S::Error>>,
) -> bool {
    &&& is_trace(trace)
    &&& if trace.len() <= u64::MAX {
        match outcome {
            Ok(()) => {
                &&& end == trace.last()
                &&& is_finished(end.sim)
                &&& !end.feeds.lost ==> end.feeds.is_exhausted()
            },
            Err(e) => stops_at(trace.last(), end, e),
        }
    } else {
        &&& trace.len() == u64::MAX + 1
        &&& end == trace.last()
        &&& outcome matches Err(EngineError::Internal(message)) && message@
            == "simulation never ends"@
    }
}

/// A run that ends went through some states.
pub proof fn lemma_run_has_trace<Q: QueueModel, S: Strategy, L: LatencyModel>(
    first: Stage<Q, S, L>,
    end: Stage<Q, S, L>,
    outcome: Result<(), EngineError<S::Error>>,
) -> (trace: Seq<Stage<Q, S, L>>)
    requires
        ends_in(first, end, outcome),
    ensures
        ends_at(trace, end, outcome),
        trace.first() == first,
{
    if outcome is Ok {
        choose|trace: Seq<Stage<Q, S, L>>| #[trigger]
            is_trace(trace) && trace.len() <= u64::MAX && trace.first() == first && trace.last()
                == end
    } else {
        let error = outcome->Err_0;
        if exists|mid: Stage<Q, S, L>| #[trigger]
            leads_to(first, mid) && stops_at(mid, end, error) {
            let mid = choose|mid: Stage<Q, S, L>| #[trigger]
                leads_to(first, mid) && stops_at(mid, end, error);
            choose|trace: Seq<Stage<Q, S, L>>| #[trigger]
                is_trace(trace) && trace.len() <= u64::MAX && trace.first() == first
                    && trace.last() == mid
        } else {
            assert(is_endless(first, end));
            choose|trace: Seq<Stage<Q, S, L>>| #[trigger]
                is_trace(trace) && trace.len() == u64::MAX + 1 && trace.first() == first
                    && trace.last() == end
        }
    }
}

/// Where one run has ended, another does not go on.
proof fn lemma_no_longer<Q: QueueModel, S: Strategy, L: LatencyModel>(
    ended: Seq<Stage<Q, S, L>>,
    end: Stage<Q, S, L>,
    outcome: Result<(), EngineError<S::Error>>,
    longer: Seq<Stage<Q, S, L>>,
)
    requires
        ends_at(ended, end, outcome),
        is_trace(longer),
        ended.len() <= longer.len() <= u64::MAX + 1,
        are_same(ended.last(), longer[ended.len() - 1]),
        is_closed(ended.last()),
        is_orderly(ended.last()) || is_orderly(longer[ended.len() - 1]),
    ensures
        ended.len() == longer.len(),
{
    let i = ended.len() - 1;
    let next = longer[i + 1];
    if ended.len() == longer.len() {
    } else if outcome is Ok {
        assert(moves(longer[i], next));
        if exists|event: Event, x: Outcome| #[trigger] is_move(longer[i], next, event, x) {
            let (event, x) = choose|event: Event, x: Outcome| #[trigger]
                is_move(longer[i], next, event, x);
            lemma_no_last_move(longer[i], next, event, x);
        }
    } else {
        assert(moves(longer[i], next));
        lemma_move_does_not_fail(longer[i], next, ended[i], end, outcome->Err_0);
    }
}

/// A state of a run is one that the run leads to.
proof fn lemma_led_to<Q: QueueModel, S: Strategy, L: LatencyModel>(
    trace: Seq<Stage<Q, S, L>>,
    k: int,
)
    requires
        is_trace(trace),
        0 <= k < trace.len(),
        k < u64::MAX,
    ensures
        leads_to(trace.first(), trace[k]),
{
    let part = trace.take(k + 1);
    assert forall|i: int| 0 <= i < part.len() - 1 implies moves(#[trigger] part[i], part[i + 1]) by {
        assert(moves(trace[i], trace[i + 1]));
    }
    assert(is_trace(part));
    assert(part.last() == trace[k]);
    assert(part.first() == trace.first());
}

/// Reproducible: two runs from one state, with latencies drawn from generators in the same
/// state, end alike, whether they finish or fail: with the same fills, statistics and
/// account, and with the same strategy.
pub proof fn law_outcome_is_reproducible<Q: QueueModel, S: Strategy, L: LatencyModel>(
    first: Stage<Q, S, L>,
    end: Stage<Q, S, L>,
    outcome: Result<(), EngineError<S::Error>>,
    other_first: Stage<Q, S, L>,
    other_end: Stage<Q, S, L>,
    other_outcome: Result<(), EngineError<S::Error>>,
)
    requires
        are_same(first, other_first),
        is_closed(first),
        is_orderly_run(first),
        ends_in(first, end, outcome),
        ends_in(other_first, other_end, other_outcome),
    ensures
        end.sim == other_end.sim,
        end.trader == other_end.trader,
        match (outcome, other_outcome) {
            (Ok(()), Ok(())) => true,
            (Err(a), Err(b)) => is_same_error(a, b),
            _ => false,
        },
{
    let a = lemma_run_has_trace(first, end, outcome);
    let b = lemma_run_has_trace(other_first, other_end, other_outcome);
    assert forall|k: int| 0 <= k < a.len() && k < u64::MAX implies is_orderly(#[trigger] a[k]) by {
        reveal(is_orderly_run);
        lemma_led_to(a, k);
    }
    let i = if a.len() <= b.len() {
        a.len() - 1
    } else {
        b.len() - 1
    };
    law_run_is_reproducible(a, b, i);
    if a.len() < b.len() {
        lemma_no_longer(a, end, outcome, b);
    }
    if b.len() < a.len() {
        assert(is_closed(b[i]));
        lemma_no_longer(b, other_end, other_outcome, a);
    }
    if a.len() <= u64::MAX {
        assert(is_orderly(a[i]));
    }
    lemma_same_end(a, end, outcome, b, other_end, other_outcome);
}

/// Two runs that come to one state end alike.
proof fn lemma_same_end<Q: QueueModel, S: Strategy, L: LatencyModel>(
    a: Seq<Stage<Q, S, L>>,
    end: Stage<Q, S, L>,
    outcome: Result<(), EngineError<S::Error>>,
    b: Seq<Stage<Q, S, L>>,
    other_end: Stage<Q, S, L>,
    other_outcome: Result<(), EngineError<S::Error>>,
)
    requires
        a.len() == b.len(),
        ends_at(a, end, outcome),
        ends_at(b, other_end, other_outcome),
        are_same(a.last(), b.last()),
        is_closed(a.last()),
        a.len() <= u64::MAX ==> is_orderly(a.last()),
    ensures
        end.sim == other_end.sim,
        end.trader == other_end.trader,
        match (outcome, other_outcome) {
            (Ok(()), Ok(())) => true,
            (Err(a), Err(b)) => is_same_error(a, b),
            _ => false,
        },
{
    let x = a.last();
    let y = b.last();
    if a.len() <= u64::MAX {
        if outcome is Err && other_outcome is Err {
            law_failure_is_reproducible(
                x,
                end,
                outcome->Err_0,
                y,
                other_end,
                other_outcome->Err_0,
            );
        } else if outcome is Ok && other_outcome is Err {
            lemma_only_flush_fails(y, other_end, other_outcome->Err_0);
        } else if outcome is Err && other_outcome is Ok {
            lemma_only_flush_fails(x, end, outcome->Err_0);
        }
    }
}

/// Whether two moves take in the same market data, from whatever sources, and no two
/// events share an identifier once it came in.
pub open spec fn takes_same_data<Q: QueueModel, S: Strategy, L: LatencyModel>(
    a: Stage<Q, S, L>,
    after_a: Stage<Q, S, L>,
    b: Stage<Q, S, L>,
    after_b: Stage<Q, S, L>,
) -> bool {
    &&& forall|e: Event, x: Outcome, f: Event, y: Outcome|
        #![trigger is_move(a, after_a, e, x), is_move(b, after_b, f, y)]
        is_move(a, after_a, e, x) && is_move(b, after_b, f, y) ==> x.items == y.items
            && distinct_ids(a.sim.fed_all(x.items).queue)
    &&& (exists|e: Event, x: Outcome| #[trigger] is_move(a, after_a, e, x)) == (exists|
        f: Event,
        y: Outcome,
    | #[trigger] is_move(b, after_b, f, y))
}

proof fn lemma_same_data_same_move<Q: QueueModel, S: Strategy, L: LatencyModel>(
    a: Stage<Q, S, L>,
    after_a: Stage<Q, S, L>,
    b: Stage<Q, S, L>,
    after_b: Stage<Q, S, L>,
)
    requires
        are_alike(a, b),
        decides(a),
        !a.sim.config.auto_tune,
        moves(a, after_a),
        moves(b, after_b),
        takes_same_data(a, after_a, b, after_b),
    ensures
        are_alike(after_a, after_b),
        after_a.sim.config == a.sim.config,
{
    if exists|e: Event, x: Outcome| #[trigger] is_move(a, after_a, e, x) {
        let (e, x) = choose|e: Event, x: Outcome| #[trigger] is_move(a, after_a, e, x);
        let (f, y) = choose|f: Event, y: Outcome| #[trigger] is_move(b, after_b, f, y);
        assert(is_move(a, after_a, e, x) && is_move(b, after_b, f, y));
        assert(has_intake(a.sim, a.feeds, x.items));
        law_next_event_is_determined(a.sim.fed_all(x.items).queue, e, f);
        lemma_fed_config(a.sim, x.items);
        lemma_answers(
            a.trader,
            a.latency,
            a.at(x.items, e),
            e.kind,
            a.rng,
            x,
            after_a.trader,
            after_a.rng,
            b.rng,
            y,
            after_b.trader,
            after_b.rng,
        );
    } else {
        let x = choose|x: Outcome| #[trigger] is_last_move(a, after_a, x);
        let y = choose|y: Outcome| #[trigger] is_last_move(b, after_b, y);
        assert(is_last_move(a, after_a, x) && is_last_move(b, after_b, y));
        let s = a.sim;
        lemma_flush_answer(a.trader, s, s.now, x.flush, after_a.trader, y.flush, after_b.trader);
        lemma_flushed(s, s.now, x.flush, x.duration, y.duration);
    }
}

/// Reproducible: two runs that take in the same market data step by step go through the same states, whatever sources it comes from.
pub proof fn law_same_data_same_run<Q: QueueModel, S: Strategy, L: LatencyModel>(
    a: Seq<Stage<Q, S, L>>,
    b: Seq<Stage<Q, S, L>>,
    i: int,
)
    requires
        is_trace(a),
        is_trace(b),
        are_alike(a.first(), b.first()),
        !a.first().sim.config.auto_tune,
        forall|k: int|
            0 <= k < a.len() - 1 && k < b.len() - 1 ==> takes_same_data(
                #[trigger] a[k],
                a[k + 1],
                b[k],
                b[k + 1],
            ),
        0 <= i < a.len(),
        i < b.len(),
        forall|k: int| 0 <= k < i ==> decides(#[trigger] a[k]),
    ensures
        are_alike(a[i], b[i]),
        a[i].sim.config == a.first().sim.config,
    decreases i,
{
    if i > 0 {
        let k = i - 1;
        law_same_data_same_run(a, b, k);
        assert(decides(a[k]));
        assert(moves(a[k], a[k + 1]));
        assert(moves(b[k], b[k + 1]));
        assert(takes_same_data(a[k], a[k + 1], b[k], b[k + 1]));
        lemma_same_data_same_move(a[k], a[i], b[k], b[i]);
    }
}

} // verus!
