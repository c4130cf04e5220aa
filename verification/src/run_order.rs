//! The order in which a whole run processes its events.
use vstd::prelude::*;

use crate::backtest::lemma_no_sources_stay_none;
use crate::engine::{has_intake, is_last_move, is_move, is_trace, moves, Stage};
use crate::engine_laws::{
    causal, distinct_ids, in_order, law_no_look_ahead, lemma_calm_causal, lemma_flushed_calm,
};
use crate::event::{Event, EventKind};
use crate::feeds::{lemma_nothing_gives_nothing, FeedItem, FeedsView};
use crate::latency_model::LatencyModel;
use crate::queue_model::QueueModel;
use crate::reproducibility::has_distinct_ids;
use crate::schedule::{
    feed_events, grows_by, has_room, lasts, law_equal_times_run_in_scheduling_order,
    lemma_fed_on_line, lemma_flushed_grows, lemma_push_all_numbered, lemma_step_grows,
    lemma_without_numbered, line_of, most_new_events, Line,
};
use crate::sim_view::Outcome;
use crate::strategy::Strategy;

verus! {

proof fn lemma_growing_numbered(before: Line, after: Line, n: nat)
    requires
        before.is_numbered(),
        grows_by(before, after, n),
        before.next + n <= u64::MAX,
    ensures
        after.is_numbered(),
{
    let new = choose|new: Seq<(i64, EventKind)>| #[trigger]
        before.push_all(new) == after && new.len() <= n;
    lemma_push_all_numbered(before, new);
}

proof fn lemma_move_keeps_numbers<Q: QueueModel, S: Strategy, L: LatencyModel>(
    before: Stage<Q, S, L>,
    after: Stage<Q, S, L>,
)
    requires
        line_of(before.sim).is_numbered(),
        moves(before, after),
        lasts(before, after),
    ensures
        line_of(after.sim).is_numbered(),
{
    let line = line_of(before.sim);
    if exists|e: Event, x: Outcome| #[trigger] is_move(before, after, e, x) {
        let (e, x) = choose|e: Event, x: Outcome| #[trigger] is_move(before, after, e, x);
        assert(has_room(before.sim, e, x));
        let feed = feed_events(before.sim.config, x.items);
        lemma_push_all_numbered(line, feed);
        lemma_without_numbered(line.push_all(feed), e);
        lemma_step_grows(before.sim, after.sim, e, x);
        let n = most_new_events(before.at(x.items, e), e.kind, x.commands) + x.flush.len();
        lemma_growing_numbered(line.push_all(feed).without(e), line_of(after.sim), n);
    } else {
        let x = choose|x: Outcome| #[trigger] is_last_move(before, after, x);
        lemma_flushed_grows(before.sim, before.sim.now, x.flush, x.duration);
        lemma_growing_numbered(line, line_of(after.sim), x.flush.len());
    }
}

/// All queued events have different sequence numbers, over a whole run, as long as there
/// are numbers.
pub proof fn law_events_stay_numbered<Q: QueueModel, S: Strategy, L: LatencyModel>(
    trace: Seq<Stage<Q, S, L>>,
    i: int,
)
    requires
        is_trace(trace),
        line_of(trace.first().sim).is_numbered(),
        forall|k: int| 0 <= k < trace.len() - 1 ==> lasts(#[trigger] trace[k], trace[k + 1]),
        0 <= i < trace.len(),
    ensures
        line_of(trace[i].sim).is_numbered(),
    decreases i,
{
    if i > 0 {
        law_events_stay_numbered(trace, i - 1);
        assert(moves(trace[i - 1], trace[i - 1 + 1]));
        assert(lasts(trace[i - 1], trace[i - 1 + 1]));
        lemma_move_keeps_numbers(trace[i - 1], trace[i]);
    }
}

/// No two events share an identifier, as long as there are numbers for the market data
/// that comes in.
pub proof fn law_numbered_events_have_distinct_ids<Q: QueueModel, S: Strategy, L: LatencyModel>(
    stage: Stage<Q, S, L>,
)
    requires
        line_of(stage.sim).is_numbered(),
        forall|items: Seq<FeedItem>| #[trigger]
            has_intake(stage.sim, stage.feeds, items) ==> stage.sim.next_event_seq + feed_events(
                stage.sim.config,
                items,
            ).len() <= u64::MAX,
    ensures
        has_distinct_ids(stage),
{
    assert forall|items: Seq<FeedItem>| #[trigger]
        has_intake(stage.sim, stage.feeds, items) implies distinct_ids(
        stage.sim.fed_all(items).queue,
    ) by {
        lemma_push_all_numbered(line_of(stage.sim), feed_events(stage.sim.config, items));
        lemma_fed_on_line(stage.sim, items);
    }
}

/// Whether the market data of a move is not older than the clock.
pub open spec fn comes_in_order<Q: QueueModel, S: Strategy, L: LatencyModel>(
    before: Stage<Q, S, L>,
    after: Stage<Q, S, L>,
) -> bool {
    forall|e: Event, x: Outcome| #[trigger]
        is_move(before, after, e, x) ==> in_order(before.sim, x.items)
}

proof fn lemma_move_keeps_time<Q: QueueModel, S: Strategy, L: LatencyModel>(
    before: Stage<Q, S, L>,
    after: Stage<Q, S, L>,
)
    requires
        causal(before.sim),
        before.sim.config.order_update_latency_ns >= 0,
        moves(before, after),
        comes_in_order(before, after),
    ensures
        causal(after.sim),
        after.sim.config.order_update_latency_ns >= 0,
        after.sim.now >= before.sim.now,
{
    if exists|e: Event, x: Outcome| #[trigger] is_move(before, after, e, x) {
        let (e, x) = choose|e: Event, x: Outcome| #[trigger] is_move(before, after, e, x);
        law_no_look_ahead(before.sim, after.sim, e, x);
    } else {
        let x = choose|x: Outcome| #[trigger] is_last_move(before, after, x);
        lemma_flushed_calm(before.sim, before.sim.now, x.flush, x.duration);
        lemma_calm_causal(before.sim, after.sim);
    }
}

/// Time runs forward over a whole run, and the strategy never looks ahead.
pub proof fn law_run_keeps_time<Q: QueueModel, S: Strategy, L: LatencyModel>(
    trace: Seq<Stage<Q, S, L>>,
    i: int,
    j: int,
)
    requires
        is_trace(trace),
        causal(trace.first().sim),
        trace.first().sim.config.order_update_latency_ns >= 0,
        forall|k: int|
            0 <= k < trace.len() - 1 ==> comes_in_order(#[trigger] trace[k], trace[k + 1]),
        0 <= i <= j < trace.len(),
    ensures
        causal(trace[i].sim),
        causal(trace[j].sim),
        trace[i].sim.config.order_update_latency_ns >= 0,
        trace[j].sim.config.order_update_latency_ns >= 0,
        trace[i].sim.now <= trace[j].sim.now,
    decreases j,
{
    if j > 0 {
        let k = j - 1;
        law_run_keeps_time(
            trace,
            if i < j {
                i
            } else {
                k
            },
            k,
        );
        assert(moves(trace[k], trace[k + 1]));
        assert(comes_in_order(trace[k], trace[k + 1]));
        lemma_move_keeps_time(trace[k], trace[j]);
    }
}

/// A run processes its events in order: with market data in order and no negative latency,
/// no event is earlier than one that was processed before it, and events of one time are
/// processed in the order in which they were scheduled.
pub proof fn law_events_run_in_order<Q: QueueModel, S: Strategy, L: LatencyModel>(
    trace: Seq<Stage<Q, S, L>>,
    i: int,
    j: int,
    first: Event,
    second: Event,
    x: Outcome,
    y: Outcome,
)
    requires
        is_trace(trace),
        causal(trace.first().sim),
        trace.first().sim.config.order_update_latency_ns >= 0,
        forall|k: int|
            0 <= k < trace.len() - 1 ==> comes_in_order(#[trigger] trace[k], trace[k + 1]),
        line_of(trace.first().sim).is_numbered(),
        forall|k: int| 0 <= k < trace.len() - 1 ==> lasts(#[trigger] trace[k], trace[k + 1]),
        0 <= i < j < trace.len() - 1,
        is_move(trace[i], trace[i + 1], first, x),
        is_move(trace[j], trace[j + 1], second, y),
    ensures
        first.id.ts_sim <= second.id.ts_sim,
        first.id.ts_sim == second.id.ts_sim ==> first.id.seq < second.id.seq,
{
    assert(comes_in_order(trace[i], trace[i + 1]));
    assert(comes_in_order(trace[j], trace[j + 1]));
    law_run_keeps_time(trace, i, j);
    law_run_keeps_time(trace, i + 1, j);
    law_no_look_ahead(trace[i].sim, trace[i + 1].sim, first, x);
    law_no_look_ahead(trace[j].sim, trace[j + 1].sim, second, y);
    law_events_stay_numbered(trace, i);
    if first.id.ts_sim == second.id.ts_sim {
        law_equal_times_run_in_scheduling_order(trace, i, j, first, second, x, y);
    }
}

/// Without sources, a run processes its events in order: with no negative latency, no event
/// is earlier than one that was processed before it, and events of one time are processed
/// in the order in which they were scheduled.
pub proof fn law_queued_events_run_in_order<Q: QueueModel, S: Strategy, L: LatencyModel>(
    trace: Seq<Stage<Q, S, L>>,
    i: int,
    j: int,
    first: Event,
    second: Event,
    x: Outcome,
    y: Outcome,
)
    requires
        is_trace(trace),
        trace.first().feeds == FeedsView::nothing(),
        causal(trace.first().sim),
        trace.first().sim.config.order_update_latency_ns >= 0,
        line_of(trace.first().sim).is_numbered(),
        forall|k: int| 0 <= k < trace.len() - 1 ==> lasts(#[trigger] trace[k], trace[k + 1]),
        0 <= i < j < trace.len() - 1,
        is_move(trace[i], trace[i + 1], first, x),
        is_move(trace[j], trace[j + 1], second, y),
    ensures
        first.id.ts_sim <= second.id.ts_sim,
        first.id.ts_sim == second.id.ts_sim ==> first.id.seq < second.id.seq,
{
    assert forall|k: int| 0 <= k < trace.len() - 1 implies comes_in_order(
        #[trigger] trace[k],
        trace[k + 1],
    ) by {
        lemma_no_sources_stay_none(trace, k);
        assert(trace[k].feeds.is_exhausted());
        assert forall|e: Event, z: Outcome| #[trigger]
            is_move(trace[k], trace[k + 1], e, z) implies in_order(trace[k].sim, z.items) by {
            lemma_nothing_gives_nothing(trace[k].feeds, z.items, trace[k + 1].feeds);
        }
    }
    law_events_run_in_order(trace, i, j, first, second, x, y);
}

} // verus!
