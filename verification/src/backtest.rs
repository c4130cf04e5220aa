//! Running whole backtests: options, order requests and the result of a run.
use vstd::prelude::*;

use crate::engine::{
    is_finished, is_last_move, is_move, is_taken, is_trace, leads_to, moves, stops_at, stops_with,
    Engine, EngineError, Stage,
};
use crate::event::{Event, EventId, EventKind};
use crate::feeds::{lemma_nothing_gives_nothing, FeedItem, FeedsView};
use crate::latency_model::LatencyModel;
use crate::math::{clamp_i64, clamp_to_i64};
use crate::queue_model::QueueModel;
use crate::rng::SeededRng;
use crate::sim_view::{next_number, EngineConfig, EngineMode, Outcome, SimView};
use crate::stats::{
    calculate_stats, equity_curve, equity_curve_from_pnl_deltas, full_pnl_history, stats_of,
    BacktestStats, LogView, StatsView, TradeFill, TradeLog, TradeLogMode,
};
use crate::strategy::{Command, Context, ContextView, Strategy};
use crate::text::{begins_with, has_prefix, same_text};
use crate::tick_source::side_of;
use crate::types::{Order, OrderType, Side};

verus! {

/// The text in lower case.
pub uninterp spec fn lowercase_text(text: Seq<char>) -> Seq<char>;

/// `str::to_lowercase`.
#[verifier::external_body]
fn lowercase(text: &str) -> (r: String)
    ensures
        r@ == lowercase_text(text@),
{
    text.to_lowercase()
}

/// The size of the ring buffer that the option `ringbuffer` stands for.
pub const RING_BUFFER_LEN: usize = 10_000;

/// The trade log mode that an option in lower case names; all fills are kept where it
/// names none.
pub open spec fn mode_named(text: Seq<char>) -> TradeLogMode {
    if text == "all"@ {
        TradeLogMode::All
    } else if text == "summaryonly"@ {
        TradeLogMode::SummaryOnly
    } else if text == "none"@ {
        TradeLogMode::Off
    } else if begins_with(text, "ringbuffer"@) {
        TradeLogMode::RingBuffer(RING_BUFFER_LEN)
    } else {
        TradeLogMode::All
    }
}

/// The trade log mode that an option in lower case names.
pub fn parse_log_mode(text: &str) -> (r: TradeLogMode)
    ensures
        r == mode_named(text@),
{
    if same_text(text, "all") {
        TradeLogMode::All
    } else if same_text(text, "summaryonly") {
        TradeLogMode::SummaryOnly
    } else if same_text(text, "none") {
        TradeLogMode::Off
    } else if has_prefix(text, "ringbuffer") {
        TradeLogMode::RingBuffer(RING_BUFFER_LEN)
    } else {
        TradeLogMode::All
    }
}

/// The trade log mode that an option names, in whatever case it is written.
pub fn log_mode_of(text: &str) -> (r: TradeLogMode)
    ensures
        r == mode_named(lowercase_text(text@)),
{
    parse_log_mode(lowercase(text).as_str())
}

/// The engine mode that an option names: batch, or tick by tick for anything else.
pub open spec fn engine_mode_named(text: Seq<char>) -> EngineMode {
    if text == "batch"@ {
        EngineMode::Batch
    } else {
        EngineMode::Tick
    }
}

/// Options of a backtest, as a user gives them.
#[derive(Debug, Clone)]
pub struct BacktestOptions {
    pub feed_latency_ns: i64,
    pub order_update_latency_ns: i64,
    pub mode: String,
    pub batch_ms: i64,
    pub seed: u64,
    pub trade_log_mode: String,
}

impl BacktestOptions {
    /// The engine configuration that the options stand for; no fees.
    pub open spec fn config(&self) -> EngineConfig {
        EngineConfig {
            feed_latency_ns: self.feed_latency_ns,
            order_update_latency_ns: self.order_update_latency_ns,
            mode: engine_mode_named(self.mode@),
            max_batch_ns: clamp_i64(self.batch_ms * 1_000_000),
            auto_tune: false,
            seed: self.seed,
            trade_log_mode: mode_named(lowercase_text(self.trade_log_mode@)),
            maker_fee_bps: 0,
            taker_fee_bps: 0,
        }
    }

    /// The engine configuration of a single run.
    pub fn engine_config(&self) -> (r: EngineConfig)
        ensures
            r == self.config(),
    {
        EngineConfig {
            feed_latency_ns: self.feed_latency_ns,
            order_update_latency_ns: self.order_update_latency_ns,
            mode: if same_text(self.mode.as_str(), "batch") {
                EngineMode::Batch
            } else {
                EngineMode::Tick
            },
            max_batch_ns: clamp_to_i64((self.batch_ms as i128) * 1_000_000),
            auto_tune: false,
            seed: self.seed,
            trade_log_mode: log_mode_of(self.trade_log_mode.as_str()),
            maker_fee_bps: 0,
            taker_fee_bps: 0,
        }
    }

    /// The engine configuration of one of many runs, or of a run over a stream: order
    /// updates take as long as the feed, and the seed moves on with the index.
    pub fn feed_bound_config(&self, index: u64) -> (r: EngineConfig)
        ensures
            r == (EngineConfig {
                order_update_latency_ns: self.feed_latency_ns,
                seed: ((self.seed + index) % 0x1_0000_0000_0000_0000) as u64,
                ..self.config()
            }),
    {
        let mut config: EngineConfig = self.engine_config();
        config.order_update_latency_ns = self.feed_latency_ns;
        config.seed = self.seed.wrapping_add(index);
        config
    }
}

/// An order that a script asks for, before its side is checked.
#[derive(Debug, Clone, Copy, PartialEq, Eq, Structural)]
pub struct OrderRequest {
    pub symbol_id: u32,
    pub side: i8,
    pub price: i64,
    pub qty: i64,
    pub seq: u64,
}

impl OrderRequest {
    /// The order that a request with a known side stands for.
    pub open spec fn order(self, ts_local: i64) -> Order {
        Order {
            order_id: 0,
            ts_submit: ts_local,
            seq: self.seq,
            price: self.price,
            qty: self.qty,
            symbol_id: self.symbol_id,
            side: side_of(self.side as int).unwrap(),
            order_type: OrderType::Limit,
        }
    }
}

/// The commands of the requests before the first one whose side is unknown.
pub open spec fn accepted(requests: Seq<OrderRequest>, ts_local: i64) -> Seq<Command>
    decreases requests.len(),
{
    if requests.len() == 0 || side_of(requests[0].side as int) is None {
        Seq::empty()
    } else {
        seq![Command::SubmitOrder(requests[0].order(ts_local))] + accepted(
            requests.drop_first(),
            ts_local,
        )
    }
}

/// The orders that a script asks for during one callback.
#[derive(Debug)]
pub struct RequestBuffer {
    ts_local: i64,
    next_seq: u64,
    requests: Vec<OrderRequest>,
}

impl RequestBuffer {
    /// The script's clock.
    pub closed spec fn clock(&self) -> i64 {
        self.ts_local
    }

    /// The number that the next request gets.
    pub closed spec fn next(&self) -> u64 {
        self.next_seq
    }

    /// The requests so far.
    pub closed spec fn asked(&self) -> Seq<OrderRequest> {
        self.requests@
    }

    pub fn new(ts_local: i64) -> (r: Self)
        ensures
            r.clock() == ts_local,
            r.next() == 0,
            r.asked() == Seq::<OrderRequest>::empty(),
    {
        RequestBuffer { ts_local, next_seq: 0, requests: Vec::new() }
    }

    pub fn ts_local(&self) -> (r: i64)
        ensures
            r == self.clock(),
    {
        self.ts_local
    }

    /// Asks for an order: requests are numbered in the order in which they come.
    pub fn submit_order(&mut self, symbol_id: u32, side: i8, price: i64, qty: i64)
        ensures
            final(self).clock() == old(self).clock(),
            final(self).next() == next_number(old(self).next()),
            final(self).asked() == old(self).asked().push(
                OrderRequest { symbol_id, side, price, qty, seq: old(self).next() },
            ),
    {
        let seq: u64 = self.next_seq;
        self.next_seq = self.next_seq.wrapping_add(1);
        self.requests.push(OrderRequest { symbol_id, side, price, qty, seq });
    }

    /// Passes the requests on as commands, up to the first one whose side is unknown.
    pub fn apply(&self, ctx: &mut Context<'_>) -> (r: Result<(), &'static str>)
        ensures
            final(ctx)@ == (ContextView {
                given: old(ctx)@.given + accepted(self.asked(), old(ctx)@.clock),
                ..old(ctx)@
            }),
            match r {
                Ok(()) => forall|i: int|
                    0 <= i < self.asked().len() ==> side_of(
                        (#[trigger] self.asked()[i]).side as int,
                    ) is Some,
                Err(e) => e == "invalid Side (expected 1, -1, or 0)" && exists|i: int|
                    0 <= i < self.asked().len() && side_of(
                        (#[trigger] self.asked()[i]).side as int,
                    ) is None,
            },
    {
        let ghost all = self.requests@;
        let ts_local: i64 = ctx.ts_local();
        let ghost before = ctx@.given;
        let mut i: usize = 0;
        proof {
            assert(all.skip(0) =~= all);
            assert(before + accepted(all, ts_local) =~= ctx@.given + accepted(
                all.skip(0),
                ts_local,
            ));
        }
        while i < self.requests.len()
            invariant
                i <= self.requests@.len(),
                all == self.requests@,
                before == old(ctx)@.given,
                ts_local == old(ctx)@.clock,
                ctx@.market == old(ctx)@.market,
                ctx@.clock == ts_local,
                before + accepted(all, ts_local) == ctx@.given + accepted(
                    all.skip(i as int),
                    ts_local,
                ),
                forall|j: int| 0 <= j < i ==> side_of((#[trigger] all[j]).side as int) is Some,
            decreases self.requests@.len() - i,
        {
            let req: OrderRequest = self.requests[i];
            proof {
                assert(all.skip(i as int)[0] == all[i as int]);
                assert(all.skip(i as int).drop_first() =~= all.skip(i + 1));
            }
            let side: Side = match Side::try_from(req.side) {
                Ok(side) => side,
                Err(e) => {
                    assert(side_of(all[i as int].side as int) is None);
                    assert(ctx@.given + Seq::<Command>::empty() =~= ctx@.given);
                    return Err(e);
                },
            };
            let ghost given = ctx@.given;
            let order = Order {
                order_id: 0,
                ts_submit: ts_local,
                seq: req.seq,
                symbol_id: req.symbol_id,
                side,
                order_type: OrderType::Limit,
                price: req.price,
                qty: req.qty,
            };
            ctx.submit_order(order);
            proof {
                assert(order == req.order(ts_local));
                assert(given + accepted(all.skip(i as int), ts_local) =~= ctx@.given + accepted(
                    all.skip(i + 1),
                    ts_local,
                ));
            }
            i = i + 1;
        }
        assert(all.skip(i as int) =~= Seq::empty());
        assert(ctx@.given + Seq::<Command>::empty() =~= ctx@.given);
        Ok(())
    }
}

/// How a script is called with what has happened.
#[derive(Debug, Clone, Copy, PartialEq, Eq, Structural)]
pub enum Callback {
    /// Once for each item.
    Each,
    /// Once, with a list.
    List,
    /// Not at all.
    Skip,
}

/// How a script is called with a single item: by the method for one item, else by the
/// method for lists.
pub fn callback_for_one(has_each: bool, has_list: bool) -> (r: Callback)
    ensures
        r == if has_each {
            Callback::Each
        } else if has_list {
            Callback::List
        } else {
            Callback::Skip
        },
{
    if has_each {
        Callback::Each
    } else if has_list {
        Callback::List
    } else {
        Callback::Skip
    }
}

/// How a script is called with a batch: by the method for lists, else item by item.
pub fn callback_for_batch(has_each: bool, has_list: bool) -> (r: Callback)
    ensures
        r == if has_list {
            Callback::List
        } else if has_each {
            Callback::Each
        } else {
            Callback::Skip
        },
{
    if has_list {
        Callback::List
    } else if has_each {
        Callback::Each
    } else {
        Callback::Skip
    }
}

/// The statistics that a log leads to.
pub open spec fn log_stats(log: LogView) -> BacktestStats {
    if log.mode is Off {
        stats_of(StatsView::zero())
    } else {
        stats_of(log.stats)
    }
}

/// The equity curve that a log leads to.
pub open spec fn log_equity(log: LogView) -> Seq<(i64, i64)> {
    equity_curve(log_history(log))
}

/// The PnL history of a log; nothing where no log is kept.
pub open spec fn log_history(log: LogView) -> Seq<(i64, i64)> {
    if log.mode is Off {
        Seq::empty()
    } else {
        log.pnl_history
    }
}

/// What is left of a run: its fills, statistics, PnL history and equity curve.
#[derive(Debug, Clone)]
pub struct RunSummary {
    pub trades: Vec<TradeFill>,
    pub stats: BacktestStats,
    pub pnl_history: Vec<(i64, i64)>,
    pub equity_curve: Vec<(i64, i64)>,
}

impl RunSummary {
    /// Whether this is the summary of a log.
    pub open spec fn is_of(&self, log: LogView) -> bool {
        &&& self.trades@ == log.fills
        &&& self.stats == log_stats(log)
        &&& self.pnl_history@ == log_history(log)
        &&& self.equity_curve@ == log_equity(log)
    }

    /// The summary of a trade log.
    pub fn of_log(log: &TradeLog) -> (r: Self)
        ensures
            r.is_of(log@),
    {
        let history: Vec<(i64, i64)> = full_pnl_history(log);
        let curve: Vec<(i64, i64)> = equity_curve_from_pnl_deltas(history.as_slice());
        assert(curve@ =~= log_equity(log@));
        RunSummary {
            trades: log.fills_vec(),
            stats: calculate_stats(log),
            pnl_history: history,
            equity_curve: curve,
        }
    }
}

/// The simulation after a list of events was scheduled.
pub open spec fn with_events<Q: QueueModel>(
    s: SimView<Q>,
    events: Seq<(i64, EventKind)>,
) -> SimView<Q>
    decreases events.len(),
{
    if events.len() == 0 {
        s
    } else {
        with_events(s, events.drop_last()).pushed(events.last().0, events.last().1)
    }
}

/// Whether a run may end in this state with this outcome: with nothing left to process, or
/// where it fails.
pub open spec fn ends_in<Q: QueueModel, S: Strategy, L: LatencyModel>(
    first: Stage<Q, S, L>,
    end: Stage<Q, S, L>,
    outcome: Result<(), EngineError<S::Error>>,
) -> bool {
    match outcome {
        Ok(()) => {
            &&& leads_to(first, end)
            &&& is_finished(end.sim)
            &&& !end.feeds.lost ==> end.feeds.is_exhausted()
        },
        Err(e) => stops_with(first, end, e),
    }
}

/// The start of a run over a list of events, without further market data.
pub open spec fn run_start<Q: QueueModel, S: Strategy, L: LatencyModel>(
    queue_model: Q,
    latency: L,
    config: EngineConfig,
    trader: S,
    rng: SeededRng,
    events: Seq<(i64, EventKind)>,
) -> Stage<Q, S, L> {
    Stage {
        sim: with_events(SimView::fresh(queue_model, config), events),
        feeds: FeedsView::nothing(),
        trader,
        latency,
        rng,
    }
}

/// Runs one strategy over a list of events. A run that fails still has the summary of
/// what it did.
pub fn run_events<Q, S, L>(
    queue_model: Q,
    latency_model: L,
    config: EngineConfig,
    strategy: S,
    events: &[(i64, EventKind)],
) -> (r: (RunSummary, Result<(), EngineError<S::Error>>)) where
    Q: QueueModel + Copy,
    S: Strategy,
    L: LatencyModel,

    ensures
        exists|rng: SeededRng, end: Stage<Q, S, L>|
            rng.seed() == config.seed && #[trigger] ends_in(
                run_start(queue_model, latency_model, config, strategy, rng, events@),
                end,
                r.1,
            ) && r.0.is_of(end.sim.log),
        !(r.1 matches Err(EngineError::TickSource(_))),
{
    let mut engine: Engine<Q, S, L> = Engine::new(queue_model, strategy, config, latency_model);
    let ghost fresh = SimView::fresh(queue_model, config);
    let mut i: usize = 0;
    assert(events@.take(0) =~= Seq::empty());
    while i < events.len()
        invariant
            i <= events@.len(),
            engine.wf(),
            engine.sources() == FeedsView::nothing(),
            engine.trader() == strategy,
            engine.latency() == latency_model,
            engine.dice().seed() == config.seed,
            engine@ == with_events(fresh, events@.take(i as int)),
        decreases events@.len() - i,
    {
        proof {
            assert(events@.take(i + 1).drop_last() =~= events@.take(i as int));
            assert(events@.take(i + 1).last() == events@[i as int]);
        }
        let (ts, kind): (i64, EventKind) = events[i];
        engine.push_event(ts, kind);
        i = i + 1;
    }
    assert(events@.take(i as int) =~= events@);
    let ghost start = engine.stage();
    let finished: Result<(), EngineError<S::Error>> = engine.run();
    proof {
        if finished matches Err(EngineError::TickSource(_)) {
            let error = finished->Err_0;
            let mid = choose|mid: Stage<Q, S, L>| #[trigger]
                leads_to(start, mid) && stops_at(mid, engine.stage(), error);
            let trace = choose|trace: Seq<Stage<Q, S, L>>| #[trigger]
                is_trace(trace) && trace.len() <= u64::MAX && trace.first() == start
                    && trace.last() == mid;
            lemma_no_sources_stay_none(trace, trace.len() - 1);
            let (items, left) = choose|items: Seq<FeedItem>, left: FeedsView|
                #[trigger] is_taken(mid.sim, mid.feeds, items, left) && left.may_fail();
            lemma_nothing_gives_nothing(mid.feeds, items, left);
            assert(false);
        }
        let rng = start.rng;
        assert(start == run_start(queue_model, latency_model, config, strategy, rng, events@));
        assert(ends_in(start, engine.stage(), finished));
    }
    (RunSummary::of_log(engine.trade_log()), finished)
}

/// Without sources, a run meets no market data but the events it began with.
pub proof fn lemma_no_sources_stay_none<Q: QueueModel, S: Strategy, L: LatencyModel>(
    trace: Seq<Stage<Q, S, L>>,
    i: int,
)
    requires
        is_trace(trace),
        trace.first().feeds == FeedsView::nothing(),
        0 <= i < trace.len(),
    ensures
        trace[i].feeds == FeedsView::nothing(),
        trace[i].latency == trace.first().latency,
    decreases i,
{
    if i > 0 {
        lemma_no_sources_stay_none(trace, i - 1);
        let (a, b) = (trace[i - 1], trace[i]);
        assert(moves(a, b));
        if !(exists|x: Outcome| #[trigger] is_last_move(a, b, x)) {
            let (event, x) = choose|event: Event, x: Outcome| #[trigger] is_move(a, b, event, x);
            lemma_nothing_gives_nothing(a.feeds, x.items, b.feeds);
        }
    }
}

/// The options become the configuration that they name: latencies and seed as they are, the
/// batch length from milliseconds to nanoseconds, batch mode by its name alone, no fees, and
/// no tuning.
pub proof fn law_options_are_kept(options: &BacktestOptions)
    ensures
        ({
            let c = options.config();
            &&& c.feed_latency_ns == options.feed_latency_ns
            &&& c.order_update_latency_ns == options.order_update_latency_ns
            &&& c.seed == options.seed
            &&& c.mode is Batch <==> options.mode@ == "batch"@
            &&& i64::MIN <= options.batch_ms * 1_000_000 <= i64::MAX ==> c.max_batch_ns
                == options.batch_ms * 1_000_000
            &&& options.batch_ms * 1_000_000 > i64::MAX ==> c.max_batch_ns == i64::MAX
            &&& options.batch_ms * 1_000_000 < i64::MIN ==> c.max_batch_ns == i64::MIN
            &&& !c.auto_tune
            &&& c.maker_fee_bps == 0
            &&& c.taker_fee_bps == 0
        }),
{
}

/// Requests become limit orders, in order, with what they ask for, at the time of the
/// callback; those from the first one on whose side is not 1, -1 or 0, at `n`, do not.
pub proof fn law_requests_become_orders(
    requests: Seq<OrderRequest>,
    ts_local: i64,
    n: int,
    i: int,
)
    requires
        0 <= n <= requests.len(),
        forall|k: int| 0 <= k < n ==> -1 <= (#[trigger] requests[k]).side <= 1,
        n < requests.len() ==> !(-1 <= requests[n].side <= 1),
    ensures
        accepted(requests, ts_local).len() == n,
        0 <= i < n ==> (accepted(requests, ts_local)[i] matches Command::SubmitOrder(order) && {
            &&& order.price == requests[i].price
            &&& order.qty == requests[i].qty
            &&& order.symbol_id == requests[i].symbol_id
            &&& order.seq == requests[i].seq
            &&& order.ts_submit == ts_local
            &&& order.order_type is Limit
            &&& order.side is Buy <==> requests[i].side == 1
            &&& order.side is Sell <==> requests[i].side == -1
        }),
    decreases requests.len(),
{
    if n > 0 {
        let rest = requests.drop_first();
        assert(-1 <= requests[0].side <= 1);
        assert forall|k: int| 0 <= k < n - 1 implies -1 <= (#[trigger] rest[k]).side <= 1 by {
            assert(rest[k] == requests[k + 1]);
        }
        law_requests_become_orders(rest, ts_local, n - 1, i - 1);
        let first = seq![Command::SubmitOrder(requests[0].order(ts_local))];
        let all = accepted(requests, ts_local);
        assert(all == first + accepted(rest, ts_local));
        if i == 0 {
            assert(all[0] == first[0]);
        } else if 0 < i < n {
            assert(all[i] == accepted(rest, ts_local)[i - 1]);
            assert(rest[i - 1] == requests[i]);
        }
    }
}

/// Events that are handed to a run are scheduled at their times, numbered in the order in
/// which they come, each once; nothing else changes.
pub proof fn law_events_are_scheduled<Q: QueueModel>(
    s: SimView<Q>,
    events: Seq<(i64, EventKind)>,
    i: int,
)
    requires
        s.next_event_seq + events.len() <= u64::MAX,
        0 <= i < events.len(),
    ensures
        ({
            let after = with_events(s, events);
            &&& after == (SimView {
                queue: after.queue,
                next_event_seq: (s.next_event_seq + events.len()) as u64,
                ..s
            })
            &&& after.queue.len() == s.queue.len() + events.len()
            &&& after.queue.contains(
                Event {
                    id: EventId { ts_sim: events[i].0, seq: (s.next_event_seq + i) as u64 },
                    kind: events[i].1,
                },
            )
        }),
    decreases events.len(),
{
    let front = events.drop_last();
    let before = with_events(s, front);
    if front.len() > 0 {
        law_events_are_scheduled(
            s,
            front,
            if i < front.len() {
                i
            } else {
                0
            },
        );
    }
    let new = Event {
        id: EventId { ts_sim: events.last().0, seq: before.next_event_seq },
        kind: events.last().1,
    };
    let after = with_events(s, events);
    assert(after.queue == before.queue.insert(new));
    if i < front.len() {
        let e = Event {
            id: EventId { ts_sim: events[i].0, seq: (s.next_event_seq + i) as u64 },
            kind: events[i].1,
        };
        assert(before.queue.contains(e));
        assert(after.queue.count(e) >= before.queue.count(e));
    } else {
        assert(events[i] == events.last());
        assert(after.queue.count(new) == before.queue.count(new) + 1);
    }
}

/// A log that is not off leads to the statistics, the history and the curve of what it holds;
/// one that is off to none.
pub proof fn law_summary_is_of_the_log(log: LogView)
    ensures
        !(log.mode is Off) ==> log_stats(log) == stats_of(log.stats) && log_history(log)
            == log.pnl_history && log_equity(log) == equity_curve(log.pnl_history),
        log.mode is Off ==> log_history(log).len() == 0 && log_equity(log).len() == 0 && log_stats(
            log,
        ).total_trades == 0 && log_stats(log).total_pnl == 0,
{
}

/// The names of the log modes, in lower case: `all`, `summaryonly`, `none` and whatever
/// begins with `ringbuffer`, which keeps the last 10 000 fills; any other name keeps all.
pub proof fn law_log_modes_by_name(text: Seq<char>)
    ensures
        mode_named("all"@) is All,
        mode_named("summaryonly"@) is SummaryOnly,
        mode_named("none"@) is Off,
        begins_with(text, "ringbuffer"@) ==> mode_named(text) == TradeLogMode::RingBuffer(10_000),
        text != "summaryonly"@ && text != "none"@ && !begins_with(text, "ringbuffer"@)
            ==> mode_named(text) is All,
{
    reveal_strlit("all");
    reveal_strlit("summaryonly");
    reveal_strlit("none");
    reveal_strlit("ringbuffer");
    assert("all"@.len() == 3 && "none"@.len() == 4 && "summaryonly"@.len() == 11);
    if begins_with(text, "ringbuffer"@) {
        assert(text.take(10)[0] == text[0]);
        assert(text[0] == 'r');
        assert("summaryonly"@[0] == 's');
    }
}

/// How a script is called: with one item by its method for items where it has one, with a
/// batch by its method for lists where it has one; by the other else; and not at all where it
/// has neither. Said of whatever the two functions return.
pub proof fn law_scripts_are_called(has_each: bool, has_list: bool, one: Callback, batch: Callback)
    requires
        call_ensures(callback_for_one, (has_each, has_list), one),
        call_ensures(callback_for_batch, (has_each, has_list), batch),
    ensures
        has_each ==> one is Each,
        has_list ==> batch is List,
        has_each && !has_list ==> batch is Each,
        has_list && !has_each ==> one is List,
        !has_each && !has_list ==> one is Skip && batch is Skip,
{
}

} // verus!
