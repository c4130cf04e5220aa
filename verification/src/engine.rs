//! The discrete-event simulation engine.
use std::time::Instant;
use vstd::multiset::Multiset;
use vstd::prelude::*;
use vstd::string::StringExecFns;

use crate::account::Account;
use crate::callbacks::{
    batch_of_reports, batch_of_ticks, breaks, breaks_on_event, breaks_on_flush, event_call, hears,
    hears_event, hears_flush, hears_wakeup, is_woken, lemma_breaks_on_event,
    lemma_breaks_on_wakeup, lemma_hears, may_end_as, may_take,
};
use crate::event::{Event, EventKind};
use crate::event_queue::is_next;
use crate::exchange_simulator::ExchangeView;
use crate::feeds::{
    book_view, takes_all, tick_view, FeedError, FeedItem, Feeds, FeedsView, Place,
};
use crate::l3_source::{AnyL3Source, L3Source};
use crate::latency_model::LatencyModel;
use crate::math::clamp_i64;
use crate::queue_model::QueueModel;
use crate::rng::SeededRng;
use crate::sim_state::SimState;
use crate::sim_view::{maker_fills, next_ts, Outcome, SimView};
use crate::stats::{calculate_stats, stats_of, BacktestStats, StatsView, TradeLog};
use crate::strategy::{may_hear, ContextView, Notice};
use crate::text::{digits, digits_text};
use crate::tick_source::{AnyTickSource, TickSource, TickSourceError};
use crate::types::{Order, OrderReport, OrderType, TsSimNs};

pub use crate::fees::compute_fee;
pub use crate::sim_view::{EngineConfig, EngineMode};
pub use crate::strategy::{Command, Context, MarketView, Strategy};

verus! {

/// `std::time::Instant`, carried through as it is.
#[verifier::external_type_specification]
#[verifier::external_body]
pub struct ExInstant(std::time::Instant);

/// `Instant::now`. Nothing is claimed of the time.
#[verifier::external_body]
fn clock_now() -> (r: Instant)
{
    Instant::now()
}

/// `Instant::elapsed`, in nanoseconds. Nothing is claimed of the time.
#[verifier::external_body]
fn elapsed_ns(start: &Instant) -> (r: i64)
{
    start.elapsed().as_nanos() as i64
}

#[derive(Debug)]
pub enum EngineError<StrategyError> {
    TickSource(TickSourceError),
    Strategy(StrategyError),
    Internal(String),
}

impl<StrategyError> EngineError<StrategyError> {
    /// The text of an error that is not the strategy's own.
    pub fn message(&self) -> (r: Option<String>)
        ensures
            match self {
                EngineError::TickSource(error) => r matches Some(text) && text@ == error.text(),
                EngineError::Strategy(_) => r is None,
                EngineError::Internal(message) => r matches Some(text) && text@ == message@,
            },
    {
        match self {
            EngineError::TickSource(error) => Some(error.message()),
            EngineError::Strategy(_) => None,
            EngineError::Internal(message) => Some(message.clone()),
        }
    }
}

/// Discrete-event simulation engine.
#[verifier::reject_recursive_types(Q)]
#[verifier::reject_recursive_types(S)]
#[verifier::reject_recursive_types(L)]
pub struct Engine<Q: QueueModel + Copy, S: Strategy, L: LatencyModel> {
    state: SimState<Q>,
    strategy: S,
    latency_model: L,
    rng: SeededRng,
    feeds: Feeds<AnyTickSource, AnyL3Source>,
}

impl<Q: QueueModel + Copy, S: Strategy, L: LatencyModel> View for Engine<Q, S, L> {
    type V = SimView<Q>;

    closed spec fn view(&self) -> SimView<Q> {
        self.state@
    }
}

impl<Q: QueueModel + Copy, S: Strategy, L: LatencyModel> Engine<Q, S, L> {
    /// The parts are well formed.
    pub closed spec fn wf(&self) -> bool {
        self.state.wf() && self.feeds.wf()
    }

    /// The market data that waits.
    pub closed spec fn sources(&self) -> FeedsView {
        self.feeds@
    }

    /// The strategy.
    pub closed spec fn trader(&self) -> S {
        self.strategy
    }

    /// The latency model.
    pub closed spec fn latency(&self) -> L {
        self.latency_model
    }

    /// The generator that the latency model draws from.
    pub closed spec fn dice(&self) -> SeededRng {
        self.rng
    }

    /// The state of the simulation, of its sources, of the strategy and of the generator.
    pub open spec fn stage(&self) -> Stage<Q, S, L> {
        Stage {
            sim: self@,
            feeds: self.sources(),
            trader: self.trader(),
            latency: self.latency(),
            rng: self.dice(),
        }
    }

    pub fn new(queue_model: Q, strategy: S, config: EngineConfig, latency_model: L) -> (r: Self)
        ensures
            r.wf(),
            r@ == SimView::fresh(queue_model, config),
            r.trader() == strategy,
            r.latency() == latency_model,
            r.dice().seed() == config.seed,
            r.sources() == FeedsView::nothing(),
    {
        Engine {
            state: SimState::new(queue_model, config),
            strategy,
            latency_model,
            rng: SeededRng::new(config.seed),
            feeds: Feeds::new(),
        }
    }

    pub fn config(&self) -> (r: &EngineConfig)
        ensures
            *r == self@.config,
    {
        self.state.config()
    }

    /// Adds a stream of ticks to the market data.
    pub fn add_tick_source(&mut self, source: Box<dyn TickSource>)
        requires
            old(self).wf(),
        ensures
            final(self).wf(),
            final(self)@ == old(self)@,
            final(self).sources() == old(self).sources().with_ticks(
                tick_view(AnyTickSource(source)),
            ),
            final(self).trader() == old(self).trader(),
            final(self).latency() == old(self).latency(),
            final(self).dice() == old(self).dice(),
    {
        self.feeds.add_tick_source(AnyTickSource(source));
    }

    /// Adds a stream of order-by-order updates to the market data. The exchange of its
    /// symbol keeps an order-by-order book from then on, unless it has another already.
    pub fn add_l3_source(&mut self, source: Box<dyn L3Source>)
        requires
            old(self).wf(),
        ensures
            final(self).wf(),
            final(self).sources() == old(self).sources().with_books(
                book_view(AnyL3Source(source)),
            ),
            final(self)@ == if old(self)@.exchanges.contains_key(source.symbol()) {
                old(self)@
            } else {
                old(self)@.with_exchange(
                    source.symbol(),
                    ExchangeView::fresh(old(self)@.model, true),
                )
            },
            final(self).trader() == old(self).trader(),
            final(self).latency() == old(self).latency(),
            final(self).dice() == old(self).dice(),
    {
        let symbol_id: u32 = source.symbol_id();
        self.state.ensure_l3_exchange(symbol_id);
        self.feeds.add_l3_source(AnyL3Source(source));
    }

    pub fn strategy(&self) -> (r: &S)
        ensures
            *r == self.trader(),
    {
        &self.strategy
    }

    pub fn market_view(&self) -> (r: &MarketView)
        ensures
            r@ == self@.market,
    {
        self.state.market()
    }

    pub fn account(&self) -> (r: &Account)
        ensures
            r@ == self@.account,
    {
        self.state.account()
    }

    pub fn trade_log(&self) -> (r: &TradeLog)
        ensures
            r@ == self@.log,
    {
        self.state.trade_log()
    }

    pub fn stats(&self) -> (r: BacktestStats)
        ensures
            r == if self@.log.mode is Off {
                stats_of(StatsView::zero())
            } else {
                stats_of(self@.log.stats)
            },
    {
        calculate_stats(self.state.trade_log())
    }

    /// The number of orders that are known, from their submission until they are done.
    pub fn known_order_count(&self) -> (r: usize)
        ensures
            r == self@.routes.len(),
    {
        self.state.known_order_count()
    }

    /// An order as the exchange of a symbol holds it.
    pub fn order_at_exchange(&self, symbol_id: u32, order_id: u64) -> (r: Option<Order>)
        ensures
            r == if self@.exchange(symbol_id).orders.contains_key(order_id) {
                Some(self@.exchange(symbol_id).orders[order_id].order)
            } else {
                None
            },
    {
        self.state.order_at_exchange(symbol_id, order_id)
    }

    pub fn push_event(&mut self, ts_sim: TsSimNs, kind: EventKind)
        requires
            old(self).wf(),
        ensures
            final(self).wf(),
            final(self)@ == old(self)@.pushed(ts_sim, kind),
            final(self).sources() == old(self).sources(),
            final(self).trader() == old(self).trader(),
            final(self).latency() == old(self).latency(),
            final(self).dice() == old(self).dice(),
    {
        self.state.push_event(ts_sim, kind);
    }

    /// Takes in the market data that is due before or with the next queued event.
    fn ingest(&mut self) -> (r: Result<Ghost<Seq<FeedItem>>, EngineError<S::Error>>)
        requires
            old(self).wf(),
        ensures
            final(self).wf(),
            r matches Err(e) ==> fails_to_feed(old(self)@, old(self).sources(), final(self)@, e),
            final(self).trader() == old(self).trader(),
            final(self).latency() == old(self).latency(),
            final(self).dice() == old(self).dice(),
            r matches Ok(items) ==> {
                &&& final(self)@ == old(self)@.fed_all(items@)
                &&& is_intake(old(self)@, old(self).sources(), items@, final(self).sources())
            },
    {
        let ghost start = self@;
        let ghost mut items: Seq<FeedItem> = Seq::empty();
        let ghost mut states: Seq<FeedsView> = seq![self.sources()];
        let mut budget: u64 = u64::MAX;
        while budget > 0
            invariant
                self.wf(),
                self@ == start.fed_all(items),
                start == old(self)@,
                self.trader() == old(self).trader(),
                self.latency() == old(self).latency(),
                self.dice() == old(self).dice(),
                items.len() + budget == u64::MAX,
                forall|i: int|
                    0 <= i < items.len() ==> is_due(
                        start.fed_all(items.take(i)),
                        #[trigger] items[i],
                    ),
                takes_all(states, items),
                states.first() == old(self).sources(),
                states.last() == self.sources(),
            decreases budget,
        {
            budget = budget - 1;
            let next_queue_ts: Option<i64> = self.state.next_event_ts();
            let limit: i64 = match next_queue_ts {
                Some(ts) => ts,
                None => i64::MAX,
            };
            match self.feeds.next_due(limit) {
                Ok(Some(item)) => {
                    self.state.feed(item);
                    proof {
                        let more = items.push(item);
                        assert(more.drop_last() =~= items);
                        assert forall|i: int| 0 <= i < more.len() implies is_due(
                            start.fed_all(more.take(i)),
                            #[trigger] more[i],
                        ) by {
                            assert(more.take(i) =~= items.take(i));
                            if i < items.len() {
                                assert(more[i] == items[i]);
                            } else {
                                assert(items.take(i) =~= items);
                            }
                        }
                        lemma_one_more_taken(states, items, item, self.feeds@);
                        items = more;
                        states = states.push(self.feeds@);
                    }
                },
                Ok(None) => {
                    assert(old(self).sources().gives(items, self.sources())) by {
                        assert(takes_all(states, items));
                    }
                    return Ok(Ghost(items));
                },
                Err(FeedError::Source(e)) => {
                    proof {
                        assert(old(self).sources().gives(items, states.last()));
                        assert(is_taken(start, old(self).sources(), items, states.last()));
                    }
                    return Err(EngineError::TickSource(e));
                },
                Err(FeedError::NoNextItem { source_idx }) => {
                    return Err(EngineError::Internal(no_next_item_message(source_idx)));
                },
            }
        }
        proof {
            assert(old(self).sources().gives(items, states.last()));
            assert(is_taken(start, old(self).sources(), items, states.last()));
        }
        Err(EngineError::Internal(String::from_str("market data never ends")))
    }

    /// Processes the event that the clock has moved to, but for the wake-up. The order
    /// that a cancel request names is known.
    fn dispatch(&mut self, event: &Event) -> (r: Result<Ghost<Outcome>, EngineError<S::Error>>)
        requires
            old(self).wf(),
            !old(self)@.is_unknown_cancel(event.kind),
        ensures
            final(self).wf(),
            final(self).feeds == old(self).feeds,
            final(self).latency_model == old(self).latency_model,
            match r {
                Ok(x) => {
                    &&& !old(self)@.depth_clash(event.kind)
                    &&& final(self)@ == old(self)@.handled(event.kind, x@.commands, x@.delay)
                    &&& hears_event(
                        old(self).strategy,
                        old(self)@,
                        event.kind,
                        x@.commands,
                        final(self).strategy,
                    )
                    &&& may_take(
                        old(self).latency_model,
                        old(self)@,
                        event.kind,
                        old(self).rng,
                        x@.delay,
                        final(self).rng,
                    )
                },
                Err(EngineError::Internal(message)) => {
                    &&& old(self)@.depth_clash(event.kind)
                    &&& message@ == depth_clash_text(event.kind)
                    &&& final(self)@ == old(self)@
                    &&& final(self).strategy == old(self).strategy
                    &&& final(self).rng == old(self).rng
                },
                Err(EngineError::Strategy(_)) => {
                    &&& breaks_on_event(
                        old(self).strategy,
                        old(self)@,
                        event.kind,
                        final(self)@,
                        final(self).strategy,
                    )
                    &&& !old(self)@.depth_clash(event.kind)
                    &&& final(self).rng == old(self).rng
                },
                Err(EngineError::TickSource(_)) => false,
            },
    {
        let ghost start = self@;
        let ghost trader = self.strategy;
        let ghost mut x = Outcome {
            items: Seq::empty(),
            commands: Seq::empty(),
            delay: 0,
            flush: Seq::empty(),
            duration: 0,
        };
        match event.kind {
            EventKind::Tick(tick) => {
                self.state.on_truth_tick(tick);
            },
            EventKind::TickDelivery(tick) => {
                // Strategy view updates only on delivered ticks.
                self.state.on_tick_delivery(tick);
                if self.state.config().mode == EngineMode::Tick {
                    let mut ctx = Context::new(tick.ts_local, self.state.market());
                    match self.strategy.on_tick(&tick, &mut ctx) {
                        Ok(()) => {},
                        Err(e) => {
                            proof {
                                let (notice, before) = event_call(start, event.kind).unwrap();
                                assert(may_hear(trader, notice, before, ctx@, false, self.strategy));
                            }
                            return Err(EngineError::Strategy(e));
                        },
                    }
                    let ghost seen = ctx@;
                    let commands: Vec<Command> = ctx.into_commands();
                    proof {
                        let (notice, before) = event_call(start, event.kind).unwrap();
                        assert(may_hear(trader, notice, before, seen, true, self.strategy));
                        x = Outcome { commands: commands@, ..x };
                    }
                    self.state.handle_commands(&commands, tick.ts_local);
                }
            },
            EventKind::L2Update(update) => {
                match self.state.on_l2_update(update) {
                    Ok(()) => {},
                    Err(e) => {
                        return Err(EngineError::Internal(String::from_str(e)));
                    },
                }
            },
            EventKind::L3Update(update) => {
                match self.state.on_l3_update(update) {
                    Ok(()) => {},
                    Err(e) => {
                        return Err(EngineError::Internal(String::from_str(e)));
                    },
                }
            },
            EventKind::Order(order) => {
                if order.order_type == OrderType::Market {
                    self.state.on_market_order(order);
                } else {
                    let now: i64 = self.state.now();
                    let delay: i64 = self.latency_model.sample_order_latency(
                        now,
                        self.rng.generator(),
                    );
                    proof {
                        x = Outcome { delay, ..x };
                    }
                    self.state.on_limit_order(order, delay);
                }
            },
            EventKind::OrderAck { order_id } => {
                self.state.on_order_ack(order_id);
            },
            EventKind::OrderCancel { order_id } => {
                if self.state.on_cancel_request(order_id) {
                    let now: i64 = self.state.now();
                    let delay: i64 = self.latency_model.sample_order_latency(
                        now,
                        self.rng.generator(),
                    );
                    proof {
                        x = Outcome { delay, ..x };
                    }
                    self.state.schedule_cancel_ack(order_id, delay);
                }
            },
            EventKind::OrderCancelAck { order_id } => {
                self.state.on_cancel_ack(order_id);
            },
            EventKind::OrderReport(report) => {
                self.state.on_report(report);
                if self.state.config().mode == EngineMode::Tick {
                    let now: i64 = self.state.now();
                    let mut ctx = Context::new(now, self.state.market());
                    match self.strategy.on_order_update(&report, &mut ctx) {
                        Ok(()) => {},
                        Err(e) => {
                            proof {
                                let (notice, before) = event_call(start, event.kind).unwrap();
                                assert(may_hear(trader, notice, before, ctx@, false, self.strategy));
                            }
                            return Err(EngineError::Strategy(e));
                        },
                    }
                    let ghost seen = ctx@;
                    let commands: Vec<Command> = ctx.into_commands();
                    proof {
                        let (notice, before) = event_call(start, event.kind).unwrap();
                        assert(may_hear(trader, notice, before, seen, true, self.strategy));
                        x = Outcome { commands: commands@, ..x };
                    }
                    self.state.handle_commands(&commands, now);
                }
            },
            EventKind::Funding(funding) => {
                self.state.on_funding(funding);
                let now: i64 = self.state.now();
                let mut ctx = Context::new(now, self.state.market());
                match self.strategy.on_funding(&funding, &mut ctx) {
                    Ok(()) => {},
                    Err(e) => {
                        proof {
                            let (notice, before) = event_call(start, event.kind).unwrap();
                            assert(may_hear(trader, notice, before, ctx@, false, self.strategy));
                        }
                        return Err(EngineError::Strategy(e));
                    },
                }
                let ghost seen = ctx@;
                let commands: Vec<Command> = ctx.into_commands();
                proof {
                    let (notice, before) = event_call(start, event.kind).unwrap();
                    assert(may_hear(trader, notice, before, seen, true, self.strategy));
                    x = Outcome { commands: commands@, ..x };
                }
                self.state.handle_commands(&commands, now);
            },
            EventKind::Timer { timer_id } => {
                self.state.on_timer(timer_id);
            },
        }
        Ok(Ghost(x))
    }

    /// Wakes the strategy with everything that waits for it.
    fn flush_strategy(&mut self, ts_local: i64) -> (r: Result<
        Ghost<Outcome>,
        EngineError<S::Error>,
    >)
        requires
            old(self).wf(),
        ensures
            final(self).wf(),
            final(self).feeds == old(self).feeds,
            final(self).latency_model == old(self).latency_model,
            final(self).rng == old(self).rng,
            match r {
                Ok(x) => {
                    &&& final(self)@ == old(self)@.flushed(ts_local, x@.flush, x@.duration)
                    &&& hears_flush(
                        old(self).strategy,
                        old(self)@,
                        ts_local,
                        x@.flush,
                        final(self).strategy,
                    )
                },
                Err(e) => {
                    &&& e is Strategy
                    &&& old(self)@.has_buffered()
                    &&& breaks_on_flush(
                        old(self).strategy,
                        old(self)@,
                        ts_local,
                        final(self)@,
                        final(self).strategy,
                    )
                },
            },
    {
        let ghost start = self@;
        let ghost trader = self.strategy;
        let ghost mut x = Outcome {
            items: Seq::empty(),
            commands: Seq::empty(),
            delay: 0,
            flush: Seq::empty(),
            duration: 0,
        };
        let items: u64 = self.state.buffered_count();
        if items == 0 {
            proof {
                let fresh = ContextView::fresh(ts_local, start.market);
                assert(may_end_as(trader, batch_of_reports(start), fresh, fresh, trader));
            }
            return Ok(Ghost(x));
        }
        // Any early flush invalidates the pending time-based wakeup timer.
        self.state.cancel_timer();
        let started: Instant = clock_now();
        let has_reports: bool = self.state.buffered_reports().len() > 0;
        let mut ctx = Context::new(ts_local, self.state.market());
        let ghost fresh = ctx@;
        if self.state.buffered_ticks().len() > 0 {
            match self.strategy.on_ticks(self.state.buffered_ticks(), &mut ctx) {
                Ok(()) => {},
                Err(e) => {
                    assert(may_hear(
                        trader,
                        Notice::Ticks(start.ticks),
                        fresh,
                        ctx@,
                        false,
                        self.strategy,
                    ));
                    assert(self@ =~= (SimView { timer: None, ..start }));
                    return Err(EngineError::Strategy(e));
                },
            }
            assert(may_hear(
                trader,
                Notice::Ticks(start.ticks),
                fresh,
                ctx@,
                true,
                self.strategy,
            ));
        }
        let ghost mid = self.strategy;
        let ghost between = ctx@;
        assert(may_end_as(trader, batch_of_ticks(start), fresh, between, mid));
        let mut failed: Option<S::Error> = None;
        if has_reports {
            match self.strategy.on_order_updates(self.state.buffered_reports(), &mut ctx) {
                Ok(()) => {},
                Err(e) => {
                    failed = Some(e);
                },
            }
            assert(may_hear(
                mid,
                Notice::OrderUpdates(start.reports),
                between,
                ctx@,
                failed is None,
                self.strategy,
            ));
        }
        let ghost seen = ctx@;
        let commands: Vec<Command> = ctx.into_commands();
        self.state.clear_ticks();
        if let Some(e) = failed {
            assert(self@ =~= (SimView { timer: None, ticks: Seq::empty(), ..start }));
            return Err(EngineError::Strategy(e));
        }
        self.state.clear_reports();
        assert(self@ =~= (SimView {
            timer: None,
            ticks: Seq::empty(),
            reports: Seq::empty(),
            ..start
        }));
        self.state.handle_commands(&commands, ts_local);
        let duration: i64 = elapsed_ns(&started);
        self.state.tune(duration, items);
        proof {
            assert(may_end_as(mid, batch_of_reports(start), between, seen, self.strategy));
            x = Outcome { flush: commands@, duration, ..x };
        }
        Ok(Ghost(x))
    }

    /// Wakes the strategy in batch mode, where that was asked for and no other event has
    /// the same time.
    fn wake_up(&mut self, wakeup_requested: bool) -> (r: Result<
        Ghost<Outcome>,
        EngineError<S::Error>,
    >)
        requires
            old(self).wf(),
        ensures
            final(self).wf(),
            final(self).feeds == old(self).feeds,
            final(self).latency_model == old(self).latency_model,
            final(self).rng == old(self).rng,
            match r {
                Ok(x) => {
                    &&& final(self)@ == old(self)@.woken(
                        wakeup_requested,
                        x@.flush,
                        x@.duration,
                    )
                    &&& hears_wakeup(
                        old(self).strategy,
                        old(self)@,
                        wakeup_requested,
                        x@.flush,
                        final(self).strategy,
                    )
                },
                Err(e) => {
                    &&& e is Strategy
                    &&& is_woken(old(self)@, wakeup_requested)
                    &&& breaks_on_flush(
                        old(self).strategy,
                        old(self)@,
                        old(self)@.now,
                        final(self)@,
                        final(self).strategy,
                    )
                },
            },
    {
        let ghost nothing = Outcome {
            items: Seq::empty(),
            commands: Seq::empty(),
            delay: 0,
            flush: Seq::empty(),
            duration: 0,
        };
        if self.state.config().mode == EngineMode::Batch && (wakeup_requested
            || self.state.is_wakeup_pending()) {
            let now: i64 = self.state.now();
            let busy: bool = match self.state.next_event_ts() {
                Some(ts) => ts == now,
                None => false,
            };
            if busy {
                // Cannot flush yet because events with same timestamp exist.
                self.state.set_pending_wakeup(true);
                Ok(Ghost(nothing))
            } else {
                match self.flush_strategy(now) {
                    Ok(x) => {
                        self.state.set_pending_wakeup(false);
                        Ok(x)
                    },
                    Err(e) => Err(e),
                }
            }
        } else {
            Ok(Ghost(nothing))
        }
    }

    /// Processes the event that the clock has moved to.
    fn take_up(&mut self, event: &Event) -> (r: Result<Ghost<Outcome>, EngineError<S::Error>>)
        requires
            old(self).wf(),
        ensures
            final(self).wf(),
            final(self).feeds == old(self).feeds,
            final(self).latency_model == old(self).latency_model,
            match r {
                Ok(x) => {
                    &&& !old(self)@.depth_clash(event.kind)
                    &&& final(self)@ == old(self)@.taken_up(event.kind, x@)
                    &&& hears(
                        old(self).strategy,
                        old(self)@,
                        event.kind,
                        x@,
                        final(self).strategy,
                    )
                    &&& may_take(
                        old(self).latency_model,
                        old(self)@,
                        event.kind,
                        old(self).rng,
                        x@.delay,
                        final(self).rng,
                    )
                },
                Err(EngineError::Internal(message)) => {
                    &&& old(self)@.depth_clash(event.kind)
                    &&& message@ == depth_clash_text(event.kind)
                    &&& final(self)@ == old(self)@
                    &&& final(self).strategy == old(self).strategy
                    &&& final(self).rng == old(self).rng
                },
                Err(EngineError::Strategy(_)) => exists|x: Outcome| #[trigger]
                    breaks(
                        old(self).strategy,
                        old(self)@,
                        event.kind,
                        x,
                        final(self)@,
                        final(self).strategy,
                    ) && !old(self)@.depth_clash(event.kind) && may_take(
                        old(self).latency_model,
                        old(self)@,
                        event.kind,
                        old(self).rng,
                        x.delay,
                        final(self).rng,
                    ),
                Err(EngineError::TickSource(_)) => false,
            },
    {
        let ghost at = self@;
        let ghost trader = self.strategy;
        if let EventKind::OrderCancel { order_id } = event.kind {
            if !self.state.knows_order(order_id) {
                // Unknown order_id: ignore.
                let ghost nothing = Outcome {
                    items: Seq::empty(),
                    commands: Seq::empty(),
                    delay: 0,
                    flush: Seq::empty(),
                    duration: 0,
                };
                proof {
                    lemma_ignored(at, trader, event.kind, nothing);
                }
                return Ok(Ghost(nothing));
            }
        }
        let wakeup: bool = match event.kind {
            EventKind::OrderReport(_) | EventKind::Funding(_) => true,
            EventKind::Timer { timer_id } => self.state.is_batch_timer(timer_id),
            _ => false,
        };
        assert(wakeup == at.asks_wakeup(event.kind));
        let done: Ghost<Outcome> = match self.dispatch(event) {
            Ok(x) => x,
            Err(e) => {
                proof {
                    if e is Strategy {
                        let x = Outcome {
                            items: Seq::empty(),
                            commands: Seq::empty(),
                            delay: 0,
                            flush: Seq::empty(),
                            duration: 0,
                        };
                        lemma_breaks_on_event(trader, at, event.kind, x, self@, self.strategy);
                    }
                }
                return Err(e);
            },
        };
        let ghost mid = self.strategy;
        let woken: Ghost<Outcome> = match self.wake_up(wakeup) {
            Ok(x) => x,
            Err(e) => {
                proof {
                    lemma_breaks_on_wakeup(
                        trader,
                        at,
                        event.kind,
                        done@,
                        mid,
                        self@,
                        self.strategy,
                    );
                }
                return Err(e);
            },
        };
        let ghost x = Outcome { flush: woken@.flush, duration: woken@.duration, ..done@ };
        proof {
            lemma_taken_up(at, event.kind, x);
            lemma_hears(trader, at, event.kind, x, mid, self.strategy);
        }
        Ok(Ghost(x))
    }

    /// Processes the next event, after taking in the market data that is due before or
    /// with it. Returns `None` when nothing is left.
    pub fn step(&mut self) -> (r: Result<Option<Event>, EngineError<S::Error>>)
        requires
            old(self).wf(),
        ensures
            final(self).wf(),
            match r {
                Ok(Some(event)) => exists|x: Outcome| #[trigger]
                    is_move(old(self).stage(), final(self).stage(), event, x),
                Ok(None) => {
                    &&& final(self).stage() == old(self).stage()
                    &&& old(self)@.queue.len() == 0
                    &&& !final(self).sources().lost ==> final(self).sources().is_exhausted()
                },
                Err(e) => {
                    &&& stops_at(old(self).stage(), final(self).stage(), e)
                    &&& e is Strategy ==> exists|event: Event, x: Outcome| #[trigger]
                        is_break(old(self).stage(), final(self).stage(), event, x)
                },
            },
    {
        let ghost start = self@;
        let items: Ghost<Seq<FeedItem>> = match self.ingest() {
            Ok(items) => items,
            Err(e) => {
                return Err(e);
            },
        };
        let ghost mid = *self;
        let ghost fed = self@;
        let event: Event = match self.state.pop_event() {
            Some(event) => event,
            None => {
                proof {
                    lemma_feeding_fills_queue(start, items@);
                    assert(items@ =~= Seq::empty());
                    lemma_no_items_change_nothing(old(self).sources(), mid.sources());
                }
                return Ok(None);
            },
        };
        let ghost at = self@;
        proof {
            lemma_next_ts(fed.queue, event);
        }
        match self.take_up(&event) {
            Ok(x) => {
                proof {
                    let y = Outcome { items: items@, ..x@ };
                    lemma_taken_up_without_items(at, event.kind, x@, items@);
                    lemma_hears_without_items(
                        mid.strategy,
                        at,
                        event.kind,
                        x@,
                        items@,
                        self.strategy,
                    );
                    assert(is_step(start, self@, event, y));
                    assert(is_move(old(self).stage(), self.stage(), event, y));
                }
                Ok(Some(event))
            },
            Err(e) => {
                proof {
                    if e is Internal {
                        assert(meets_wrong_depth(
                            old(self).stage(),
                            items@,
                            event,
                            self.sources(),
                        ));
                    } else {
                        let x = choose|x: Outcome| #[trigger]
                            breaks(mid.strategy, at, event.kind, x, self@, self.strategy)
                                && may_take(
                                mid.latency_model,
                                at,
                                event.kind,
                                mid.rng,
                                x.delay,
                                self.rng,
                            );
                        let y = Outcome { items: items@, ..x };
                        lemma_breaks_without_items(
                            mid.strategy,
                            at,
                            event.kind,
                            x,
                            items@,
                            self@,
                            self.strategy,
                        );
                        assert(is_break(old(self).stage(), self.stage(), event, y));
                    }
                }
                Err(e)
            },
        }
    }

    /// Processes events until nothing is left, and flushes what waits in batch mode.
    #[verifier::spinoff_prover]
    pub fn run(&mut self) -> (r: Result<(), EngineError<S::Error>>)
        requires
            old(self).wf(),
        ensures
            final(self).wf(),
            match r {
                Ok(()) => {
                    &&& leads_to(old(self).stage(), final(self).stage())
                    &&& is_finished(final(self)@)
                    &&& !final(self).sources().lost ==> final(self).sources().is_exhausted()
                },
                Err(e) => stops_with(old(self).stage(), final(self).stage(), e),
            },
    {
        let ghost mut trace: Seq<Stage<Q, S, L>> = seq![self.stage()];
        assert(is_trace(trace));
        let mut budget: u64 = u64::MAX;
        while budget > 0
            invariant
                self.wf(),
                is_trace(trace),
                trace.len() + budget == u64::MAX + 1,
                trace.first() == old(self).stage(),
                trace.last() == self.stage(),
            decreases budget,
        {
            budget = budget - 1;
            let ghost before = self.stage();
            match self.step() {
                Ok(Some(event)) => {
                    proof {
                        assert(moves(before, self.stage()));
                        lemma_trace_grows(trace, self.stage());
                        trace = trace.push(self.stage());
                    }
                },
                Ok(None) => {
                    // Final flush for batch mode: if we have buffered deliveries, wake the
                    // strategy once; it may schedule new events, so keep running until stable.
                    if self.state.config().mode == EngineMode::Batch
                        && self.state.buffered_count() > 0 {
                        let now: i64 = self.state.now();
                        match self.flush_strategy(now) {
                            Ok(x) => {
                                proof {
                                    assert(moves(before, self.stage())) by {
                                        assert(is_last_move(before, self.stage(), x@));
                                    }
                                    lemma_trace_grows(trace, self.stage());
                                    trace = trace.push(self.stage());
                                }
                            },
                            Err(e) => {
                                proof {
                                    assert(leads_to(old(self).stage(), before));
                                    assert(is_last_break(before, self.stage()));
                                    assert(stops_at(before, self.stage(), e));
                                }
                                return Err(e);
                            },
                        }
                    } else {
                        assert(is_trace(trace));
                        return Ok(());
                    }
                },
                Err(e) => {
                    proof {
                        assert(leads_to(old(self).stage(), before));
                    }
                    return Err(e);
                },
            }
        }
        assert(is_trace(trace) && trace.last() == self.stage());
        Err(EngineError::Internal(String::from_str("simulation never ends")))
    }
}

/// Whether an item of market data is due: no queued event comes before it.
pub open spec fn is_due<Q: QueueModel>(s: SimView<Q>, item: FeedItem) -> bool {
    next_ts(s.queue) matches Some(ts) ==> item.ts() <= ts
}

/// Whether these items may come in, one after the other, and leave the sources as `after`:
/// each is due when it is taken.
pub open spec fn is_taken<Q: QueueModel>(
    s: SimView<Q>,
    feeds: FeedsView,
    items: Seq<FeedItem>,
    after: FeedsView,
) -> bool {
    &&& feeds.gives(items, after)
    &&& forall|i: int|
        0 <= i < items.len() ==> is_due(s.fed_all(items.take(i)), #[trigger] items[i])
}

/// Whether these items are the market data that comes in before the next event, and leave
/// the sources as `after`: each is due when it is taken, none that is left is, and they can
/// be counted.
pub open spec fn is_intake<Q: QueueModel>(
    s: SimView<Q>,
    feeds: FeedsView,
    items: Seq<FeedItem>,
    after: FeedsView,
) -> bool {
    &&& is_taken(s, feeds, items, after)
    &&& items.len() < u64::MAX
    &&& !after.lost ==> forall|place: Place| #[trigger]
        after.waits(place) ==> !is_due(s.fed_all(items), after.item(place))
}

/// Whether the market data may fail to come in, with this error, where what came in before
/// leaves the simulation as `after`: a source may fail, or there are more items than can be
/// counted.
pub open spec fn fails_to_feed<Q: QueueModel, E>(
    s: SimView<Q>,
    feeds: FeedsView,
    after: SimView<Q>,
    error: EngineError<E>,
) -> bool {
    exists|items: Seq<FeedItem>, left: FeedsView|
        {
            &&& #[trigger] is_taken(s, feeds, items, left)
            &&& after == s.fed_all(items)
            &&& match error {
                EngineError::TickSource(_) => left.may_fail(),
                EngineError::Internal(message) => message@ == "market data never ends"@
                    && items.len() == u64::MAX,
                EngineError::Strategy(_) => false,
            }
        }
}

/// Whether these items may be the market data that comes in before the next event.
pub open spec fn has_intake<Q: QueueModel>(
    s: SimView<Q>,
    feeds: FeedsView,
    items: Seq<FeedItem>,
) -> bool {
    exists|after: FeedsView| #[trigger] is_intake(s, feeds, items, after)
}

/// Whether one step may lead from one state to the other by processing `event`: the
/// event is the next one once the market data of `x` came in, and depth of one kind
/// does not meet a book of the other.
pub open spec fn is_step<Q: QueueModel>(
    before: SimView<Q>,
    after: SimView<Q>,
    event: Event,
    x: Outcome,
) -> bool {
    let fed = before.fed_all(x.items);
    &&& is_next(fed.queue, event)
    &&& !fed.arrived(event).depth_clash(event.kind)
    &&& after == before.stepped(event, x)
}

/// Whether the next event, once market data came in, brings depth of one kind to a
/// book of the other.
pub open spec fn meets_wrong_depth<Q: QueueModel, S: Strategy, L: LatencyModel>(
    before: Stage<Q, S, L>,
    items: Seq<FeedItem>,
    event: Event,
    left: FeedsView,
) -> bool {
    &&& is_intake(before.sim, before.feeds, items, left)
    &&& is_next(before.sim.fed_all(items).queue, event)
    &&& before.at(items, event).depth_clash(event.kind)
}

/// Whether the flush at the end of a run leads from one state to the other.
pub open spec fn is_final_flush<Q: QueueModel>(
    before: SimView<Q>,
    after: SimView<Q>,
    x: Outcome,
) -> bool {
    &&& before.queue.len() == 0
    &&& before.config.mode is Batch
    &&& before.has_buffered()
    &&& after == before.flushed(before.now, x.flush, x.duration)
}

/// The state of a simulation, of the sources of its market data, of the strategy and of the
/// generator.
#[verifier::reject_recursive_types(Q)]
#[verifier::reject_recursive_types(S)]
#[verifier::reject_recursive_types(L)]
pub ghost struct Stage<Q: QueueModel, S: Strategy, L: LatencyModel> {
    pub sim: SimView<Q>,
    pub feeds: FeedsView,
    pub trader: S,
    pub latency: L,
    pub rng: SeededRng,
}

impl<Q: QueueModel, S: Strategy, L: LatencyModel> Stage<Q, S, L> {
    /// The simulation once market data came in and the clock moved to an event.
    pub open spec fn at(self, items: Seq<FeedItem>, event: Event) -> SimView<Q> {
        self.sim.fed_all(items).arrived(event)
    }
}

/// Whether one step may lead from one state to the other by processing `event`: the
/// market data of `x` comes from the sources, its commands from the strategy and its
/// delay from the latency model.
pub open spec fn is_move<Q: QueueModel, S: Strategy, L: LatencyModel>(
    before: Stage<Q, S, L>,
    after: Stage<Q, S, L>,
    event: Event,
    x: Outcome,
) -> bool {
    let at = before.at(x.items, event);
    &&& is_step(before.sim, after.sim, event, x)
    &&& is_intake(before.sim, before.feeds, x.items, after.feeds)
    &&& hears(before.trader, at, event.kind, x, after.trader)
    &&& may_take(before.latency, at, event.kind, before.rng, x.delay, after.rng)
    &&& after.latency == before.latency
}

/// Whether the flush at the end of a run may lead from one state to the other.
pub open spec fn is_last_move<Q: QueueModel, S: Strategy, L: LatencyModel>(
    before: Stage<Q, S, L>,
    after: Stage<Q, S, L>,
    x: Outcome,
) -> bool {
    &&& is_final_flush(before.sim, after.sim, x)
    &&& !before.feeds.lost ==> before.feeds.is_exhausted()
    &&& after.feeds == before.feeds
    &&& hears_flush(before.trader, before.sim, before.sim.now, x.flush, after.trader)
    &&& after.latency == before.latency
    &&& after.rng == before.rng
}

/// Whether the strategy may fail in a step that processes `event`, and leave this state.
pub open spec fn is_break<Q: QueueModel, S: Strategy, L: LatencyModel>(
    before: Stage<Q, S, L>,
    after: Stage<Q, S, L>,
    event: Event,
    x: Outcome,
) -> bool {
    let at = before.at(x.items, event);
    &&& is_intake(before.sim, before.feeds, x.items, after.feeds)
    &&& is_next(before.sim.fed_all(x.items).queue, event)
    &&& !at.depth_clash(event.kind)
    &&& breaks(before.trader, at, event.kind, x, after.sim, after.trader)
    &&& may_take(before.latency, at, event.kind, before.rng, x.delay, after.rng)
    &&& after.latency == before.latency
}

/// Whether the strategy may fail in the flush at the end of a run, and leave this state.
pub open spec fn is_last_break<Q: QueueModel, S: Strategy, L: LatencyModel>(
    before: Stage<Q, S, L>,
    after: Stage<Q, S, L>,
) -> bool {
    &&& before.sim.queue.len() == 0
    &&& !before.feeds.lost ==> before.feeds.is_exhausted()
    &&& before.sim.config.mode is Batch
    &&& before.sim.has_buffered()
    &&& breaks_on_flush(before.trader, before.sim, before.sim.now, after.sim, after.trader)
    &&& after == (Stage { sim: after.sim, trader: after.trader, ..before })
}

/// Whether the next step may bring depth of one kind to a book of the other, which `text`
/// says: market data came in and the event left the queue, and nothing else happened.
pub open spec fn mixes_depth<Q: QueueModel, S: Strategy, L: LatencyModel>(
    before: Stage<Q, S, L>,
    after: Stage<Q, S, L>,
    text: Seq<char>,
) -> bool {
    exists|items: Seq<FeedItem>, event: Event|
        {
            &&& #[trigger] meets_wrong_depth(before, items, event, after.feeds)
            &&& text == depth_clash_text(event.kind)
            &&& after == (Stage {
                sim: before.at(items, event),
                feeds: after.feeds,
                ..before
            })
        }
}

/// Whether a step, or the flush at the end, may fail with this error and leave this state:
/// the market data fails to come in, the strategy fails, or depth of one kind meets a book
/// of the other. Of the sources nothing is said where they fail.
pub open spec fn stops_at<Q: QueueModel, S: Strategy, L: LatencyModel>(
    before: Stage<Q, S, L>,
    after: Stage<Q, S, L>,
    error: EngineError<S::Error>,
) -> bool {
    let is_fault = {
        &&& fails_to_feed(before.sim, before.feeds, after.sim, error)
        &&& after == (Stage { sim: after.sim, feeds: after.feeds, ..before })
    };
    match error {
        EngineError::TickSource(_) => is_fault,
        EngineError::Strategy(_) => {
            ||| exists|event: Event, x: Outcome| #[trigger] is_break(before, after, event, x)
            ||| is_last_break(before, after)
        },
        EngineError::Internal(message) => is_fault || mixes_depth(before, after, message@),
    }
}

/// Whether the simulation may move from one state to the other at once.
pub open spec fn moves<Q: QueueModel, S: Strategy, L: LatencyModel>(
    before: Stage<Q, S, L>,
    after: Stage<Q, S, L>,
) -> bool {
    ||| exists|event: Event, x: Outcome| #[trigger] is_move(before, after, event, x)
    ||| exists|x: Outcome| #[trigger] is_last_move(before, after, x)
}

/// A sequence of states that follow each other.
pub open spec fn is_trace<Q: QueueModel, S: Strategy, L: LatencyModel>(
    trace: Seq<Stage<Q, S, L>>,
) -> bool {
    trace.len() > 0 && forall|i: int|
        0 <= i < trace.len() - 1 ==> moves(#[trigger] trace[i], trace[i + 1])
}

/// Whether the simulation may run from one state to the other, in as many steps as can be
/// counted.
pub open spec fn leads_to<Q: QueueModel, S: Strategy, L: LatencyModel>(
    before: Stage<Q, S, L>,
    after: Stage<Q, S, L>,
) -> bool {
    exists|trace: Seq<Stage<Q, S, L>>| #[trigger]
        is_trace(trace) && trace.len() <= u64::MAX && trace.first() == before && trace.last()
            == after
}

/// Whether nothing is left to process.
pub open spec fn is_finished<Q: QueueModel>(s: SimView<Q>) -> bool {
    s.queue.len() == 0 && (s.config.mode is Batch ==> !s.has_buffered())
}

/// Whether a run may fail with this error and leave this state: some number of steps lead
/// to one that fails, or there are more steps than can be counted.
pub open spec fn stops_with<Q: QueueModel, S: Strategy, L: LatencyModel>(
    before: Stage<Q, S, L>,
    after: Stage<Q, S, L>,
    error: EngineError<S::Error>,
) -> bool {
    ||| exists|mid: Stage<Q, S, L>| #[trigger] leads_to(before, mid) && stops_at(mid, after, error)
    ||| error matches EngineError::Internal(message) && message@ == "simulation never ends"@
        && is_endless(before, after)
}

/// Whether a run may take more steps than can be counted, and stop at this state.
pub open spec fn is_endless<Q: QueueModel, S: Strategy, L: LatencyModel>(
    before: Stage<Q, S, L>,
    after: Stage<Q, S, L>,
) -> bool {
    exists|trace: Seq<Stage<Q, S, L>>| #[trigger]
        is_trace(trace) && trace.len() == u64::MAX + 1 && trace.first() == before
            && trace.last() == after
}

proof fn lemma_one_more_taken(
    states: Seq<FeedsView>,
    items: Seq<FeedItem>,
    item: FeedItem,
    after: FeedsView,
)
    requires
        takes_all(states, items),
        states.last().takes(item, after),
    ensures
        takes_all(states.push(after), items.push(item)),
{
    let more = states.push(after);
    let longer = items.push(item);
    assert forall|i: int| 0 <= i < longer.len() implies more[i].takes(
        #[trigger] longer[i],
        more[i + 1],
    ) by {
        if i < items.len() {
            assert(states[i].takes(items[i], states[i + 1]));
        }
    }
}

proof fn lemma_no_items_change_nothing(before: FeedsView, after: FeedsView)
    requires
        before.gives(Seq::empty(), after),
    ensures
        after == before,
{
}

proof fn lemma_taken_up_without_items<Q: QueueModel>(
    at: SimView<Q>,
    kind: EventKind,
    x: Outcome,
    items: Seq<FeedItem>,
)
    ensures
        at.taken_up(kind, Outcome { items, ..x }) == at.taken_up(kind, x),
{
    reveal(SimView::taken_up);
}

proof fn lemma_taken_up<Q: QueueModel>(at: SimView<Q>, kind: EventKind, x: Outcome)
    requires
        !at.is_unknown_cancel(kind),
    ensures
        at.taken_up(kind, x) == at.handled(kind, x.commands, x.delay).woken(
            at.asks_wakeup(kind),
            x.flush,
            x.duration,
        ),
{
    reveal(SimView::taken_up);
}

proof fn lemma_ignored<Q: QueueModel, S: Strategy>(
    at: SimView<Q>,
    trader: S,
    kind: EventKind,
    x: Outcome,
)
    requires
        at.is_unknown_cancel(kind),
    ensures
        at.taken_up(kind, x) == at,
        hears(trader, at, kind, x, trader),
{
    reveal(SimView::taken_up);
    reveal(hears);
}

/// Handling an event moves neither the clock nor the configuration; in batch mode it adds
/// ticks and order updates to those that wait.
pub proof fn lemma_handled_keeps<Q: QueueModel>(
    s: SimView<Q>,
    kind: EventKind,
    commands: Seq<Command>,
    delay: i64,
)
    ensures
        s.handled(kind, commands, delay).now == s.now,
        s.handled(kind, commands, delay).config == s.config,
        s.handled(kind, commands, delay).ticks == match kind {
            EventKind::TickDelivery(tick) if s.config.mode is Batch => s.ticks.push(tick),
            _ => s.ticks,
        },
        s.handled(kind, commands, delay).reports == match kind {
            EventKind::OrderReport(report) if s.config.mode is Batch => s.reports.push(report),
            _ => s.reports,
        },
{
    match kind {
        EventKind::Tick(tick) => {
            let (ex, reports) = s.exchange(tick.symbol_id).after_trade(tick);
            let fills = maker_fills(ex, reports, tick.ts_exchange, s.config.maker_fee_bps);
            lemma_notified_keeps(
                SimView { truth: s.truth.insert(tick.symbol_id, tick), ..s }.with_exchange(
                    tick.symbol_id,
                    ex,
                ).booked(tick.ts_exchange, fills),
                clamp_i64(tick.ts_exchange + s.config.order_update_latency_ns),
                reports,
            );
        },
        EventKind::TickDelivery(tick) => {
            lemma_commanded_keeps(s.delivered(tick), commands, tick.ts_local);
        },
        EventKind::OrderReport(report) => {
            lemma_commanded_keeps(s.report_arrived(report), commands, s.now);
        },
        EventKind::Funding(event) => {
            lemma_commanded_keeps(s.funded(event), commands, s.now);
        },
        _ => {},
    }
}

proof fn lemma_notified_keeps<Q: QueueModel>(s: SimView<Q>, ts: i64, reports: Seq<OrderReport>)
    ensures
        s.notified(ts, reports).now == s.now,
        s.notified(ts, reports).config == s.config,
        s.notified(ts, reports).ticks == s.ticks,
        s.notified(ts, reports).reports == s.reports,
    decreases reports.len(),
{
    if reports.len() > 0 {
        lemma_notified_keeps(s, ts, reports.drop_last());
    }
}

pub proof fn lemma_commanded_keeps<Q: QueueModel>(s: SimView<Q>, commands: Seq<Command>, ts: i64)
    ensures
        s.commanded(commands, ts).now == s.now,
        s.commanded(commands, ts).config == s.config,
        s.commanded(commands, ts).ticks == s.ticks,
        s.commanded(commands, ts).reports == s.reports,
    decreases commands.len(),
{
    if commands.len() > 0 {
        lemma_commanded_keeps(s, commands.drop_last(), ts);
    }
}

proof fn lemma_hears_without_items<Q: QueueModel, S: Strategy>(
    trader: S,
    at: SimView<Q>,
    kind: EventKind,
    x: Outcome,
    items: Seq<FeedItem>,
    then: S,
)
    requires
        hears(trader, at, kind, x, then),
    ensures
        hears(trader, at, kind, Outcome { items, ..x }, then),
{
    reveal(hears);
}

proof fn lemma_breaks_without_items<Q: QueueModel, S: Strategy>(
    trader: S,
    at: SimView<Q>,
    kind: EventKind,
    x: Outcome,
    items: Seq<FeedItem>,
    after: SimView<Q>,
    then: S,
)
    requires
        breaks(trader, at, kind, x, after, then),
    ensures
        breaks(trader, at, kind, Outcome { items, ..x }, after, then),
{
    reveal(breaks);
}

proof fn lemma_trace_grows<Q: QueueModel, S: Strategy, L: LatencyModel>(
    trace: Seq<Stage<Q, S, L>>,
    next: Stage<Q, S, L>,
)
    requires
        is_trace(trace),
        moves(trace.last(), next),
    ensures
        is_trace(trace.push(next)),
        trace.push(next).first() == trace.first(),
        trace.push(next).last() == next,
{
    let longer = trace.push(next);
    assert forall|i: int| 0 <= i < longer.len() - 1 implies moves(
        #[trigger] longer[i],
        longer[i + 1],
    ) by {
        if i < trace.len() - 1 {
            assert(moves(trace[i], trace[i + 1]));
        }
    }
}

proof fn lemma_feeding_fills_queue<Q: QueueModel>(s: SimView<Q>, items: Seq<FeedItem>)
    ensures
        s.fed_all(items).queue.len() >= s.queue.len() + items.len(),
        items.len() == 0 ==> s.fed_all(items) == s,
    decreases items.len(),
{
    if items.len() > 0 {
        lemma_feeding_fills_queue(s, items.drop_last());
    }
}

proof fn lemma_next_ts(queue: Multiset<Event>, event: Event)
    requires
        is_next(queue, event),
    ensures
        next_ts(queue) == Some(event.id.ts_sim),
{
    let other = choose|other: Event| is_next(queue, other);
    assert(other.id.precedes(event.id) && event.id.precedes(other.id));
    vstd::multiset::axiom_count_le_len(queue, event);
}

/// The message on depth of the wrong kind.
pub open spec fn depth_clash_text(kind: EventKind) -> Seq<char> {
    match kind {
        EventKind::L2Update(_) => "mixed L2/L3 depth updates for one symbol"@,
        _ => "exchange is not in L3 depth mode"@,
    }
}

/// The message on a source that had shown a next item, and then gave none.
fn no_next_item_message(source_idx: usize) -> (r: String)
    ensures
        r@ == "source "@ + digits_text(source_idx as nat) + " was queued but had no next tick"@,
{
    let mut text: String = String::from_str("source ");
    text.append(digits(source_idx as u64).as_str());
    text.append(" was queued but had no next tick");
    text
}

} // verus!
