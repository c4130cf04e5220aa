//! The simulation state, with one operation for each kind of event.
//!
//! Nothing here calls a strategy, a latency model or a data source: what they answer
//! comes in as an argument.
use rustc_hash::FxHashMap;
use vstd::prelude::*;

use crate::account::Account;
use crate::collections::{fx_get, fx_get_mut, fx_insert, fx_len, fx_remove};
use crate::event::{Event, EventId, EventKind};
use crate::event_queue::{is_next, EventQueue};
use crate::exchange_simulator::{ExchangeSimulator, ExchangeView};
use crate::feeds::FeedItem;
use crate::fees::compute_fee;
use crate::latency_model::non_negative;
use crate::math::{sat_add, sat_sub};
use crate::queue_model::QueueModel;
use crate::sim_view::{
    logged, maker_fills, next_number, next_ts, settled, EngineConfig, EngineMode, OrderFill,
    SimView,
};
use crate::stats::{PnlEvent, TradeFill, TradeLog};
use crate::strategy::{Command, MarketView};
use crate::tuner::BatchTuner;
use crate::types::{
    FundingEvent, L2Update, L3Update, Order, OrderReport, OrderState, Side, Tick, TsLocalNs,
    TsSimNs,
};

verus! {

/// Everything that a simulation consists of, but for the strategy, the latency model
/// and the data sources.
#[verifier::reject_recursive_types(Q)]
pub struct SimState<Q: QueueModel + Copy> {
    config: EngineConfig,
    queue: EventQueue,
    /// Prototype queue model used when instantiating a new per-symbol exchange simulator.
    queue_model: Q,
    /// One exchange simulator per `(exchange, symbol)` stream (represented by `symbol_id`).
    exchanges: FxHashMap<u32, ExchangeSimulator<Q>>,
    /// Route `order_id -> symbol_id` so ACK/cancel events can find the right exchange instance.
    order_symbol_by_id: FxHashMap<u64, u32>,
    next_order_id: u64,
    account: Account,
    trade_log: TradeLog,
    market: MarketView,
    truth_last_trade_by_symbol: FxHashMap<u32, Tick>,
    next_event_seq: u64,
    now_ts_sim: TsSimNs,
    tick_buffer: Vec<Tick>,
    report_buffer: Vec<OrderReport>,
    active_batch_timer_id: Option<u64>,
    next_timer_id: u64,
    pending_wakeup: bool,
    tuner: BatchTuner,
}

impl<Q: QueueModel + Copy> View for SimState<Q> {
    type V = SimView<Q>;

    closed spec fn view(&self) -> SimView<Q> {
        SimView {
            config: self.config,
            queue: self.queue@,
            next_event_seq: self.next_event_seq,
            now: self.now_ts_sim,
            model: self.queue_model,
            exchanges: self.exchanges@.map_values(|ex: ExchangeSimulator<Q>| ex@),
            routes: self.order_symbol_by_id@,
            next_order_id: self.next_order_id,
            account: self.account@,
            log: self.trade_log@,
            market: self.market@,
            truth: self.truth_last_trade_by_symbol@,
            ticks: self.tick_buffer@,
            reports: self.report_buffer@,
            timer: self.active_batch_timer_id,
            next_timer_id: self.next_timer_id,
            pending_wakeup: self.pending_wakeup,
            tuner: self.tuner@,
        }
    }
}

fn bump(n: u64) -> (r: u64)
    ensures
        r == next_number(n),
{
    n.wrapping_add(1)
}

impl<Q: QueueModel + Copy> SimState<Q> {
    /// The parts are well formed: the queue, the log and every exchange.
    pub closed spec fn wf(&self) -> bool {
        self.queue.wf() && self.trade_log.wf() && self@.quantities_fit()
    }

    pub fn new(queue_model: Q, config: EngineConfig) -> (r: Self)
        ensures
            r.wf(),
            r@ == SimView::fresh(queue_model, config),
    {
        let r = SimState {
            config,
            queue: EventQueue::new(),
            queue_model,
            exchanges: FxHashMap::default(),
            order_symbol_by_id: FxHashMap::default(),
            next_order_id: 1,
            account: Account::default(),
            trade_log: TradeLog::new(config.trade_log_mode),
            market: MarketView::default(),
            truth_last_trade_by_symbol: FxHashMap::default(),
            next_event_seq: 0,
            now_ts_sim: 0,
            tick_buffer: Vec::new(),
            report_buffer: Vec::new(),
            active_batch_timer_id: None,
            next_timer_id: 1,
            pending_wakeup: false,
            tuner: BatchTuner::new(
                100_000,  // min: 100us
                if config.max_batch_ns > 0 {
                    config.max_batch_ns
                } else {
                    1_000_000_000  // default max: 1s
                },
                config.max_batch_ns,  // initial value: use config value
                500,  // target latency per tick: 500ns
            ),
        };
        assert(r@ =~= SimView::fresh(queue_model, config));
        r
    }

    pub fn push_event(&mut self, ts_sim: TsSimNs, kind: EventKind)
        requires
            old(self).wf(),
        ensures
            final(self).wf(),
            final(self)@ == old(self)@.pushed(ts_sim, kind),
    {
        let id = EventId { ts_sim, seq: self.next_event_seq };
        self.next_event_seq = bump(self.next_event_seq);
        self.queue.push(Event { id, kind });
        assert(self@ =~= old(self)@.pushed(ts_sim, kind));
    }

    /// Schedules what a piece of market data leads to.
    pub fn feed(&mut self, item: FeedItem)
        requires
            old(self).wf(),
        ensures
            final(self).wf(),
            final(self)@ == old(self)@.fed(item),
    {
        match item {
            FeedItem::Tick(tick) => {
                // Truth at the exchange.
                self.push_event(tick.ts_exchange, EventKind::Tick(tick));
                // Delivery to the strategy.
                let delivery: i64 = if tick.ts_local == 0 {
                    sat_add(tick.ts_exchange, self.config.feed_latency_ns)
                } else {
                    tick.ts_local
                };
                let mut delivered: Tick = tick;
                delivered.ts_local = delivery;
                self.push_event(delivery, EventKind::TickDelivery(delivered));
            },
            FeedItem::L3(update) => {
                self.push_event(update.ts_exchange, EventKind::L3Update(update));
            },
        }
    }

    /// The time of the earliest queued event.
    pub fn next_event_ts(&self) -> (r: Option<i64>)
        requires
            self.wf(),
        ensures
            r == next_ts(self@.queue),
    {
        match self.queue.peek() {
            Some(e) => {
                proof {
                    let other = choose|other: Event| is_next(self@.queue, other);
                    assert(is_next(self@.queue, *e));
                    assert(other.id.precedes(e.id) && e.id.precedes(other.id));
                    assert(self@.queue.len() > 0) by {
                        vstd::multiset::axiom_count_le_len(self@.queue, *e);
                    }
                }
                Some(e.ts_sim())
            },
            None => None,
        }
    }

    /// Takes the earliest event out of the queue and moves the clock to it.
    pub fn pop_event(&mut self) -> (r: Option<Event>)
        requires
            old(self).wf(),
        ensures
            final(self).wf(),
            match r {
                Some(event) => is_next(old(self)@.queue, event) && final(self)@ == old(
                    self)@.arrived(event),
                None => old(self)@.queue.len() == 0 && final(self)@ == old(self)@,
            },
    {
        match self.queue.pop() {
            Some(event) => {
                self.now_ts_sim = event.ts_sim();
                assert(self@ =~= old(self)@.arrived(event));
                Some(event)
            },
            None => {
                assert(self@ =~= old(self)@);
                None
            },
        }
    }

    /// Makes sure that the symbol has an exchange.
    fn ensure_exchange(&mut self, symbol_id: u32)
        requires
            old(self).wf(),
        ensures
            final(self).wf(),
            final(self)@ == old(self)@.with_exchange(symbol_id, old(self)@.exchange(symbol_id)),
    {
        if fx_get(&self.exchanges, symbol_id).is_none() {
            fx_insert(&mut self.exchanges, symbol_id, ExchangeSimulator::new(self.queue_model));
        }
        assert(self@ =~= old(self)@.with_exchange(symbol_id, old(self)@.exchange(symbol_id)));
    }

    /// Makes the exchange of a symbol keep an order-by-order book, where the symbol has no
    /// exchange yet.
    pub fn ensure_l3_exchange(&mut self, symbol_id: u32)
        requires
            old(self).wf(),
        ensures
            final(self).wf(),
            final(self)@ == if old(self)@.exchanges.contains_key(symbol_id) {
                old(self)@
            } else {
                old(self)@.with_exchange(symbol_id, ExchangeView::fresh(old(self)@.model, true))
            },
    {
        if fx_get(&self.exchanges, symbol_id).is_none() {
            fx_insert(&mut self.exchanges, symbol_id, ExchangeSimulator::new_l3(self.queue_model));
            assert(self@ =~= old(self)@.with_exchange(
                symbol_id,
                ExchangeView::fresh(old(self)@.model, true),
            ));
        }
    }

    /// Logs fills, moves the positions and adds the net PnL of each fill.
    fn book_fills(&mut self, ts: i64, fills: &Vec<OrderFill>)
        requires
            old(self).wf(),
        ensures
            final(self).wf(),
            final(self)@ == old(self)@.booked(ts, fills@),
    {
        let ghost start = self@;
        let n: usize = fills.len();
        let mut i: usize = 0;
        assert(fills@.take(0) =~= Seq::empty());
        while i < n
            invariant
                i <= n == fills@.len(),
                self.wf(),
                start.quantities_fit(),
                self@ == (SimView { log: logged(start.log, fills@.take(i as int)), ..start }),
            decreases n - i,
        {
            proof {
                assert(fills@.take(i + 1).drop_last() =~= fills@.take(i as int));
            }
            self.trade_log.push_fill(fills[i].1);
            i = i + 1;
            assert(self@ =~= (SimView { log: logged(start.log, fills@.take(i as int)), ..start }));
        }
        assert(fills@.take(n as int) =~= fills@);
        let ghost log = logged(start.log, fills@);
        let mut j: usize = 0;
        while j < n
            invariant
                j <= n == fills@.len(),
                self.wf(),
                start.quantities_fit(),
                self@ == (SimView {
                    account: settled(start.account, log, ts, fills@.take(j as int)).0,
                    log: settled(start.account, log, ts, fills@.take(j as int)).1,
                    ..start
                }),
            decreases n - j,
        {
            proof {
                assert(fills@.take(j + 1).drop_last() =~= fills@.take(j as int));
                assert(fills@.take(j + 1).last() == fills@[j as int]);
            }
            let (order, fill): (Order, TradeFill) = fills[j];
            let pnl_delta: i64 = self.account.on_fill_at(&order, fill.qty, fill.price);
            // Subtract fee from PnL so net PnL reflects all trading costs.
            let net_pnl: i64 = sat_sub(pnl_delta, fill.fee);
            self.trade_log.push_pnl_delta(ts, net_pnl);
            j = j + 1;
            assert(self@ =~= (SimView {
                account: settled(start.account, log, ts, fills@.take(j as int)).0,
                log: settled(start.account, log, ts, fills@.take(j as int)).1,
                ..start
            }));
        }
        assert(self@ =~= start.booked(ts, fills@));
    }

    /// Schedules order updates for delivery to the strategy.
    fn notify(&mut self, ts: i64, reports: &Vec<OrderReport>)
        requires
            old(self).wf(),
        ensures
            final(self).wf(),
            final(self)@ == old(self)@.notified(ts, reports@),
    {
        let ghost start = self@;
        let mut i: usize = 0;
        assert(reports@.take(0) =~= Seq::empty());
        while i < reports.len()
            invariant
                i <= reports@.len(),
                self.wf(),
                self@ == start.notified(ts, reports@.take(i as int)),
            decreases reports@.len() - i,
        {
            proof {
                assert(reports@.take(i + 1).drop_last() =~= reports@.take(i as int));
                assert(reports@.take(i + 1).last() == reports@[i as int]);
            }
            self.push_event(ts, EventKind::OrderReport(reports[i]));
            i = i + 1;
        }
        assert(reports@.take(i as int) =~= reports@);
    }

    /// A trade meets the orders at the exchange of its symbol.
    fn trade_at_exchange(&mut self, tick: Tick) -> (r: (Vec<OrderReport>, Vec<OrderFill>))
        requires
            old(self).wf(),
        ensures
            final(self).wf(),
            ({
                let (ex, reports) = old(self)@.exchange(tick.symbol_id).after_trade(tick);
                &&& final(self)@ == old(self)@.with_exchange(tick.symbol_id, ex)
                &&& r.0@ == reports
                &&& r.1@ == maker_fills(
                    ex,
                    reports,
                    tick.ts_exchange,
                    old(self)@.config.maker_fee_bps,
                )
            }),
    {
        let ghost start = self@;
        self.ensure_exchange(tick.symbol_id);
        let ghost ready = self@;
        assert(ready.exchanges.contains_key(tick.symbol_id));
        assert(self.exchanges@.contains_key(tick.symbol_id));
        assert(self.exchanges@[tick.symbol_id]@ == start.exchange(tick.symbol_id));
        let maker_fee_bps: i64 = self.config.maker_fee_bps;
        let mut reports: Vec<OrderReport> = Vec::new();
        let mut fills: Vec<OrderFill> = Vec::new();
        match fx_get_mut(&mut self.exchanges, tick.symbol_id) {
            Some(ex) => {
                ex.on_trade(tick, &mut reports);
                fills = collect_fills(ex, &reports, tick.ts_exchange, maker_fee_bps);
            },
            None => {},
        }
        proof {
            let (ex, reps) = start.exchange(tick.symbol_id).after_trade(tick);
            assert(reports@ =~= reps);
            assert(self.exchanges@[tick.symbol_id]@ == ex);
            assert(self@.exchanges =~= ready.exchanges.insert(tick.symbol_id, ex));
            assert(self@.exchanges =~= start.exchanges.insert(tick.symbol_id, ex));
            assert(self@ =~= start.with_exchange(tick.symbol_id, ex));
        }
        (reports, fills)
    }

    /// A tick at the exchange: market truth drives the exchange simulator only.
    pub fn on_truth_tick(&mut self, tick: Tick)
        requires
            old(self).wf(),
        ensures
            final(self).wf(),
            final(self)@ == old(self)@.truth_tick(tick),
    {
        let ghost start = self@;
        fx_insert(&mut self.truth_last_trade_by_symbol, tick.symbol_id, tick);
        assert(self@ =~= (SimView {
            truth: start.truth.insert(tick.symbol_id, tick),
            ..start
        }));
        let (reports, fills) = self.trade_at_exchange(tick);
        self.book_fills(tick.ts_exchange, &fills);
        let ts_delivery: i64 = sat_add(tick.ts_exchange, self.config.order_update_latency_ns);
        self.notify(ts_delivery, &reports);
    }

    /// A tick reaches the strategy: its view changes, and in batch mode the tick waits.
    pub fn on_tick_delivery(&mut self, tick: Tick)
        requires
            old(self).wf(),
        ensures
            final(self).wf(),
            final(self)@ == old(self)@.delivered(tick),
    {
        self.market.on_tick_delivery(tick);
        match self.config.mode {
            EngineMode::Tick => {},
            EngineMode::Batch => {
                self.tick_buffer.push(tick);
                // Ensure time-based wakeup even if no future tick crosses the boundary.
                if self.active_batch_timer_id.is_none() && self.config.max_batch_ns > 0 {
                    let timer_id: u64 = self.next_timer_id;
                    self.next_timer_id = bump(self.next_timer_id);
                    self.active_batch_timer_id = Some(timer_id);
                    let ts_deadline: i64 = sat_add(tick.ts_local, self.config.max_batch_ns);
                    self.push_event(ts_deadline, EventKind::Timer { timer_id });
                }
            },
        }
        assert(self@ =~= old(self)@.delivered(tick));
    }

    /// A price-level update reaches the exchange. It is refused where the exchange keeps
    /// an order-by-order book.
    pub fn on_l2_update(&mut self, update: L2Update) -> (r: Result<(), &'static str>)
        requires
            old(self).wf(),
        ensures
            final(self).wf(),
            match r {
                Ok(()) => {
                    &&& !old(self)@.depth_clash(EventKind::L2Update(update))
                    &&& final(self)@ == old(self)@.l2_updated(update)
                },
                Err(e) => {
                    &&& old(self)@.depth_clash(EventKind::L2Update(update))
                    &&& final(self)@ == old(self)@
                    &&& e == "mixed L2/L3 depth updates for one symbol"
                },
            },
    {
        let ghost start = self@;
        if let Some(ex) = fx_get(&self.exchanges, update.symbol_id) {
            if ex.has_l3_book() {
                return Err("mixed L2/L3 depth updates for one symbol");
            }
        }
        self.ensure_exchange(update.symbol_id);
        let ghost ready = self@;
        assert(ready.exchanges.contains_key(update.symbol_id));
        assert(self.exchanges@.contains_key(update.symbol_id));
        assert(self.exchanges@[update.symbol_id]@ == start.exchange(update.symbol_id));
        match fx_get_mut(&mut self.exchanges, update.symbol_id) {
            Some(ex) => {
                ex.apply_l2_update(&update);
            },
            None => {},
        }
        proof {
            let ex = start.exchange(update.symbol_id).l2_updated(update);
            assert(ready.exchanges[update.symbol_id].quantities_fit());
            assert(self.exchanges@[update.symbol_id]@ == ex);
            assert(self@.exchanges =~= ready.exchanges.insert(update.symbol_id, ex));
            assert(self@.exchanges =~= start.exchanges.insert(update.symbol_id, ex));
            assert(self@ =~= start.l2_updated(update));
        }
        Ok(())
    }

    /// An order-by-order update reaches the exchange. It is refused where the exchange
    /// keeps a price-level book only.
    pub fn on_l3_update(&mut self, update: L3Update) -> (r: Result<(), &'static str>)
        requires
            old(self).wf(),
        ensures
            final(self).wf(),
            match r {
                Ok(()) => {
                    &&& !old(self)@.depth_clash(EventKind::L3Update(update))
                    &&& final(self)@ == old(self)@.l3_updated(update)
                },
                Err(e) => {
                    &&& old(self)@.depth_clash(EventKind::L3Update(update))
                    &&& final(self)@ == old(self)@
                    &&& e == "exchange is not in L3 depth mode"
                },
            },
    {
        let ghost start = self@;
        if let Some(ex) = fx_get(&self.exchanges, update.symbol_id) {
            if !ex.has_l3_book() {
                return Err("exchange is not in L3 depth mode");
            }
        }
        self.ensure_l3_exchange(update.symbol_id);
        let ghost ready = self@;
        assert(ready.exchanges.contains_key(update.symbol_id));
        assert(self.exchanges@.contains_key(update.symbol_id));
        assert(self.exchanges@[update.symbol_id]@ == ready.exchanges[update.symbol_id]);
        assert(ready.exchanges[update.symbol_id].quantities_fit());
        let mut r: Result<(), &'static str> = Ok(());
        match fx_get_mut(&mut self.exchanges, update.symbol_id) {
            Some(ex) => {
                r = ex.apply_l3_update(&update);
            },
            None => {},
        }
        proof {
            let ex = ready.exchanges[update.symbol_id].l3_updated(update);
            assert(self.exchanges@[update.symbol_id]@ == ex);
            assert(self@.exchanges =~= ready.exchanges.insert(update.symbol_id, ex));
            assert(self@.exchanges =~= start.exchanges.insert(update.symbol_id, ex));
            assert(self@ =~= start.l3_updated(update));
        }
        r
    }

    /// Sends a market order to its exchange: the report on the fill, and the report on
    /// the cancel of what was not filled.
    fn market_at_exchange(&mut self, order: Order, fallback: Option<i64>) -> (r: (
        OrderReport,
        Option<OrderReport>,
    ))
        requires
            old(self).wf(),
            order.order_type is Market,
        ensures
            final(self).wf(),
            ({
                let ex = old(self)@.exchange(order.symbol_id).submitted(order);
                let (after, report) = ex.market_filled(order.order_id, fallback);
                let filled = ex.with_order(order.order_id, after);
                let cancelled = filled.with_state(order.order_id, OrderState::Cancelled);
                &&& r.0 == report
                &&& if report.status is PartiallyFilled {
                    &&& final(self)@ == old(self)@.with_exchange(order.symbol_id, cancelled)
                    &&& r.1 == Some(
                        cancelled.orders[order.order_id].report(
                            0,
                            0,
                            Some("market order partial fill: remaining qty cancelled"),
                        ),
                    )
                } else {
                    final(self)@ == old(self)@.with_exchange(order.symbol_id, filled) && r.1 is None
                }
            }),
    {
        let ghost start = self@;
        let order_id: u64 = order.order_id;
        self.ensure_exchange(order.symbol_id);
        let ghost ready = self@;
        assert(ready.exchanges.contains_key(order.symbol_id));
        assert(self.exchanges@.contains_key(order.symbol_id));
        assert(self.exchanges@[order.symbol_id]@ == start.exchange(order.symbol_id));
        assert(ready.exchanges[order.symbol_id].quantities_fit());
        let mut first: Option<OrderReport> = None;
        let mut second: Option<OrderReport> = None;
        match fx_get_mut(&mut self.exchanges, order.symbol_id) {
            Some(ex) => {
                ex.submit_order(order);
                assert(ex@.orders.contains_key(order_id));
                first = ex.fill_market_immediately(order_id, fallback);
                assert(ex@.orders.contains_key(order_id));
                if let Some(report) = first {
                    if report.status == OrderState::PartiallyFilled {
                        second = ex.force_cancel_partial_fill(order_id);
                    }
                }
            },
            None => {},
        }
        proof {
            let ex = start.exchange(order.symbol_id).submitted(order);
            let (after, rep) = ex.market_filled(order_id, fallback);
            let filled = ex.with_order(order_id, after);
            assert(first == Some(rep));
            let done = if rep.status is PartiallyFilled {
                filled.with_state(order_id, OrderState::Cancelled)
            } else {
                filled
            };
            assert(self.exchanges@[order.symbol_id]@ == done);
            assert(self@.exchanges =~= ready.exchanges.insert(order.symbol_id, done));
            assert(self@.exchanges =~= start.exchanges.insert(order.symbol_id, done));
            assert(self@ =~= start.with_exchange(order.symbol_id, done));
        }
        (first.unwrap(), second)
    }

    /// A market order arrives at the exchange.
    pub fn on_market_order(&mut self, order: Order)
        requires
            old(self).wf(),
            order.order_type is Market,
        ensures
            final(self).wf(),
            final(self)@ == old(self)@.market_order(order),
    {
        if order.side == Side::NoSide {
            return ;
        }
        // Fill immediately at best bid/ask; fall back to last trade price.
        let fallback: Option<i64> = match fx_get(
            &self.truth_last_trade_by_symbol,
            order.symbol_id,
        ) {
            Some(tick) => Some(tick.price),
            None => None,
        };
        let ghost start = self@;
        let (report, cancelled) = self.market_at_exchange(order, fallback);
        let ts_delivery: i64 = sat_add(self.now_ts_sim, self.config.order_update_latency_ns);
        match report.status {
            OrderState::Filled | OrderState::PartiallyFilled => {
                let fee: i64 = compute_fee(
                    report.last_fill_price,
                    report.last_fill_qty,
                    self.config.taker_fee_bps,
                );
                let fill = TradeFill {
                    ts_exchange: self.now_ts_sim,
                    symbol_id: order.symbol_id,
                    order_id: order.order_id,
                    side: order.side,
                    price: report.last_fill_price,
                    qty: report.last_fill_qty,
                    fee,
                    is_taker: true,
                };
                let fills: Vec<OrderFill> = vec![(order, fill)];
                let ts: i64 = self.now_ts_sim;
                assert(fills@ =~= seq![(order, fill)]);
                self.book_fills(ts, &fills);
                self.push_event(ts_delivery, EventKind::OrderReport(report));
                if let Some(c) = cancelled {
                    self.push_event(ts_delivery, EventKind::OrderReport(c));
                }
            },
            _ => {
                // Rejected (empty book): deliver reject report.
                self.push_event(ts_delivery, EventKind::OrderReport(report));
            },
        }
    }

    /// A resting order arrives at the exchange, which will answer after `delay`.
    pub fn on_limit_order(&mut self, order: Order, delay: i64)
        requires
            old(self).wf(),
            !(order.order_type is Market),
        ensures
            final(self).wf(),
            final(self)@ == old(self)@.order_arrived(order, delay),
    {
        let ghost start = self@;
        self.ensure_exchange(order.symbol_id);
        let ghost ready = self@;
        assert(ready.exchanges.contains_key(order.symbol_id));
        assert(self.exchanges@.contains_key(order.symbol_id));
        assert(self.exchanges@[order.symbol_id]@ == start.exchange(order.symbol_id));
        assert(ready.exchanges[order.symbol_id].quantities_fit());
        match fx_get_mut(&mut self.exchanges, order.symbol_id) {
            Some(ex) => {
                ex.submit_order(order);
            },
            None => {},
        }
        proof {
            let ex = start.exchange(order.symbol_id).submitted(order);
            assert(self.exchanges@[order.symbol_id]@ == ex);
            assert(self@.exchanges =~= ready.exchanges.insert(order.symbol_id, ex));
            assert(self@.exchanges =~= start.exchanges.insert(order.symbol_id, ex));
            assert(self@ =~= start.with_exchange(order.symbol_id, ex));
        }
        let ts_ack: i64 = sat_add(self.now_ts_sim, non_negative(delay));
        self.push_event(ts_ack, EventKind::OrderAck { order_id: order.order_id });
    }

    /// The symbol that an order was sent to.
    fn route(&self, order_id: u64) -> (r: Option<u32>)
        ensures
            match r {
                Some(symbol_id) => self@.routes.contains_key(order_id) && symbol_id
                    == self@.routes[order_id],
                None => !self@.routes.contains_key(order_id),
            },
    {
        match fx_get(&self.order_symbol_by_id, order_id) {
            Some(symbol_id) => Some(*symbol_id),
            None => None,
        }
    }

    /// The number of orders that are known, from their submission until they are done.
    pub fn known_order_count(&self) -> (r: usize)
        ensures
            r == self@.routes.len(),
    {
        fx_len(&self.order_symbol_by_id)
    }

    /// An order as the exchange of a symbol holds it.
    pub fn order_at_exchange(&self, symbol_id: u32, order_id: u64) -> (r: Option<Order>)
        ensures
            r == if self@.exchange(symbol_id).orders.contains_key(order_id) {
                Some(self@.exchange(symbol_id).orders[order_id].order)
            } else {
                None
            },
    {
        match fx_get(&self.exchanges, symbol_id) {
            Some(ex) => {
                assert(self@.exchanges.contains_key(symbol_id));
                ex.get_order(order_id)
            },
            None => None,
        }
    }

    /// The exchange acknowledges an order.
    pub fn on_order_ack(&mut self, order_id: u64)
        requires
            old(self).wf(),
        ensures
            final(self).wf(),
            final(self)@ == old(self)@.order_acked(order_id),
    {
        let symbol_id: u32 = match self.route(order_id) {
            Some(symbol_id) => symbol_id,
            None => {
                return ;
            },
        };
        let ghost start = self@;
        self.ensure_exchange(symbol_id);
        let ghost ready = self@;
        assert(ready.exchanges.contains_key(symbol_id));
        assert(self.exchanges@.contains_key(symbol_id));
        assert(self.exchanges@[symbol_id]@ == start.exchange(symbol_id));
        assert(ready.exchanges[symbol_id].quantities_fit());
        let mut acked: Option<OrderReport> = None;
        match fx_get_mut(&mut self.exchanges, symbol_id) {
            Some(ex) => {
                if let Ok(report) = ex.ack_new(order_id) {
                    acked = Some(report);
                }
            },
            None => {},
        }
        proof {
            let ex = start.exchange(symbol_id);
            let after = if acked is Some {
                ex.with_state(order_id, OrderState::Open)
            } else {
                ex
            };
            assert(self.exchanges@[symbol_id]@ == after);
            assert(self@.exchanges =~= ready.exchanges.insert(symbol_id, after));
            assert(self@.exchanges =~= start.exchanges.insert(symbol_id, after));
            assert(self@ =~= start.with_exchange(symbol_id, after));
        }
        if let Some(report) = acked {
            let ts_delivery: i64 = sat_add(self.now_ts_sim, self.config.order_update_latency_ns);
            self.push_event(ts_delivery, EventKind::OrderReport(report));
        }
    }

    /// Whether an order is known, so that a cancel request can be passed on.
    pub fn knows_order(&self, order_id: u64) -> (r: bool)
        ensures
            r == self@.routes.contains_key(order_id),
    {
        self.route(order_id).is_some()
    }

    /// A cancel request arrives at the exchange. Returns whether the exchange takes it
    /// up: its answer is then to be scheduled.
    pub fn on_cancel_request(&mut self, order_id: u64) -> (r: bool)
        requires
            old(self).wf(),
            old(self)@.routes.contains_key(order_id),
        ensures
            final(self).wf(),
            r == old(self)@.can_cancel(order_id),
            ({
                let symbol_id = old(self)@.routes[order_id];
                let ex = old(self)@.exchange(symbol_id);
                final(self)@ == old(self)@.with_exchange(
                    symbol_id,
                    if r {
                        ex.with_state(order_id, OrderState::PendingCancel)
                    } else {
                        ex
                    },
                )
            }),
    {
        let symbol_id: u32 = match self.route(order_id) {
            Some(symbol_id) => symbol_id,
            None => {
                return false;
            },
        };
        let ghost start = self@;
        self.ensure_exchange(symbol_id);
        let ghost ready = self@;
        assert(ready.exchanges.contains_key(symbol_id));
        assert(self.exchanges@.contains_key(symbol_id));
        assert(self.exchanges@[symbol_id]@ == start.exchange(symbol_id));
        assert(ready.exchanges[symbol_id].quantities_fit());
        let mut taken: bool = false;
        match fx_get_mut(&mut self.exchanges, symbol_id) {
            Some(ex) => {
                taken = ex.cancel_order(order_id).is_ok();
            },
            None => {},
        }
        proof {
            let ex = start.exchange(symbol_id);
            let after = if taken {
                ex.with_state(order_id, OrderState::PendingCancel)
            } else {
                ex
            };
            assert(self.exchanges@[symbol_id]@ == after);
            assert(self@.exchanges =~= ready.exchanges.insert(symbol_id, after));
            assert(self@.exchanges =~= start.exchanges.insert(symbol_id, after));
            assert(self@ =~= start.with_exchange(symbol_id, after));
        }
        taken
    }

    /// Schedules the exchange's answer to a cancel request.
    pub fn schedule_cancel_ack(&mut self, order_id: u64, delay: i64)
        requires
            old(self).wf(),
        ensures
            final(self).wf(),
            final(self)@ == old(self)@.pushed(
                old(self)@.answer_ts(delay),
                EventKind::OrderCancelAck { order_id },
            ),
    {
        let ts_ack: i64 = sat_add(self.now_ts_sim, non_negative(delay));
        self.push_event(ts_ack, EventKind::OrderCancelAck { order_id });
    }

    /// The exchange carries a cancel out, unless a fill was faster.
    pub fn on_cancel_ack(&mut self, order_id: u64)
        requires
            old(self).wf(),
        ensures
            final(self).wf(),
            final(self)@ == old(self)@.cancel_acked(order_id),
    {
        let symbol_id: u32 = match self.route(order_id) {
            Some(symbol_id) => symbol_id,
            None => {
                return ;
            },
        };
        let ghost start = self@;
        self.ensure_exchange(symbol_id);
        let ghost ready = self@;
        assert(ready.exchanges.contains_key(symbol_id));
        assert(self.exchanges@.contains_key(symbol_id));
        assert(self.exchanges@[symbol_id]@ == start.exchange(symbol_id));
        assert(ready.exchanges[symbol_id].quantities_fit());
        let mut acked: Option<OrderReport> = None;
        match fx_get_mut(&mut self.exchanges, symbol_id) {
            Some(ex) => {
                if let Ok(report) = ex.ack_cancel(order_id) {
                    acked = Some(report);
                }
            },
            None => {},
        }
        proof {
            let ex = start.exchange(symbol_id);
            let after = if acked is Some {
                ex.with_state(order_id, OrderState::Cancelled)
            } else {
                ex
            };
            assert(self.exchanges@[symbol_id]@ == after);
            assert(self@.exchanges =~= ready.exchanges.insert(symbol_id, after));
            assert(self@.exchanges =~= start.exchanges.insert(symbol_id, after));
            assert(self@ =~= start.with_exchange(symbol_id, after));
        }
        if let Some(report) = acked {
            let ts_delivery: i64 = sat_add(self.now_ts_sim, self.config.order_update_latency_ns);
            self.push_event(ts_delivery, EventKind::OrderReport(report));
        }
    }

    /// Forgets an order that is done.
    fn forget_order(&mut self, order_id: u64)
        requires
            old(self).wf(),
        ensures
            final(self).wf(),
            ({
                let left = if old(self)@.routes.contains_key(order_id) {
                    let symbol_id = old(self)@.routes[order_id];
                    old(self)@.with_exchange(
                        symbol_id,
                        old(self)@.exchange(symbol_id).removed(order_id),
                    )
                } else {
                    old(self)@
                };
                final(self)@ == (SimView { routes: old(self)@.routes.remove(order_id), ..left })
            }),
    {
        let ghost start = self@;
        let ghost mut left = start;
        if let Some(symbol_id) = self.route(order_id) {
            self.ensure_exchange(symbol_id);
            let ghost ready = self@;
            assert(ready.exchanges.contains_key(symbol_id));
            assert(self.exchanges@.contains_key(symbol_id));
            assert(self.exchanges@[symbol_id]@ == start.exchange(symbol_id));
            assert(ready.exchanges[symbol_id].quantities_fit());
            match fx_get_mut(&mut self.exchanges, symbol_id) {
                Some(ex) => {
                    ex.remove_order(order_id);
                },
                None => {},
            }
            proof {
                let after = start.exchange(symbol_id).removed(order_id);
                left = start.with_exchange(symbol_id, after);
                assert(self.exchanges@[symbol_id]@ == after);
                assert(self@.exchanges =~= ready.exchanges.insert(symbol_id, after));
                assert(self@.exchanges =~= start.exchanges.insert(symbol_id, after));
                assert(self@ =~= left);
            }
        }
        let ghost before = self@;
        assert(before.quantities_fit());
        fx_remove(&mut self.order_symbol_by_id, order_id);
        assert(self@ =~= (SimView { routes: start.routes.remove(order_id), ..left }));
    }

    /// An order update reaches the strategy: an order that is done is forgotten, and in
    /// batch mode the update waits.
    pub fn on_report(&mut self, report: OrderReport)
        requires
            old(self).wf(),
        ensures
            final(self).wf(),
            final(self)@ == old(self)@.report_arrived(report),
    {
        if report.status.is_terminal() {
            self.forget_order(report.order_id);
        }
        let ghost cleaned = self@;
        assert(cleaned.quantities_fit());
        if self.config.mode == EngineMode::Batch {
            self.report_buffer.push(report);
        }
        assert(self@ =~= old(self)@.report_arrived(report));
    }

    /// A funding payment, at the price of the last trade.
    pub fn on_funding(&mut self, event: FundingEvent)
        requires
            old(self).wf(),
        ensures
            final(self).wf(),
            final(self)@ == old(self)@.funded(event),
    {
        let ghost start = self@;
        let mark_price: i64 = match fx_get(&self.truth_last_trade_by_symbol, event.symbol_id) {
            Some(tick) => tick.price,
            None => 0,
        };
        let pnl: i64 = self.account.apply_funding(&event, mark_price);
        self.trade_log.push_pnl_event(PnlEvent { ts_exchange: event.ts_exchange, pnl });
        assert(start.quantities_fit());
        assert(self@ =~= old(self)@.funded(event));
    }

    /// Whether a timer is the one that the current batch waits for.
    pub fn is_batch_timer(&self, timer_id: u64) -> (r: bool)
        ensures
            r == self@.rings(timer_id),
    {
        match self.active_batch_timer_id {
            Some(active) => self.config.mode == EngineMode::Batch && active == timer_id,
            None => false,
        }
    }

    /// A batch timer expires. Returns whether it is the one that the batch waits for.
    pub fn on_timer(&mut self, timer_id: u64) -> (r: bool)
        requires
            old(self).wf(),
        ensures
            final(self).wf(),
            r == old(self)@.rings(timer_id),
            final(self)@ == if r {
                SimView { timer: None, ..old(self)@ }
            } else {
                old(self)@
            },
    {
        let ghost start = self@;
        assert(start.quantities_fit());
        if self.is_batch_timer(timer_id) {
            self.active_batch_timer_id = None;
            assert(self@ =~= (SimView { timer: None, ..start }));
            return true;
        }
        false
    }

    /// Carries out the commands of the strategy: orders and cancel requests are
    /// scheduled to arrive at the exchange at `ts_local`.
    pub fn handle_commands(&mut self, commands: &Vec<Command>, ts_local: TsLocalNs)
        requires
            old(self).wf(),
        ensures
            final(self).wf(),
            final(self)@ == old(self)@.commanded(commands@, ts_local),
    {
        let ghost start = self@;
        let mut i: usize = 0;
        assert(commands@.take(0) =~= Seq::empty());
        while i < commands.len()
            invariant
                i <= commands@.len(),
                self.wf(),
                self@ == start.commanded(commands@.take(i as int), ts_local),
            decreases commands@.len() - i,
        {
            proof {
                assert(commands@.take(i + 1).drop_last() =~= commands@.take(i as int));
                assert(commands@.take(i + 1).last() == commands@[i as int]);
            }
            let ghost before = self@;
            assert(before.quantities_fit());
            match commands[i] {
                Command::SubmitOrder(order) => {
                    // Engine-assigned, globally unique order_id for deterministic routing.
                    let order_id: u64 = self.next_order_id;
                    self.next_order_id = bump(self.next_order_id);
                    let mut sent: Order = order;
                    sent.ts_submit = ts_local;
                    sent.order_id = order_id;
                    fx_insert(&mut self.order_symbol_by_id, order_id, order.symbol_id);
                    assert(self@ =~= (SimView {
                        next_order_id: next_number(before.next_order_id),
                        routes: before.routes.insert(before.next_order_id, order.symbol_id),
                        ..before
                    }));
                    self.push_event(ts_local, EventKind::Order(sent));
                },
                Command::CancelOrder { order_id } => {
                    self.push_event(ts_local, EventKind::OrderCancel { order_id });
                },
            }
            i = i + 1;
        }
        assert(commands@.take(i as int) =~= commands@);
    }

    /// The ticks that wait for the strategy.
    pub fn buffered_ticks(&self) -> (r: &[Tick])
        ensures
            r@ == self@.ticks,
    {
        self.tick_buffer.as_slice()
    }

    /// The order updates that wait for the strategy.
    pub fn buffered_reports(&self) -> (r: &[OrderReport])
        ensures
            r@ == self@.reports,
    {
        self.report_buffer.as_slice()
    }

    /// The number of ticks and order updates that wait.
    pub fn buffered_count(&self) -> (r: u64)
        ensures
            r == self@.buffered(),
            r > 0 <==> self@.has_buffered(),
    {
        (self.tick_buffer.len() as u64).saturating_add(self.report_buffer.len() as u64)
    }

    /// Calls the batch timer off: any flush makes it void.
    pub fn cancel_timer(&mut self)
        requires
            old(self).wf(),
        ensures
            final(self).wf(),
            final(self)@ == (SimView { timer: None, ..old(self)@ }),
    {
        let ghost start = self@;
        assert(start.quantities_fit());
        self.active_batch_timer_id = None;
        assert(self@ =~= (SimView { timer: None, ..start }));
    }

    /// Drops the ticks that the strategy has been given.
    pub fn clear_ticks(&mut self)
        requires
            old(self).wf(),
        ensures
            final(self).wf(),
            final(self)@ == (SimView { ticks: Seq::empty(), ..old(self)@ }),
    {
        let ghost start = self@;
        assert(start.quantities_fit());
        self.tick_buffer.clear();
        assert(self@ =~= (SimView { ticks: Seq::empty(), ..start }));
    }

    /// Drops the order updates that the strategy has been given.
    pub fn clear_reports(&mut self)
        requires
            old(self).wf(),
        ensures
            final(self).wf(),
            final(self)@ == (SimView { reports: Seq::empty(), ..old(self)@ }),
    {
        let ghost start = self@;
        assert(start.quantities_fit());
        self.report_buffer.clear();
        assert(self@ =~= (SimView { reports: Seq::empty(), ..start }));
    }

    /// Adjusts the batch size after a batch, where auto-tuning is on.
    pub fn tune(&mut self, duration_ns: i64, items: u64)
        requires
            old(self).wf(),
        ensures
            final(self).wf(),
            final(self)@ == old(self)@.tuned(duration_ns, items),
    {
        let ghost start = self@;
        assert(start.quantities_fit());
        if self.config.mode == EngineMode::Batch && self.config.auto_tune {
            self.tuner.record_batch(duration_ns, items);
            self.config.max_batch_ns = self.tuner.current_batch_ns();
        }
        assert(self@ =~= start.tuned(duration_ns, items));
    }

    /// Sets whether a wake-up waits for other events of the same time.
    pub fn set_pending_wakeup(&mut self, pending: bool)
        requires
            old(self).wf(),
        ensures
            final(self).wf(),
            final(self)@ == (SimView { pending_wakeup: pending, ..old(self)@ }),
    {
        let ghost start = self@;
        assert(start.quantities_fit());
        self.pending_wakeup = pending;
        assert(self@ =~= (SimView { pending_wakeup: pending, ..start }));
    }

    pub fn is_wakeup_pending(&self) -> (r: bool)
        ensures
            r == self@.pending_wakeup,
    {
        self.pending_wakeup
    }

    pub fn config(&self) -> (r: &EngineConfig)
        ensures
            *r == self@.config,
    {
        &self.config
    }

    pub fn now(&self) -> (r: i64)
        ensures
            r == self@.now,
    {
        self.now_ts_sim
    }

    pub fn market(&self) -> (r: &MarketView)
        ensures
            r@ == self@.market,
    {
        &self.market
    }

    pub fn account(&self) -> (r: &Account)
        ensures
            r@ == self@.account,
    {
        &self.account
    }

    pub fn trade_log(&self) -> (r: &TradeLog)
        ensures
            r@ == self@.log,
    {
        &self.trade_log
    }
}

/// The passive fills that a list of reports speaks of.
fn collect_fills<Q: QueueModel + Copy>(
    ex: &ExchangeSimulator<Q>,
    reports: &Vec<OrderReport>,
    ts: i64,
    fee_bps: i64,
) -> (r: Vec<OrderFill>)
    ensures
        r@ == maker_fills(ex@, reports@, ts, fee_bps),
{
    let mut fills: Vec<OrderFill> = Vec::new();
    let mut i: usize = 0;
    assert(reports@.take(0) =~= Seq::empty());
    while i < reports.len()
        invariant
            i <= reports@.len(),
            fills@ == maker_fills(ex@, reports@.take(i as int), ts, fee_bps),
        decreases reports@.len() - i,
    {
        proof {
            assert(reports@.take(i + 1).drop_last() =~= reports@.take(i as int));
            assert(reports@.take(i + 1).last() == reports@[i as int]);
        }
        let r: OrderReport = reports[i];
        if r.last_fill_qty > 0 {
            if let Some(order) = ex.get_order(r.order_id) {
                // All QueueModel fills are passive (maker) by convention.
                let fee: i64 = compute_fee(r.last_fill_price, r.last_fill_qty, fee_bps);
                fills.push(
                    (
                        order,
                        TradeFill {
                            ts_exchange: ts,
                            symbol_id: r.symbol_id,
                            order_id: r.order_id,
                            side: order.side,
                            price: r.last_fill_price,
                            qty: r.last_fill_qty,
                            fee,
                            is_taker: false,
                        },
                    ),
                );
            }
        }
        i = i + 1;
    }
    assert(reports@.take(i as int) =~= reports@);
    fills
}

} // verus!
