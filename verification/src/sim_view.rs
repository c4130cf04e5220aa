//! The simulation as a mathematical state machine: its state, and what each event
//! makes of it.
use vstd::multiset::Multiset;
use vstd::prelude::*;

use crate::account::AccountView;
use crate::event::{Event, EventId, EventKind};
use crate::event_queue::is_next;
use crate::exchange_simulator::ExchangeView;
use crate::feeds::FeedItem;
use crate::fees::fee_of;
use crate::latency_model::at_least_zero;
use crate::math::clamp_i64;
use crate::queue_model::QueueModel;
use crate::stats::{LogView, TradeFill, TradeLogMode};
use crate::strategy::Command;
use crate::tuner::TunerView;
use crate::types::{FundingEvent, L2Update, L3Update, Order, OrderReport, OrderState, Tick};

verus! {

#[derive(Debug, Clone, Copy, PartialEq, Eq, Structural)]
pub enum EngineMode {
    Tick,
    Batch,
}

#[derive(Debug, Clone, Copy)]
pub struct EngineConfig {
    /// Constant feed latency (ns). Used to translate `ts_exchange -> ts_local` when missing,
    /// and as the default delivery latency for order updates.
    pub feed_latency_ns: i64,
    /// Delivery latency (ns) applied to exchange-side order updates (fills/cancels/rejects).
    pub order_update_latency_ns: i64,
    pub mode: EngineMode,
    /// Maximum batch duration in nanoseconds (Batch mode only).
    pub max_batch_ns: i64,
    /// Enable auto-tuning of batch size (Batch mode only). When enabled, the engine
    /// dynamically adjusts batch size based on processing latency, which may affect
    /// determinism (same input may produce different results on different runs).
    pub auto_tune: bool,
    /// RNG seed for all stochastic components owned by the engine.
    pub seed: u64,
    /// Trade log retention mode.
    pub trade_log_mode: TradeLogMode,
    /// Maker fee in basis points (1 bps = 0.01%). Applied to passive fills via QueueModel.
    /// E.g., `2` = 0.02% maker fee. Fixed-point safe: fee = notional * bps / 10_000.
    pub maker_fee_bps: i64,
    /// Taker fee in basis points (1 bps = 0.01%). Applied to market order fills (`is_taker=true`).
    /// E.g., `5` = 0.05% taker fee. Fixed-point safe: fee = notional * bps / 10_000.
    pub taker_fee_bps: i64,
}

impl Default for EngineConfig {
    fn default() -> (r: Self)
        ensures
            r == (EngineConfig {
                feed_latency_ns: 0,
                order_update_latency_ns: 0,
                mode: EngineMode::Tick,
                max_batch_ns: 0,
                auto_tune: false,
                seed: 0,
                trade_log_mode: TradeLogMode::All,
                maker_fee_bps: 0,
                taker_fee_bps: 0,
            }),
    {
        EngineConfig {
            feed_latency_ns: 0,
            order_update_latency_ns: 0,
            mode: EngineMode::Tick,
            max_batch_ns: 0,
            auto_tune: false,
            seed: 0,
            trade_log_mode: TradeLogMode::All,
            maker_fee_bps: 0,
            taker_fee_bps: 0,
        }
    }
}

/// The successor of a counter that wraps around.
pub open spec fn next_number(n: u64) -> u64 {
    if n == u64::MAX {
        0
    } else {
        (n + 1) as u64
    }
}

/// The price of the last trade that the exchange saw.
pub open spec fn last_price(truth: Map<u32, Tick>, symbol_id: u32) -> Option<i64> {
    if truth.contains_key(symbol_id) {
        Some(truth[symbol_id].price)
    } else {
        None
    }
}

/// When a tick reaches the strategy: at its local time, or after the feed latency
/// where it has none.
pub open spec fn delivery_ts(config: EngineConfig, tick: Tick) -> i64 {
    if tick.ts_local == 0 {
        clamp_i64(tick.ts_exchange + config.feed_latency_ns)
    } else {
        tick.ts_local
    }
}

/// The time of the earliest queued event.
pub open spec fn next_ts(queue: Multiset<Event>) -> Option<i64> {
    if queue.len() == 0 {
        None
    } else {
        Some((choose|e: Event| is_next(queue, e)).id.ts_sim)
    }
}

/// A fill together with the order it belongs to.
pub type OrderFill = (Order, TradeFill);

/// The trade log row of a report on a fill.
pub open spec fn fill_row(
    ts: i64,
    order: Order,
    symbol_id: u32,
    order_id: u64,
    price: i64,
    qty: i64,
    fee_bps: i64,
    is_taker: bool,
) -> TradeFill {
    TradeFill {
        ts_exchange: ts,
        order_id,
        price,
        qty,
        fee: fee_of(price, qty, fee_bps),
        symbol_id,
        side: order.side,
        is_taker,
    }
}

/// The passive fills that a list of reports speaks of.
pub open spec fn maker_fills<Q: QueueModel>(
    ex: ExchangeView<Q>,
    reports: Seq<OrderReport>,
    ts: i64,
    fee_bps: i64,
) -> Seq<OrderFill>
    decreases reports.len(),
{
    if reports.len() == 0 {
        Seq::empty()
    } else {
        let before = maker_fills(ex, reports.drop_last(), ts, fee_bps);
        let r = reports.last();
        if r.last_fill_qty > 0 && ex.orders.contains_key(r.order_id) {
            let order = ex.orders[r.order_id].order;
            before.push(
                (
                    order,
                    fill_row(
                        ts,
                        order,
                        r.symbol_id,
                        r.order_id,
                        r.last_fill_price,
                        r.last_fill_qty,
                        fee_bps,
                        false,
                    ),
                ),
            )
        } else {
            before
        }
    }
}

/// The log after a list of fills.
pub open spec fn logged(log: LogView, fills: Seq<OrderFill>) -> LogView
    decreases fills.len(),
{
    if fills.len() == 0 {
        log
    } else {
        logged(log, fills.drop_last()).with_fill(fills.last().1)
    }
}

/// Account and log after a list of fills was settled: each fill moves the position and
/// adds a PnL entry of what it realised, less its fee.
pub open spec fn settled(account: AccountView, log: LogView, ts: i64, fills: Seq<OrderFill>) -> (
    AccountView,
    LogView,
)
    decreases fills.len(),
{
    if fills.len() == 0 {
        (account, log)
    } else {
        let (a, l) = settled(account, log, ts, fills.drop_last());
        let (order, f) = fills.last();
        (
            a.with_fill_at(order, f.qty, f.price),
            l.with_pnl(ts, clamp_i64(a.realised_at(order, f.qty, f.price) - f.fee), true),
        )
    }
}

/// What came from outside during one step.
pub ghost struct Outcome {
    /// Market data taken from the sources.
    pub items: Seq<FeedItem>,
    /// Commands that the strategy gave in the callback of the event.
    pub commands: Seq<Command>,
    /// Order entry latency, as the model sampled it.
    pub delay: i64,
    /// Commands that the strategy gave when its batch was flushed.
    pub flush: Seq<Command>,
    /// Wall-clock time that the flush took (ns).
    pub duration: i64,
}

/// The mathematical state of the simulation.
#[verifier::reject_recursive_types(Q)]
#[verifier::ext_equal]
pub struct SimView<Q: QueueModel> {
    pub config: EngineConfig,
    pub queue: Multiset<Event>,
    pub next_event_seq: u64,
    pub now: i64,
    /// Prototype for the queue model of a new exchange.
    pub model: Q,
    pub exchanges: Map<u32, ExchangeView<Q>>,
    /// Which exchange an order was sent to.
    pub routes: Map<u64, u32>,
    pub next_order_id: u64,
    pub account: AccountView,
    pub log: LogView,
    /// The last tick of each symbol that was delivered to the strategy.
    pub market: Map<u32, Tick>,
    /// The last tick of each symbol at the exchange.
    pub truth: Map<u32, Tick>,
    pub ticks: Seq<Tick>,
    pub reports: Seq<OrderReport>,
    pub timer: Option<u64>,
    pub next_timer_id: u64,
    pub pending_wakeup: bool,
    pub tuner: TunerView,
}

impl<Q: QueueModel> SimView<Q> {
    pub open spec fn fresh(model: Q, config: EngineConfig) -> Self {
        SimView {
            config,
            queue: Multiset::empty(),
            next_event_seq: 0,
            now: 0,
            model,
            exchanges: Map::empty(),
            routes: Map::empty(),
            next_order_id: 1,
            account: AccountView::empty(),
            log: LogView::fresh(config.trade_log_mode),
            market: Map::empty(),
            truth: Map::empty(),
            ticks: Seq::empty(),
            reports: Seq::empty(),
            timer: None,
            next_timer_id: 1,
            pending_wakeup: false,
            tuner: TunerView::fresh(
                100_000,
                if config.max_batch_ns > 0 {
                    config.max_batch_ns
                } else {
                    1_000_000_000
                },
                config.max_batch_ns,
                500,
            ),
        }
    }

    /// After an event was scheduled: it gets the next sequence number.
    pub open spec fn pushed(self, ts: i64, kind: EventKind) -> Self {
        SimView {
            queue: self.queue.insert(
                Event { id: EventId { ts_sim: ts, seq: self.next_event_seq }, kind },
            ),
            next_event_seq: next_number(self.next_event_seq),
            ..self
        }
    }

    /// After market data came in: a tick is scheduled at the exchange, and for delivery
    /// to the strategy; a book update at the exchange only.
    pub open spec fn fed(self, item: FeedItem) -> Self {
        match item {
            FeedItem::Tick(tick) => {
                let delivery = delivery_ts(self.config, tick);
                self.pushed(tick.ts_exchange, EventKind::Tick(tick)).pushed(
                    delivery,
                    EventKind::TickDelivery(Tick { ts_local: delivery, ..tick }),
                )
            },
            FeedItem::L3(update) => self.pushed(update.ts_exchange, EventKind::L3Update(update)),
        }
    }

    pub open spec fn fed_all(self, items: Seq<FeedItem>) -> Self
        decreases items.len(),
    {
        if items.len() == 0 {
            self
        } else {
            self.fed_all(items.drop_last()).fed(items.last())
        }
    }

    /// The exchange of a symbol: a new one with a price-level book where there is none.
    pub open spec fn exchange(self, symbol_id: u32) -> ExchangeView<Q> {
        if self.exchanges.contains_key(symbol_id) {
            self.exchanges[symbol_id]
        } else {
            ExchangeView::fresh(self.model, false)
        }
    }

    pub open spec fn with_exchange(self, symbol_id: u32, ex: ExchangeView<Q>) -> Self {
        SimView { exchanges: self.exchanges.insert(symbol_id, ex), ..self }
    }

    /// When an order update that happens now reaches the strategy.
    pub open spec fn update_ts(self) -> i64 {
        clamp_i64(self.now + self.config.order_update_latency_ns)
    }

    /// After order updates were scheduled for delivery.
    pub open spec fn notified(self, ts: i64, reports: Seq<OrderReport>) -> Self
        decreases reports.len(),
    {
        if reports.len() == 0 {
            self
        } else {
            self.notified(ts, reports.drop_last()).pushed(
                ts,
                EventKind::OrderReport(reports.last()),
            )
        }
    }

    /// After fills were logged and settled.
    pub open spec fn booked(self, ts: i64, fills: Seq<OrderFill>) -> Self {
        let (account, log) = settled(self.account, logged(self.log, fills), ts, fills);
        SimView { account, log, ..self }
    }

    /// After a tick at the exchange. It drives the exchange only: the strategy learns
    /// of fills by the updates, and of the tick when it is delivered.
    pub open spec fn truth_tick(self, tick: Tick) -> Self {
        let (ex, reports) = self.exchange(tick.symbol_id).after_trade(tick);
        let fills = maker_fills(ex, reports, tick.ts_exchange, self.config.maker_fee_bps);
        SimView { truth: self.truth.insert(tick.symbol_id, tick), ..self }.with_exchange(
            tick.symbol_id,
            ex,
        ).booked(tick.ts_exchange, fills).notified(
            clamp_i64(tick.ts_exchange + self.config.order_update_latency_ns),
            reports,
        )
    }

    /// After a tick was delivered: the strategy's view changes, and in batch mode the
    /// tick waits for the flush, for which a timer is set.
    pub open spec fn delivered(self, tick: Tick) -> Self {
        let seen = SimView { market: self.market.insert(tick.symbol_id, tick), ..self };
        if self.config.mode is Tick {
            seen
        } else {
            let buffered = SimView { ticks: self.ticks.push(tick), ..seen };
            if self.timer is None && self.config.max_batch_ns > 0 {
                SimView {
                    timer: Some(self.next_timer_id),
                    next_timer_id: next_number(self.next_timer_id),
                    ..buffered
                }.pushed(
                    clamp_i64(tick.ts_local + self.config.max_batch_ns),
                    EventKind::Timer { timer_id: self.next_timer_id },
                )
            } else {
                buffered
            }
        }
    }

    /// Whether a price-level update meets an order-by-order book, or the reverse.
    pub open spec fn depth_clash(self, kind: EventKind) -> bool {
        match kind {
            EventKind::L2Update(update) => self.exchange(update.symbol_id).book_l3 is Some,
            EventKind::L3Update(update) => self.exchanges.contains_key(update.symbol_id)
                && self.exchanges[update.symbol_id].book_l3 is None,
            _ => false,
        }
    }

    pub open spec fn l2_updated(self, update: L2Update) -> Self {
        self.with_exchange(
            update.symbol_id,
            self.exchange(update.symbol_id).l2_updated(update),
        )
    }

    /// After a book update; the first one of a symbol makes its exchange keep an
    /// order-by-order book.
    pub open spec fn l3_updated(self, update: L3Update) -> Self {
        let ex = if self.exchanges.contains_key(update.symbol_id) {
            self.exchanges[update.symbol_id]
        } else {
            ExchangeView::fresh(self.model, true)
        };
        self.with_exchange(update.symbol_id, ex.l3_updated(update))
    }

    /// After a market order arrived: it takes the best price at once, else the last
    /// trade's; what is not filled is cancelled. An order without a side is ignored.
    pub open spec fn market_order(self, order: Order) -> Self {
        if order.side is NoSide {
            self
        } else {
            let ex = self.exchange(order.symbol_id).submitted(order);
            let (after, report) = ex.market_filled(
                order.order_id,
                last_price(self.truth, order.symbol_id),
            );
            let filled = ex.with_order(order.order_id, after);
            let row = fill_row(
                self.now,
                order,
                order.symbol_id,
                order.order_id,
                report.last_fill_price,
                report.last_fill_qty,
                self.config.taker_fee_bps,
                true,
            );
            match report.status {
                OrderState::Filled => self.with_exchange(order.symbol_id, filled).booked(
                    self.now,
                    seq![(order, row)],
                ).pushed(self.update_ts(), EventKind::OrderReport(report)),
                OrderState::PartiallyFilled => {
                    let cancelled = filled.with_state(order.order_id, OrderState::Cancelled);
                    self.with_exchange(order.symbol_id, cancelled).booked(
                        self.now,
                        seq![(order, row)],
                    ).pushed(self.update_ts(), EventKind::OrderReport(report)).pushed(
                        self.update_ts(),
                        EventKind::OrderReport(
                            cancelled.orders[order.order_id].report(
                                0,
                                0,
                                Some("market order partial fill: remaining qty cancelled"),
                            ),
                        ),
                    )
                },
                _ => self.with_exchange(order.symbol_id, filled).pushed(
                    self.update_ts(),
                    EventKind::OrderReport(report),
                ),
            }
        }
    }

    /// When the exchange answers a request that arrives now.
    pub open spec fn answer_ts(self, delay: i64) -> i64 {
        clamp_i64(self.now + at_least_zero(delay))
    }

    /// After an order arrived at the exchange.
    pub open spec fn order_arrived(self, order: Order, delay: i64) -> Self {
        if order.order_type is Market {
            self.market_order(order)
        } else {
            self.with_exchange(
                order.symbol_id,
                self.exchange(order.symbol_id).submitted(order),
            ).pushed(self.answer_ts(delay), EventKind::OrderAck { order_id: order.order_id })
        }
    }

    /// After the exchange acknowledged an order.
    pub open spec fn order_acked(self, order_id: u64) -> Self {
        if self.routes.contains_key(order_id) {
            let symbol_id = self.routes[order_id];
            let ex = self.exchange(symbol_id);
            if ex.orders.contains_key(order_id) && ex.orders[order_id].state is PendingNew {
                let open = ex.with_state(order_id, OrderState::Open);
                self.with_exchange(symbol_id, open).pushed(
                    self.update_ts(),
                    EventKind::OrderReport(
                        OrderReport { filled_qty: 0, ..open.orders[order_id].report(0, 0, None) },
                    ),
                )
            } else {
                self.with_exchange(symbol_id, ex)
            }
        } else {
            self
        }
    }

    /// Whether the exchange takes up a cancel request.
    pub open spec fn can_cancel(self, order_id: u64) -> bool {
        let ex = self.exchange(self.routes[order_id]);
        self.routes.contains_key(order_id) && ex.orders.contains_key(order_id) && (
        ex.orders[order_id].state is Open || ex.orders[order_id].state is PartiallyFilled)
    }

    /// After a cancel request arrived at the exchange.
    pub open spec fn cancel_arrived(self, order_id: u64, delay: i64) -> Self {
        if !self.routes.contains_key(order_id) {
            self
        } else {
            let symbol_id = self.routes[order_id];
            let ex = self.exchange(symbol_id);
            if self.can_cancel(order_id) {
                self.with_exchange(
                    symbol_id,
                    ex.with_state(order_id, OrderState::PendingCancel),
                ).pushed(self.answer_ts(delay), EventKind::OrderCancelAck { order_id })
            } else {
                self.with_exchange(symbol_id, ex)
            }
        }
    }

    /// After the exchange carried a cancel out, unless a fill was faster.
    pub open spec fn cancel_acked(self, order_id: u64) -> Self {
        if self.routes.contains_key(order_id) {
            let symbol_id = self.routes[order_id];
            let ex = self.exchange(symbol_id);
            if ex.orders.contains_key(order_id) && ex.orders[order_id].state is PendingCancel {
                let done = ex.with_state(order_id, OrderState::Cancelled);
                self.with_exchange(symbol_id, done).pushed(
                    self.update_ts(),
                    EventKind::OrderReport(done.orders[order_id].report(0, 0, None)),
                )
            } else {
                self.with_exchange(symbol_id, ex)
            }
        } else {
            self
        }
    }

    /// After an order update was delivered: an order that is done is forgotten; in batch
    /// mode the update waits for the flush.
    pub open spec fn report_arrived(self, report: OrderReport) -> Self {
        let id = report.order_id;
        let cleaned = if report.status.terminal() {
            let left = if self.routes.contains_key(id) {
                self.with_exchange(
                    self.routes[id],
                    self.exchange(self.routes[id]).removed(id),
                )
            } else {
                self
            };
            SimView { routes: self.routes.remove(id), ..left }
        } else {
            self
        };
        if self.config.mode is Batch {
            SimView { reports: self.reports.push(report), ..cleaned }
        } else {
            cleaned
        }
    }

    /// After a funding payment, at the price of the last trade.
    pub open spec fn funded(self, event: FundingEvent) -> Self {
        let mark = match last_price(self.truth, event.symbol_id) {
            Some(price) => price,
            None => 0,
        };
        SimView {
            account: self.account.with_funding(event, mark),
            log: self.log.with_pnl(
                event.ts_exchange,
                self.account.funding(event, mark),
                false,
            ),
            ..self
        }
    }

    /// After one command of the strategy: an order gets its identifier and route.
    pub open spec fn commanded_one(self, command: Command, ts: i64) -> Self {
        match command {
            Command::SubmitOrder(order) => {
                let sent = Order { ts_submit: ts, order_id: self.next_order_id, ..order };
                SimView {
                    next_order_id: next_number(self.next_order_id),
                    routes: self.routes.insert(self.next_order_id, order.symbol_id),
                    ..self
                }.pushed(ts, EventKind::Order(sent))
            },
            Command::CancelOrder { order_id } => self.pushed(
                ts,
                EventKind::OrderCancel { order_id },
            ),
        }
    }

    /// After the commands of the strategy, in the order given.
    pub open spec fn commanded(self, commands: Seq<Command>, ts: i64) -> Self
        decreases commands.len(),
    {
        if commands.len() == 0 {
            self
        } else {
            self.commanded(commands.drop_last(), ts).commanded_one(commands.last(), ts)
        }
    }

    /// Whether there is anything to flush.
    pub open spec fn has_buffered(self) -> bool {
        self.ticks.len() > 0 || self.reports.len() > 0
    }

    /// The number of ticks and updates that wait.
    pub open spec fn buffered(self) -> u64 {
        if self.ticks.len() + self.reports.len() > u64::MAX {
            u64::MAX
        } else {
            (self.ticks.len() + self.reports.len()) as u64
        }
    }

    /// After a batch of `items` took `duration` to process.
    pub open spec fn tuned(self, duration: i64, items: u64) -> Self {
        if self.config.mode is Batch && self.config.auto_tune {
            let tuner = self.tuner.recorded(duration, items);
            SimView {
                tuner,
                config: EngineConfig { max_batch_ns: tuner.current, ..self.config },
                ..self
            }
        } else {
            self
        }
    }

    /// After the strategy was woken with everything that waited for it.
    pub open spec fn flushed(self, ts: i64, commands: Seq<Command>, duration: i64) -> Self {
        if self.has_buffered() {
            SimView {
                timer: None,
                ticks: Seq::empty(),
                reports: Seq::empty(),
                ..self
            }.commanded(commands, ts).tuned(duration, self.buffered())
        } else {
            self
        }
    }

    /// After the event itself, before any wake-up.
    pub open spec fn handled(self, kind: EventKind, commands: Seq<Command>, delay: i64) -> Self {
        match kind {
            EventKind::Tick(tick) => self.truth_tick(tick),
            EventKind::TickDelivery(tick) => if self.config.mode is Tick {
                self.delivered(tick).commanded(commands, tick.ts_local)
            } else {
                self.delivered(tick)
            },
            EventKind::L2Update(update) => self.l2_updated(update),
            EventKind::L3Update(update) => self.l3_updated(update),
            EventKind::Order(order) => self.order_arrived(order, delay),
            EventKind::OrderAck { order_id } => self.order_acked(order_id),
            EventKind::OrderCancel { order_id } => self.cancel_arrived(order_id, delay),
            EventKind::OrderCancelAck { order_id } => self.cancel_acked(order_id),
            EventKind::OrderReport(report) => if self.config.mode is Tick {
                self.report_arrived(report).commanded(commands, self.now)
            } else {
                self.report_arrived(report)
            },
            EventKind::Funding(event) => self.funded(event).commanded(commands, self.now),
            EventKind::Timer { timer_id } => if self.rings(timer_id) {
                SimView { timer: None, ..self }
            } else {
                self
            },
        }
    }

    /// Whether a timer is the one that the current batch waits for.
    pub open spec fn rings(self, timer_id: u64) -> bool {
        self.config.mode is Batch && self.timer == Some(timer_id)
    }

    /// Whether an event asks to wake the strategy in batch mode.
    pub open spec fn asks_wakeup(self, kind: EventKind) -> bool {
        match kind {
            EventKind::OrderReport(_) | EventKind::Funding(_) => true,
            EventKind::Timer { timer_id } => self.rings(timer_id),
            _ => false,
        }
    }

    /// Whether an event is a cancel request for an order that is not known: nothing is
    /// done for it, not even a wake-up that was pending.
    pub open spec fn is_unknown_cancel(self, kind: EventKind) -> bool {
        kind matches EventKind::OrderCancel { order_id } && !self.routes.contains_key(order_id)
    }

    /// After the wake-up in batch mode: the strategy is woken when no other event has
    /// the same time, else later.
    pub open spec fn woken(self, wakeup: bool, flush: Seq<Command>, duration: i64) -> Self {
        if self.config.mode is Batch && (wakeup || self.pending_wakeup) {
            if next_ts(self.queue) != Some(self.now) {
                SimView { pending_wakeup: false, ..self.flushed(self.now, flush, duration) }
            } else {
                SimView { pending_wakeup: true, ..self }
            }
        } else {
            self
        }
    }

    /// After the clock moved to an event, which left the queue.
    pub open spec fn arrived(self, event: Event) -> Self {
        SimView { queue: self.queue.remove(event), now: event.id.ts_sim, ..self }
    }

    /// After the event that the clock moved to was taken up.
    #[verifier::opaque]
    pub open spec fn taken_up(self, kind: EventKind, x: Outcome) -> Self {
        if self.is_unknown_cancel(kind) {
            self
        } else {
            self.handled(kind, x.commands, x.delay).woken(
                self.asks_wakeup(kind),
                x.flush,
                x.duration,
            )
        }
    }

    /// After one event was processed.
    pub open spec fn processed(self, event: Event, x: Outcome) -> Self {
        self.arrived(event).taken_up(event.kind, x)
    }

    /// After one step: market data came in, then the next event was processed.
    pub open spec fn stepped(self, event: Event, x: Outcome) -> Self {
        self.fed_all(x.items).processed(event, x)
    }

    /// Quantities of live orders add up without overflow on every exchange.
    pub open spec fn quantities_fit(self) -> bool {
        forall|symbol_id: u32| #[trigger]
            self.exchanges.contains_key(symbol_id) ==> self.exchanges[symbol_id].quantities_fit()
    }
}

} // verus!
