use backtester_core::backtest::{
    callback_for_batch, callback_for_one, log_mode_of, parse_log_mode, run_events,
    BacktestOptions, Callback, RequestBuffer, RunSummary,
};
use backtester_core::engine::{
    Command, Context, Engine, EngineConfig, EngineError, EngineMode, MarketView, Strategy,
};
use backtester_core::event::EventKind;
use backtester_core::fixtures;
use backtester_core::l3_source::L3Source;
use backtester_core::latency_model::ConstantLatency;
use backtester_core::orderbook_l3::L3_ADD;
use backtester_core::queue_model::{ConservativeQueue, L3ExactQueue};
use backtester_core::stats::TradeLogMode;
use backtester_core::sweep::run_parameter_sweep;
use backtester_core::tick_source::{TickSource, TickSourceError};
use backtester_core::types::{
    FundingEvent, L3Update, Order, OrderReport, OrderState, OrderType, Side, Tick,
};

const UNIT: i64 = 100_000_000;

/// Submits its orders with the first tick, and keeps note of what it is told.
#[derive(Default, Clone)]
struct Script {
    orders: Vec<Order>,
    cancels: Vec<u64>,
    fail_on_tick: Option<usize>,
    ticks: Vec<(i64, i64, Option<i64>)>,
    batches: Vec<(i64, usize)>,
    reports: Vec<(i64, OrderReport)>,
    fundings: usize,
}

impl Strategy for Script {
    type Error = &'static str;

    fn on_tick(&mut self, tick: &Tick, ctx: &mut Context<'_>) -> Result<(), &'static str> {
        let seen = ctx.market().last_trade(tick.symbol_id).map(|t| t.ts_exchange);
        self.ticks.push((ctx.ts_local(), tick.ts_exchange, seen));
        if self.fail_on_tick == Some(self.ticks.len()) {
            return Err("enough");
        }
        for order in self.orders.drain(..) {
            ctx.submit_order(order);
        }
        Ok(())
    }

    fn on_ticks(&mut self, ticks: &[Tick], ctx: &mut Context<'_>) -> Result<(), &'static str> {
        self.batches.push((ctx.ts_local(), ticks.len()));
        for tick in ticks {
            self.on_tick(tick, ctx)?;
        }
        Ok(())
    }

    fn on_order_update(
        &mut self,
        report: &OrderReport,
        ctx: &mut Context<'_>,
    ) -> Result<(), &'static str> {
        self.reports.push((ctx.ts_local(), *report));
        for order_id in self.cancels.drain(..) {
            ctx.cancel_order(order_id);
        }
        Ok(())
    }

    fn on_funding(&mut self, _: &FundingEvent, _: &mut Context<'_>) -> Result<(), &'static str> {
        self.fundings += 1;
        Ok(())
    }
}

fn no_latency() -> ConstantLatency {
    ConstantLatency {
        feed_latency_ns: 0,
        order_latency_ns: 0,
    }
}

fn order(order_type: OrderType, side: Side, price: i64, qty: i64) -> Order {
    Order {
        order_id: 0,
        ts_submit: 0,
        seq: 0,
        price,
        qty,
        symbol_id: 1,
        side,
        order_type,
    }
}

fn tick(ts: i64, seq: u64, price: i64, side: Side) -> Tick {
    Tick {
        ts_exchange: ts,
        ts_local: ts,
        seq,
        price,
        qty: UNIT,
        symbol_id: 1,
        side,
        flags: 1,
    }
}

fn engine(
    script: Script,
    config: EngineConfig,
) -> Engine<ConservativeQueue, Script, ConstantLatency> {
    Engine::new(ConservativeQueue, script, config, no_latency())
}

fn push_tick(eng: &mut Engine<ConservativeQueue, Script, ConstantLatency>, t: Tick, at: i64) {
    eng.push_event(t.ts_exchange, EventKind::Tick(t));
    eng.push_event(at, EventKind::TickDelivery(Tick { ts_local: at, ..t }));
}

#[test]
fn a_strategy_sees_what_was_delivered_and_no_more() {
    let mut eng = engine(Script::default(), EngineConfig::default());
    push_tick(&mut eng, tick(10, 0, UNIT, Side::Buy), 25);
    push_tick(&mut eng, tick(20, 1, UNIT, Side::Buy), 35);
    eng.run().expect("run");
    assert_eq!(
        eng.strategy().ticks,
        vec![(25, 10, Some(10)), (35, 20, Some(20))]
    );
    assert_eq!(eng.market_view().last_trade(1).map(|t| t.ts_exchange), Some(20));
    assert!(eng.market_view().last_trade(2).is_none());
}

#[test]
fn steps_process_one_event_at_a_time() {
    let mut eng = engine(Script::default(), EngineConfig::default());
    eng.push_event(30, EventKind::Timer { timer_id: 9 });
    push_tick(&mut eng, tick(10, 0, UNIT, Side::Buy), 10);
    let first = eng.step().expect("step").expect("event");
    assert_eq!((first.ts_sim(), first.seq()), (10, 1));
    assert!(matches!(first.kind, EventKind::Tick(_)));
    assert!(eng.market_view().last_trade(1).is_none());
    let second = eng.step().expect("step").expect("event");
    assert!(matches!(second.kind, EventKind::TickDelivery(_)));
    assert_eq!(eng.step().expect("step").expect("event").ts_sim(), 30);
    assert!(eng.step().expect("step").is_none());
}

#[test]
fn the_rest_of_a_market_order_never_rests() {
    let script = Script {
        orders: vec![order(OrderType::Market, Side::Buy, 0, 10)],
        ..Script::default()
    };
    let config = EngineConfig {
        taker_fee_bps: 10,
        ..EngineConfig::default()
    };
    let mut eng = engine(script, config);
    eng.push_event(
        1,
        EventKind::L2Update(fixtures::l2_update(1, 0, 200 * UNIT, 4, Side::Sell)),
    );
    let t = Tick {
        symbol_id: fixtures::SYMBOL_ID_BTC_USDT,
        ..tick(10, 0, UNIT, Side::Buy)
    };
    push_tick(&mut eng, t, 10);
    eng.run().expect("run");
    let statuses: Vec<OrderState> = eng.strategy().reports.iter().map(|r| r.1.status).collect();
    assert_eq!(statuses, vec![OrderState::PartiallyFilled, OrderState::Cancelled]);
    assert_eq!(eng.known_order_count(), 0);
    let fills = eng.trade_log().fills_vec();
    assert_eq!(fills.len(), 1);
    assert!(fills[0].is_taker);
    assert_eq!((fills[0].price, fills[0].qty), (200 * UNIT, 4));
    assert_eq!(eng.account().position_qty(1), 4);
}

#[test]
fn a_market_order_without_a_price_is_rejected() {
    let script = Script {
        orders: vec![Order {
            symbol_id: 5,
            ..order(OrderType::Market, Side::Buy, 0, 10)
        }],
        ..Script::default()
    };
    let mut eng = engine(script, EngineConfig::default());
    push_tick(&mut eng, tick(10, 0, UNIT, Side::Buy), 10);
    eng.run().expect("run");
    let reports = &eng.strategy().reports;
    assert_eq!(reports.len(), 1);
    assert_eq!(reports[0].1.status, OrderState::Rejected);
    assert_eq!(reports[0].1.reason, Some("book empty"));
    assert!(eng.trade_log().is_empty());
}

#[test]
fn a_cancel_is_carried_out_after_its_latency() {
    let script = Script {
        orders: vec![order(OrderType::Limit, Side::Buy, 50 * UNIT, UNIT)],
        cancels: vec![1],
        ..Script::default()
    };
    let latency = ConstantLatency {
        feed_latency_ns: 0,
        order_latency_ns: 7,
    };
    let mut eng: Engine<ConservativeQueue, Script, ConstantLatency> =
        Engine::new(ConservativeQueue, script, EngineConfig::default(), latency);
    push_tick(&mut eng, tick(10, 0, 60 * UNIT, Side::Buy), 10);
    eng.run().expect("run");
    let told: Vec<(i64, OrderState)> =
        eng.strategy().reports.iter().map(|r| (r.0, r.1.status)).collect();
    assert_eq!(told, vec![(17, OrderState::Open), (24, OrderState::Cancelled)]);
    assert_eq!(eng.known_order_count(), 0);
}

#[test]
fn order_ids_count_up_and_an_unknown_cancel_is_ignored() {
    let script = Script {
        orders: vec![
            order(OrderType::Limit, Side::Buy, 50 * UNIT, UNIT),
            order(OrderType::Limit, Side::Sell, 90 * UNIT, UNIT),
        ],
        cancels: vec![77],
        ..Script::default()
    };
    let mut eng = engine(script, EngineConfig::default());
    push_tick(&mut eng, tick(10, 0, 60 * UNIT, Side::Buy), 10);
    eng.run().expect("run");
    assert_eq!(eng.known_order_count(), 2);
    assert_eq!(eng.order_at_exchange(1, 1).map(|o| o.side), Some(Side::Buy));
    assert_eq!(eng.order_at_exchange(1, 2).map(|o| o.side), Some(Side::Sell));
    assert_eq!(eng.order_at_exchange(1, 2).map(|o| o.ts_submit), Some(10));
    assert_eq!(eng.order_at_exchange(1, 3), None);
    assert_eq!(eng.order_at_exchange(2, 1), None);
}

#[test]
fn symbols_are_isolated() {
    let script = Script {
        orders: vec![order(OrderType::Limit, Side::Buy, 60 * UNIT, UNIT)],
        ..Script::default()
    };
    let mut eng = engine(script, EngineConfig::default());
    push_tick(&mut eng, tick(10, 0, 60 * UNIT, Side::Buy), 10);
    // A trade of another symbol at the price of the order does not fill it.
    let other = Tick {
        symbol_id: 2,
        ..tick(20, 1, 60 * UNIT, Side::Sell)
    };
    push_tick(&mut eng, other, 20);
    eng.run().expect("run");
    assert!(eng.trade_log().is_empty());
    push_tick(&mut eng, tick(30, 2, 60 * UNIT, Side::Sell), 30);
    eng.run().expect("run");
    assert_eq!(eng.trade_log().len(), 1);
    assert_eq!(eng.account().position_qty(1), UNIT);
    assert_eq!(eng.account().position_qty(2), 0);
}

#[test]
fn batches_are_flushed_by_the_timer_and_at_the_end() {
    let config = EngineConfig {
        mode: EngineMode::Batch,
        max_batch_ns: 100,
        ..EngineConfig::default()
    };
    let mut eng = engine(Script::default(), config);
    for (i, ts) in [1_000, 1_050, 1_099, 1_500].into_iter().enumerate() {
        push_tick(&mut eng, tick(ts, i as u64, UNIT, Side::Buy), ts);
    }
    eng.run().expect("run");
    assert_eq!(eng.strategy().batches, vec![(1_100, 3), (1_600, 1)]);

    // Without a timer everything waits for the end.
    let config = EngineConfig {
        max_batch_ns: 0,
        ..config
    };
    let mut eng = engine(Script::default(), config);
    for (i, ts) in [1_000, 1_050].into_iter().enumerate() {
        push_tick(&mut eng, tick(ts, i as u64, UNIT, Side::Buy), ts);
    }
    eng.run().expect("run");
    assert_eq!(eng.strategy().batches, vec![(1_050, 2)]);
}

#[test]
fn funding_is_told_and_booked_in_any_mode() {
    for mode in [EngineMode::Tick, EngineMode::Batch] {
        let config = EngineConfig {
            mode,
            ..EngineConfig::default()
        };
        let mut eng = engine(Script::default(), config);
        let funding = FundingEvent {
            ts_exchange: 5,
            rate: 10_000,
            symbol_id: 1,
        };
        eng.push_event(5, EventKind::Funding(funding));
        eng.run().expect("run");
        assert_eq!(eng.strategy().fundings, 1);
        // Flat positions pay nothing, and funding is no trade.
        assert_eq!(eng.account().total_funding_pnl(), 0);
        assert_eq!(eng.stats().win_count, 0);
    }
}

#[test]
fn an_error_of_the_strategy_ends_the_run() {
    let script = Script {
        fail_on_tick: Some(2),
        ..Script::default()
    };
    let mut eng = engine(script, EngineConfig::default());
    for (i, ts) in [10, 20, 30].into_iter().enumerate() {
        push_tick(&mut eng, tick(ts, i as u64, UNIT, Side::Buy), ts);
    }
    let e = eng.run().err().expect("error");
    assert!(matches!(e, EngineError::Strategy("enough")));
    assert!(e.message().is_none());
    assert_eq!(eng.strategy().ticks.len(), 2);
}

#[test]
fn depth_of_two_kinds_is_refused_for_one_symbol() {
    let update = L3Update {
        ts_exchange: 2,
        seq: 0,
        order_id: 1,
        price: 100,
        qty: 1,
        symbol_id: fixtures::SYMBOL_ID_BTC_USDT,
        side: Side::Buy,
        action: L3_ADD,
    };
    let mut eng = engine(Script::default(), EngineConfig::default());
    eng.push_event(1, EventKind::L2Update(fixtures::l2_update(1, 0, 100, 5, Side::Buy)));
    eng.push_event(2, EventKind::L3Update(update));
    let e = eng.run().err().expect("error");
    assert_eq!(e.message().as_deref(), Some("exchange is not in L3 depth mode"));

    let mut eng = engine(Script::default(), EngineConfig::default());
    eng.push_event(1, EventKind::L3Update(update));
    eng.push_event(2, EventKind::L2Update(fixtures::l2_update(2, 0, 100, 5, Side::Buy)));
    let e = eng.run().err().expect("error");
    assert_eq!(e.message().as_deref(), Some("mixed L2/L3 depth updates for one symbol"));
}

struct Listed(Vec<Tick>);

impl TickSource for Listed {
    fn peek(&mut self) -> Result<Option<&Tick>, TickSourceError> {
        Ok(self.0.first())
    }

    fn next(&mut self) -> Result<Option<Tick>, TickSourceError> {
        if self.0.is_empty() {
            Ok(None)
        } else {
            Ok(Some(self.0.remove(0)))
        }
    }

    fn symbol_id(&self) -> u32 {
        1
    }
}

struct Broken;

impl L3Source for Broken {
    fn peek(&mut self) -> Result<Option<&L3Update>, TickSourceError> {
        Err(TickSourceError::Reader("gone".to_string()))
    }

    fn next(&mut self) -> Result<Option<L3Update>, TickSourceError> {
        Err(TickSourceError::Reader("gone".to_string()))
    }

    fn symbol_id(&self) -> u32 {
        1
    }
}

#[test]
fn sources_are_merged_in_order() {
    let mut eng = engine(Script::default(), EngineConfig::default());
    let of = |list: &[(i64, u64)]| {
        Box::new(Listed(
            list.iter().map(|(ts, seq)| tick(*ts, *seq, UNIT, Side::Buy)).collect(),
        ))
    };
    eng.add_tick_source(of(&[(10, 0), (30, 5), (40, 0)]));
    eng.add_tick_source(of(&[(20, 0), (30, 2)]));
    let mut order = Vec::new();
    while let Some(event) = eng.step().expect("step") {
        if let EventKind::Tick(t) = event.kind {
            order.push((t.ts_exchange, t.seq));
        }
    }
    assert_eq!(order, vec![(10, 0), (20, 0), (30, 2), (30, 5), (40, 0)]);
    assert_eq!(eng.strategy().ticks.len(), 5);
}

#[test]
fn a_tick_without_a_local_time_takes_the_feed_latency() {
    let config = EngineConfig {
        feed_latency_ns: 9,
        ..EngineConfig::default()
    };
    let mut eng = engine(Script::default(), config);
    let t = Tick {
        ts_local: 0,
        ..tick(10, 0, UNIT, Side::Buy)
    };
    eng.add_tick_source(Box::new(Listed(vec![t])));
    eng.run().expect("run");
    assert_eq!(eng.strategy().ticks, vec![(19, 10, Some(10))]);
}

#[test]
fn a_broken_source_ends_the_run() {
    let mut eng: Engine<L3ExactQueue, Script, ConstantLatency> = Engine::new(
        L3ExactQueue,
        Script::default(),
        EngineConfig::default(),
        no_latency(),
    );
    eng.add_l3_source(Box::new(Broken));
    let e = eng.run().err().expect("error");
    assert_eq!(e.message().as_deref(), Some("error reading arrow stream: gone"));
    assert!(matches!(e, EngineError::TickSource(_)));
}

fn round_trip() -> (Script, Vec<(i64, EventKind)>) {
    let script = Script {
        orders: vec![
            order(OrderType::Limit, Side::Buy, 100 * UNIT, UNIT),
            order(OrderType::Limit, Side::Sell, 103 * UNIT, UNIT),
        ],
        ..Script::default()
    };
    let mut events = Vec::new();
    for (i, (price, side)) in [(101, Side::Buy), (100, Side::Sell), (103, Side::Buy)]
        .into_iter()
        .enumerate()
    {
        let ts = 10 * (i as i64 + 1);
        let t = tick(ts, i as u64, price * UNIT, side);
        events.push((ts, EventKind::Tick(t)));
        events.push((ts, EventKind::TickDelivery(t)));
    }
    (script, events)
}

#[test]
fn a_run_is_summed_up() {
    let (script, events) = round_trip();
    let (summary, finished) = run_events(
        ConservativeQueue,
        no_latency(),
        EngineConfig::default(),
        script,
        &events,
    );
    finished.expect("run");
    assert_eq!(summary.trades.len(), 2);
    assert_eq!(summary.pnl_history, vec![(20, 0), (30, 3 * UNIT)]);
    assert_eq!(summary.equity_curve, vec![(20, 0), (30, 3 * UNIT)]);
    assert_eq!(summary.stats.total_pnl, 3 * UNIT);
    assert_eq!(summary.stats.total_trades, 2);
    assert_eq!(summary.stats.win_count, 1);
}

#[test]
fn the_same_inputs_give_the_same_run() {
    let (script, events) = round_trip();
    let run = |seed: u64| {
        let config = EngineConfig {
            seed,
            ..EngineConfig::default()
        };
        let (summary, finished) =
            run_events(ConservativeQueue, no_latency(), config, script.clone(), &events);
        finished.expect("run");
        summary
    };
    let (a, b) = (run(1), run(1));
    assert_eq!(a.trades, b.trades);
    assert_eq!(a.stats, b.stats);
    assert_eq!(a.equity_curve, b.equity_curve);
}

#[test]
fn account_and_fill_log_agree() {
    let (script, events) = round_trip();
    let mut eng = engine(script, EngineConfig::default());
    for (ts, kind) in &events[..4] {
        eng.push_event(*ts, *kind);
    }
    eng.run().expect("run");
    let bought: i64 = eng.trade_log().fills_vec().iter().map(|f| f.qty).sum();
    assert_eq!(eng.account().position_qty(1), bought);
    assert_eq!(bought, UNIT);
    let summary = RunSummary::of_log(eng.trade_log());
    assert_eq!(summary.stats, eng.stats());
}

#[test]
fn a_failed_run_keeps_what_it_did() {
    let (mut script, events) = round_trip();
    script.fail_on_tick = Some(3);
    let (summary, finished) = run_events(
        ConservativeQueue,
        no_latency(),
        EngineConfig::default(),
        script,
        &events,
    );
    assert!(matches!(finished, Err(EngineError::Strategy("enough"))));
    assert_eq!(summary.trades.len(), 2);
}

#[test]
fn a_sweep_keeps_the_order_of_its_strategies() {
    let (script, events) = round_trip();
    let mut strategies = Vec::new();
    for i in 0..40 {
        let mut s = script.clone();
        if i % 3 == 0 {
            s.orders.clear();
        }
        strategies.push(s);
    }
    let results = run_parameter_sweep(
        ConservativeQueue,
        no_latency(),
        EngineConfig::default(),
        strategies,
        &events,
    );
    let pnl: Vec<i64> = results.iter().map(|r| r.stats.total_pnl).collect();
    let expected: Vec<i64> = (0..40).map(|i| if i % 3 == 0 { 0 } else { 3 * UNIT }).collect();
    assert_eq!(pnl, expected);
}

fn options(mode: &str, log: &str) -> BacktestOptions {
    BacktestOptions {
        feed_latency_ns: 3,
        order_update_latency_ns: 4,
        mode: mode.to_string(),
        batch_ms: 2,
        seed: u64::MAX,
        trade_log_mode: log.to_string(),
    }
}

#[test]
fn options_name_the_log_mode_in_any_case() {
    assert_eq!(log_mode_of("SummaryOnly"), TradeLogMode::SummaryOnly);
    assert_eq!(log_mode_of("NONE"), TradeLogMode::Off);
    assert_eq!(log_mode_of("RingBuffer_5"), TradeLogMode::RingBuffer(10_000));
    assert_eq!(log_mode_of("All"), TradeLogMode::All);
    assert_eq!(log_mode_of("whatever"), TradeLogMode::All);
    // In lower case only.
    assert_eq!(parse_log_mode("SummaryOnly"), TradeLogMode::All);
    assert_eq!(parse_log_mode("summaryonly"), TradeLogMode::SummaryOnly);
}

#[test]
fn options_become_a_configuration() {
    let c = options("batch", "none").engine_config();
    assert_eq!((c.feed_latency_ns, c.order_update_latency_ns), (3, 4));
    assert_eq!(c.mode, EngineMode::Batch);
    assert_eq!(c.max_batch_ns, 2_000_000);
    assert_eq!(c.seed, u64::MAX);
    assert_eq!(c.trade_log_mode, TradeLogMode::Off);
    assert!(!c.auto_tune);
    assert_eq!(options("Batch", "all").engine_config().mode, EngineMode::Tick);
    let mut wide = options("tick", "all");
    wide.batch_ms = i64::MAX;
    assert_eq!(wide.engine_config().max_batch_ns, i64::MAX);
}

#[test]
fn further_runs_take_further_seeds() {
    let o = options("tick", "all");
    assert_eq!(o.feed_bound_config(0).seed, u64::MAX);
    assert_eq!(o.feed_bound_config(1).seed, 0);
    assert_eq!(o.feed_bound_config(5).order_update_latency_ns, 3);
}

#[test]
fn requests_are_numbered_and_passed_on() {
    let mut requests = RequestBuffer::new(55);
    assert_eq!(requests.ts_local(), 55);
    requests.submit_order(1, 1, 100, 5);
    requests.submit_order(2, -1, 101, 6);
    let market = MarketView::default();
    let mut ctx = Context::new(60, &market);
    requests.apply(&mut ctx).expect("sides");
    let commands = ctx.into_commands();
    assert_eq!(commands.len(), 2);
    match commands[1] {
        Command::SubmitOrder(o) => {
            assert_eq!((o.seq, o.symbol_id, o.price, o.qty), (1, 2, 101, 6));
            assert_eq!((o.side, o.ts_submit), (Side::Sell, 60));
            assert_eq!(o.order_type, OrderType::Limit);
        }
        _ => panic!("not an order"),
    }
}

#[test]
fn requests_stop_at_an_unknown_side() {
    let mut requests = RequestBuffer::new(55);
    requests.submit_order(1, 0, 100, 5);
    requests.submit_order(1, 4, 100, 5);
    requests.submit_order(1, 1, 100, 5);
    let market = MarketView::default();
    let mut ctx = Context::new(55, &market);
    assert_eq!(
        requests.apply(&mut ctx),
        Err("invalid Side (expected 1, -1, or 0)")
    );
    assert_eq!(ctx.into_commands().len(), 1);
}

#[test]
fn scripts_are_called_as_they_can_be() {
    assert_eq!(callback_for_one(true, true), Callback::Each);
    assert_eq!(callback_for_one(false, true), Callback::List);
    assert_eq!(callback_for_one(false, false), Callback::Skip);
    assert_eq!(callback_for_batch(true, true), Callback::List);
    assert_eq!(callback_for_batch(true, false), Callback::Each);
    assert_eq!(callback_for_batch(false, false), Callback::Skip);
}

struct ListedUpdates(Vec<L3Update>);

impl L3Source for ListedUpdates {
    fn peek(&mut self) -> Result<Option<&L3Update>, TickSourceError> {
        Ok(self.0.first())
    }

    fn next(&mut self) -> Result<Option<L3Update>, TickSourceError> {
        if self.0.is_empty() {
            Ok(None)
        } else {
            Ok(Some(self.0.remove(0)))
        }
    }

    fn symbol_id(&self) -> u32 {
        1
    }
}

#[test]
fn ties_between_sources_are_broken_by_kind_and_position() {
    let mut eng: Engine<L3ExactQueue, Script, ConstantLatency> = Engine::new(
        L3ExactQueue,
        Script::default(),
        EngineConfig::default(),
        no_latency(),
    );
    let of = |price: i64| Box::new(Listed(vec![tick(10, 3, price, Side::Buy)]));
    eng.add_tick_source(of(1));
    eng.add_tick_source(of(2));
    eng.add_l3_source(Box::new(ListedUpdates(vec![L3Update {
        ts_exchange: 10,
        seq: 3,
        order_id: 1,
        price: 100,
        qty: 1,
        symbol_id: 1,
        side: Side::Buy,
        action: L3_ADD,
    }])));
    let mut order = Vec::new();
    while let Some(event) = eng.step().expect("step") {
        match event.kind {
            EventKind::Tick(t) => order.push(t.price),
            EventKind::L3Update(_) => order.push(0),
            _ => {}
        }
    }
    assert_eq!(order, vec![0, 1, 2]);
}

#[test]
fn no_tick_of_a_source_is_lost() {
    let mut eng = engine(Script::default(), EngineConfig::default());
    let ticks = (0..50).map(|i| tick(100 + i / 7, i as u64, UNIT, Side::Buy)).collect();
    eng.add_tick_source(Box::new(Listed(ticks)));
    eng.run().expect("run");
    assert_eq!(eng.strategy().ticks.len(), 50);
}

#[test]
fn events_of_one_time_are_processed_in_the_order_of_scheduling() {
    let mut eng = engine(Script::default(), EngineConfig::default());
    for timer_id in [5, 3, 9, 1] {
        eng.push_event(40, EventKind::Timer { timer_id });
    }
    let mut seen = Vec::new();
    while let Some(event) = eng.step().expect("step") {
        if let EventKind::Timer { timer_id } = event.kind {
            seen.push(timer_id);
        }
    }
    assert_eq!(seen, vec![5, 3, 9, 1]);
}

#[test]
fn streamed_and_scheduled_runs_agree() {
    let (script, events) = round_trip();
    let (scheduled, finished) = run_events(
        ConservativeQueue,
        no_latency(),
        EngineConfig::default(),
        script.clone(),
        &events,
    );
    finished.expect("run");
    let mut eng = engine(script, EngineConfig::default());
    let ticks: Vec<Tick> = events
        .iter()
        .filter_map(|(_, kind)| match kind {
            EventKind::Tick(t) => Some(*t),
            _ => None,
        })
        .collect();
    eng.add_tick_source(Box::new(Listed(ticks)));
    eng.run().expect("run");
    let streamed = RunSummary::of_log(eng.trade_log());
    assert_eq!(streamed.trades, scheduled.trades);
    assert_eq!(streamed.stats, scheduled.stats);
    assert_eq!(streamed.equity_curve, scheduled.equity_curve);
}
