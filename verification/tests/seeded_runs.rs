use backtester_core::backtest::run_events;
use backtester_core::engine::{Context, EngineConfig, EngineError, EngineMode, Strategy};
use backtester_core::latency_model::LatencyModel;
use backtester_core::queue_model::ConservativeQueue;
use backtester_core::rng::make_small_rng;
use backtester_core::sweep::{run_parameter_sweep, run_sweep_case};
use backtester_core::types::{Order, OrderReport, OrderState, OrderType, Side, Tick};
use backtester_core::{Engine, EventKind};
use rand::rngs::SmallRng;
use rand::RngCore;

const UNIT: i64 = 100_000_000;

/// A latency between 0 and 999 ns, drawn from the generator.
#[derive(Debug, Clone, Copy)]
struct Jitter;

impl LatencyModel for Jitter {
    fn sample_feed_latency(&self, _ts_exchange: i64, rng: &mut SmallRng) -> i64 {
        (rng.next_u64() % 1_000) as i64
    }

    fn sample_order_latency(&self, _ts_local: i64, rng: &mut SmallRng) -> i64 {
        (rng.next_u64() % 1_000) as i64
    }
}

/// Buys with every tick, and fails with the tick of this number.
#[derive(Debug, Default, Clone)]
struct Buyer {
    ticks: usize,
    fail_on_tick: Option<usize>,
    reports: Vec<(i64, OrderReport)>,
}

impl Strategy for Buyer {
    type Error = &'static str;

    fn on_tick(&mut self, tick: &Tick, ctx: &mut Context<'_>) -> Result<(), &'static str> {
        self.ticks += 1;
        ctx.submit_order(Order {
            order_id: 0,
            ts_submit: ctx.ts_local(),
            seq: 0,
            price: tick.price,
            qty: UNIT,
            symbol_id: tick.symbol_id,
            side: Side::Buy,
            order_type: OrderType::Limit,
        });
        if self.fail_on_tick == Some(self.ticks) {
            return Err("enough");
        }
        Ok(())
    }

    fn on_order_update(
        &mut self,
        report: &OrderReport,
        ctx: &mut Context<'_>,
    ) -> Result<(), &'static str> {
        self.reports.push((ctx.ts_local(), *report));
        Ok(())
    }
}

fn config(seed: u64) -> EngineConfig {
    EngineConfig {
        feed_latency_ns: 0,
        order_update_latency_ns: 0,
        mode: EngineMode::Tick,
        seed,
        ..Default::default()
    }
}

fn events() -> Vec<(i64, EventKind)> {
    let mut list = Vec::new();
    for i in 0..6i64 {
        let tick = Tick {
            ts_exchange: 1_000 * (i + 1),
            ts_local: 1_000 * (i + 1),
            seq: i as u64,
            price: 100 * UNIT,
            qty: UNIT,
            symbol_id: 1,
            side: Side::Sell,
            flags: 1,
        };
        list.push((tick.ts_exchange, EventKind::Tick(tick)));
        list.push((tick.ts_local, EventKind::TickDelivery(tick)));
    }
    list
}

fn run(seed: u64) -> Engine<ConservativeQueue, Buyer, Jitter> {
    let mut eng = Engine::new(ConservativeQueue, Buyer::default(), config(seed), Jitter);
    for (ts, kind) in events() {
        eng.push_event(ts, kind);
    }
    eng.run().expect("run");
    eng
}

#[test]
fn latencies_are_drawn_from_the_generator_of_the_seed() {
    for seed in [0, 42, u64::MAX] {
        let eng = run(seed);
        let mut rng = make_small_rng(seed);
        let mut expected: Vec<i64> = (1..=6)
            .map(|i| 1_000 * i + (rng.next_u64() % 1_000) as i64)
            .collect();
        expected.sort();
        let mut acknowledged: Vec<i64> = eng
            .strategy()
            .reports
            .iter()
            .filter(|(_, r)| r.status == OrderState::Open)
            .map(|(ts, _)| *ts)
            .collect();
        acknowledged.sort();
        assert_eq!(acknowledged, expected);
    }
}

#[test]
fn the_same_seed_leads_to_the_same_run() {
    let (a, b) = (run(7), run(7));
    assert!(a.strategy().reports.len() > 6);
    assert_eq!(a.strategy().reports, b.strategy().reports);
    assert_eq!(a.trade_log().fills_vec(), b.trade_log().fills_vec());
    assert_ne!(run(8).strategy().reports, a.strategy().reports);
}

#[test]
fn a_failing_run_has_the_same_statistics_alone_and_in_a_sweep() {
    let strategies: Vec<Buyer> = (0..8)
        .map(|i| Buyer {
            fail_on_tick: if i % 2 == 0 { Some(3 + i / 2) } else { None },
            ..Default::default()
        })
        .collect();
    let all = events();
    let results =
        run_parameter_sweep(ConservativeQueue, Jitter, config(5), strategies.clone(), &all);
    for (i, strategy) in strategies.into_iter().enumerate() {
        let alone =
            run_sweep_case(ConservativeQueue, Jitter, config(5), i, strategy.clone(), &all);
        assert_eq!(results[i], alone);
        let (summary, outcome) = run_events(
            ConservativeQueue,
            Jitter,
            config(5 + i as u64),
            strategy.clone(),
            &all,
        );
        assert_eq!(outcome.is_err(), strategy.fail_on_tick.is_some_and(|n| n <= 6));
        assert_eq!(results[i].stats, summary.stats);
    }
    assert!(results[0].stats.total_trades < results[1].stats.total_trades);
}

#[test]
fn a_failing_callback_leaves_the_state_of_its_step() {
    let buyer = Buyer {
        fail_on_tick: Some(2),
        ..Default::default()
    };
    let mut eng = Engine::new(ConservativeQueue, buyer, config(1), Jitter);
    for (ts, kind) in events() {
        eng.push_event(ts, kind);
    }
    assert!(matches!(eng.run(), Err(EngineError::Strategy("enough"))));
    // The tick is in view, and the order that came with it is not taken.
    assert_eq!(eng.market_view().last_trade(1).map(|t| t.ts_exchange), Some(2_000));
    assert_eq!(eng.known_order_count(), 1);
    assert_eq!(eng.strategy().ticks, 2);
    // The run goes on with what is left.
    assert!(eng.run().is_ok());
    assert_eq!(eng.strategy().ticks, 6);
    let filled: Vec<u64> = eng.trade_log().fills_vec().iter().map(|f| f.order_id).collect();
    assert_eq!(filled, vec![1, 2, 3, 4]);
    // The last order still rests.
    assert_eq!(eng.known_order_count(), 1);
}
