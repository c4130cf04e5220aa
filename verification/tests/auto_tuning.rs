use backtester_core::engine::{Context, Engine, EngineConfig, EngineMode, Strategy};
use backtester_core::latency_model::ConstantLatency;
use backtester_core::queue_model::ConservativeQueue;
use backtester_core::tick_source::{TickSource, TickSourceError};
use backtester_core::types::{OrderReport, Tick};

#[derive(Default)]
struct FastStrategy;
impl Strategy for FastStrategy {
    type Error = std::convert::Infallible;

    fn on_tick(&mut self, _: &Tick, _: &mut Context<'_>) -> Result<(), Self::Error> {
        Ok(())
    }

    fn on_order_update(
        &mut self,
        _: &OrderReport,
        _: &mut Context<'_>,
    ) -> Result<(), Self::Error> {
        Ok(())
    }
}

struct VecTickSource {
    ticks: Vec<Tick>,
    idx: usize,
}
impl VecTickSource {
    fn new(n: usize) -> Self {
        let ticks = (0..n)
            .map(|i| Tick {
                ts_exchange: i as i64 * 1_000_000,
                ts_local: 0,
                seq: i as u64,
                price: 100,
                qty: 1,
                symbol_id: 1,
                side: backtester_core::types::Side::Buy,
                flags: 0,
            })
            .collect();
        Self { ticks, idx: 0 }
    }
}
impl TickSource for VecTickSource {
    fn peek(&mut self) -> Result<Option<&Tick>, TickSourceError> {
        Ok(self.ticks.get(self.idx))
    }
    fn next(&mut self) -> Result<Option<Tick>, TickSourceError> {
        let t = self.ticks.get(self.idx).cloned();
        if t.is_some() {
            self.idx += 1;
        }
        Ok(t)
    }
    fn symbol_id(&self) -> u32 {
        1
    }
}

#[test]
fn test_engine_increases_batch_size_when_fast() {
    let config = EngineConfig {
        mode: EngineMode::Batch,
        max_batch_ns: 1_000_000,
        auto_tune: true, // Enable auto-tuning for this test
        ..Default::default()
    };

    let latency = ConstantLatency {
        feed_latency_ns: 0,
        order_latency_ns: 0,
    };
    // The tuner adjusts every 10 batches: with ticks 1us apart there are enough of them.

    let n_ticks = 50000;
    let mut source = VecTickSource::new(n_ticks);
    // Overwrite ts to be dense
    for i in 0..n_ticks {
        source.ticks[i].ts_exchange = i as i64 * 1000; // 1us apart
    }

    let mut engine = Engine::new(ConservativeQueue, FastStrategy, config, latency);
    engine.add_tick_source(Box::new(source));

    let initial_batch = engine.config().max_batch_ns;

    engine.run().expect("engine run");

    let final_batch = engine.config().max_batch_ns;
    println!(
        "Initial limit: {}, Final batch: {}",
        initial_batch, final_batch
    );

    assert!(
        final_batch > 100_000,
        "Batch size should increase from min for fast strategy"
    );
}

use std::time::{Duration, Instant};

/// A strategy that simulates slow processing to trigger batch size decrease.
struct SlowStrategy;
impl Strategy for SlowStrategy {
    type Error = std::convert::Infallible;

    fn on_tick(&mut self, _: &Tick, _: &mut Context<'_>) -> Result<(), Self::Error> {
        // Simulate 10us processing time (well above 500ns target)
        let start = Instant::now();
        while start.elapsed() < Duration::from_micros(10) {}
        Ok(())
    }

    fn on_order_update(
        &mut self,
        _: &OrderReport,
        _: &mut Context<'_>,
    ) -> Result<(), Self::Error> {
        Ok(())
    }
}

#[test]
fn test_engine_decreases_batch_size_when_slow() {
    // Start with a moderate initial batch size to verify decrease behavior.
    // Use a smaller max_batch_ns so batches are smaller and more frequent.
    let config = EngineConfig {
        mode: EngineMode::Batch,
        max_batch_ns: 100_000, // 100us - min boundary to start, will init at min
        auto_tune: true,
        ..Default::default()
    };

    let latency = ConstantLatency {
        feed_latency_ns: 0,
        order_latency_ns: 0,
    };

    // With 100us batch and ticks 50us apart, we get ~2 ticks per batch.
    // We need 200+ flushes to trigger 20 tuner updates.
    // 500 ticks @ 50us = 25ms of sim time => 250 batches of 100us each
    let n_ticks = 500;
    let mut source = VecTickSource::new(n_ticks);
    for i in 0..n_ticks {
        source.ticks[i].ts_exchange = i as i64 * 50_000; // 50us apart
    }

    let mut engine = Engine::new(ConservativeQueue, SlowStrategy, config, latency);
    engine.add_tick_source(Box::new(source));

    let initial_batch = engine.config().max_batch_ns;

    engine.run().expect("engine run");

    let final_batch = engine.config().max_batch_ns;
    println!(
        "Initial batch: {}, Final batch: {}",
        initial_batch, final_batch
    );

    // The strategy is far slower than the target, and the batch size starts at its minimum.
    assert!(
        final_batch <= initial_batch,
        "Batch size should not increase for slow strategy (stayed at min or decreased)"
    );
}
