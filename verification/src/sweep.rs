//! Parameter sweeps: many strategies over the same events.
use rayon::iter::{IndexedParallelIterator, IntoParallelIterator, ParallelIterator};
use vstd::prelude::*;

use crate::backtest::{ends_in, log_stats, run_events, run_start, with_events, RunSummary};
use crate::engine::{EngineError, Stage};
use crate::event::EventKind;
use crate::latency_model::LatencyModel;
use crate::queue_model::QueueModel;
use crate::reproducibility::{are_in_step, is_orderly_run, law_outcome_is_reproducible};
use crate::rng::SeededRng;
use crate::sim_view::{EngineConfig, SimView};
use crate::stats::BacktestStats;
use crate::strategy::Strategy;
use crate::types::TsSimNs;

verus! {

#[derive(Debug, Clone, Copy, PartialEq, Eq, Structural)]
pub struct SweepResult {
    pub stats: BacktestStats,
}

/// The configuration of one run: its seed is the base seed plus its index, modulo 2^64.
pub open spec fn case_config(base: EngineConfig, index: nat) -> EngineConfig {
    EngineConfig { seed: ((base.seed + index) % 0x1_0000_0000_0000_0000) as u64, ..base }
}

/// Whether a result is that of the run with this index, which draws from this generator:
/// the statistics of the log in a state that the run of its strategy may end in.
pub open spec fn is_case_result<Q: QueueModel, S: Strategy, L: LatencyModel>(
    queue_model: Q,
    latency: L,
    base: EngineConfig,
    index: nat,
    trader: S,
    rng: SeededRng,
    events: Seq<(i64, EventKind)>,
    r: SweepResult,
) -> bool {
    let config = case_config(base, index);
    let first = run_start(queue_model, latency, config, trader, rng, events);
    &&& rng.seed() == config.seed
    &&& exists|end: Stage<Q, S, L>, outcome: Result<(), EngineError<S::Error>>| #[trigger]
        ends_in(first, end, outcome) && r.stats == log_stats(end.sim.log)
}

/// Whether a result is that of the run with this index, with a generator made from its
/// seed.
pub open spec fn is_result_of<Q: QueueModel, S: Strategy, L: LatencyModel>(
    queue_model: Q,
    latency: L,
    base: EngineConfig,
    index: nat,
    trader: S,
    events: Seq<(i64, EventKind)>,
    r: SweepResult,
) -> bool {
    exists|rng: SeededRng| #[trigger]
        is_case_result(queue_model, latency, base, index, trader, rng, events, r)
}

/// Runs one strategy over the events.
pub fn run_sweep_case<Q, S, L>(
    queue_model: Q,
    latency_model: L,
    base_config: EngineConfig,
    index: usize,
    strategy: S,
    events: &[(TsSimNs, EventKind)],
) -> (r: SweepResult) where Q: QueueModel + Copy, S: Strategy, L: LatencyModel
    ensures
        is_result_of(
            queue_model,
            latency_model,
            base_config,
            index as nat,
            strategy,
            events@,
            r,
        ),
{
    let mut config: EngineConfig = base_config;
    config.seed = base_config.seed.wrapping_add(index as u64);
    assert(config == case_config(base_config, index as nat));
    let (summary, finished): (RunSummary, Result<(), EngineError<S::Error>>) = run_events(
        queue_model,
        latency_model,
        config,
        strategy,
        events,
    );
    let result: SweepResult = SweepResult { stats: summary.stats };
    proof {
        let (rng, end) = choose|rng: SeededRng, end: Stage<Q, S, L>|
            rng.seed() == config.seed && #[trigger] ends_in(
                run_start(queue_model, latency_model, config, strategy, rng, events@),
                end,
                finished,
            ) && summary.is_of(end.sim.log);
        assert(is_case_result(
            queue_model,
            latency_model,
            base_config,
            index as nat,
            strategy,
            rng,
            events@,
            result,
        ));
    }
    result
}

/// `rayon`'s indexed parallel iterator over a `Vec`, enumerated, mapped and collected:
/// each strategy is run once, with its index, on some thread, and the results come in
/// the order of the strategies.
#[verifier::external_body]
fn run_cases<Q, S, L>(
    queue_model: Q,
    latency_model: &L,
    base_config: EngineConfig,
    strategies: Vec<S>,
    events: &[(TsSimNs, EventKind)],
) -> (r: Vec<SweepResult>) where
    Q: QueueModel + Copy + Send + Sync,
    S: Strategy + Send,
    L: LatencyModel + Clone + Send + Sync,

    ensures
        r@.len() == strategies@.len(),
        forall|i: int|
            0 <= i < r@.len() ==> is_result_of(
                queue_model,
                latency_model,
                base_config,
                i as nat,
                strategies@[i],
                events@,
                #[trigger] r@[i],
            ),
{
    strategies.into_par_iter().enumerate().map(
        |(index, strategy)|
            run_sweep_case(queue_model, latency_model, base_config, index, strategy, events),
    ).collect()
}

/// Run a deterministic parameter sweep in parallel using rayon.
///
/// - Results are returned in the same order as input strategies.
/// - Each run derives its seed from `base_config.seed + index`.
pub fn run_parameter_sweep<Q, S, L>(
    queue_model: Q,
    latency_model: L,
    base_config: EngineConfig,
    strategies: Vec<S>,
    events: &[(TsSimNs, EventKind)],
) -> (r: Vec<SweepResult>) where
    Q: QueueModel + Copy + Send + Sync,
    S: Strategy + Send,
    L: LatencyModel + Clone + Send + Sync,

    ensures
        r@.len() == strategies@.len(),
        forall|i: int|
            0 <= i < r@.len() ==> is_result_of(
                queue_model,
                &latency_model,
                base_config,
                i as nat,
                strategies@[i],
                events@,
                #[trigger] r@[i],
            ),
{
    run_cases(queue_model, &latency_model, base_config, strategies, events)
}

/// Different runs of one sweep have different seeds, as long as there are no more than
/// there are seeds.
pub proof fn law_sweep_seeds_differ(base: EngineConfig, i: nat, j: nat)
    requires
        i < j < 0x1_0000_0000_0000_0000,
    ensures
        case_config(base, i).seed != case_config(base, j).seed,
        case_config(base, 0) == base,
{
}

/// The result of a run in a sweep is that of the same run alone, whether it finishes or
/// fails: with latencies drawn from generators in the same state, the statistics of any run
/// of its strategy are the result, whatever the other runs of the sweep do.
pub proof fn law_sweep_result_is_that_of_one_run<Q: QueueModel, S: Strategy, L: LatencyModel>(
    queue_model: Q,
    latency: L,
    base: EngineConfig,
    index: nat,
    trader: S,
    rng: SeededRng,
    events: Seq<(i64, EventKind)>,
    r: SweepResult,
    other_rng: SeededRng,
    end: Stage<Q, S, L>,
    outcome: Result<(), EngineError<S::Error>>,
)
    requires
        is_case_result(queue_model, latency, base, index, trader, rng, events, r),
        are_in_step(latency, rng, other_rng),
        !base.auto_tune,
        is_orderly_run(
            run_start(queue_model, latency, case_config(base, index), trader, rng, events),
        ),
        ends_in(
            run_start(
                queue_model,
                latency,
                case_config(base, index),
                trader,
                other_rng,
                events,
            ),
            end,
            outcome,
        ),
    ensures
        r.stats == log_stats(end.sim.log),
{
    let config = case_config(base, index);
    let first = run_start(queue_model, latency, config, trader, rng, events);
    let other_first = run_start(queue_model, latency, config, trader, other_rng, events);
    let (last, result) = choose|last: Stage<Q, S, L>, result: Result<(), EngineError<S::Error>>|
        #[trigger] ends_in(first, last, result) && r.stats == log_stats(last.sim.log);
    lemma_with_events_config(SimView::fresh(queue_model, config), events);
    assert(first.feeds.is_known());
    law_outcome_is_reproducible(first, last, result, other_first, end, outcome);
}

proof fn lemma_with_events_config<Q: QueueModel>(s: SimView<Q>, events: Seq<(i64, EventKind)>)
    ensures
        with_events(s, events).config == s.config,
    decreases events.len(),
{
    if events.len() > 0 {
        lemma_with_events_config(s, events.drop_last());
    }
}

/// A run of a sweep differs from the base in its seed alone: that is the base seed and the
/// index added up, modulo 2^64.
pub proof fn law_sweep_seed_is_base_plus_index(base: EngineConfig, index: nat)
    ensures
        ({
            let c = case_config(base, index);
            &&& (c.seed - base.seed - index) % 0x1_0000_0000_0000_0000 == 0
            &&& c.feed_latency_ns == base.feed_latency_ns
            &&& c.order_update_latency_ns == base.order_update_latency_ns
            &&& c.mode == base.mode
            &&& c.max_batch_ns == base.max_batch_ns
            &&& c.auto_tune == base.auto_tune
            &&& c.trade_log_mode == base.trade_log_mode
            &&& c.maker_fee_bps == base.maker_fee_bps
            &&& c.taker_fee_bps == base.taker_fee_bps
        }),
{
}

} // verus!
