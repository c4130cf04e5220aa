//! Auto-tuning of the batch size.
use vstd::prelude::*;

use crate::math::{
    clamp_to_i64, count_up, div_toward_zero, lemma_trunc_div_bounds, sat_inc, trunc_div, within,
};

verus! {

/// Auto-tuner for batch size optimization.
///
/// Uses a simplified AIMD (Additive Increase, Multiplicative Decrease) algorithm
/// to maximize batch size (throughput) while keeping latency per tick under a target threshold.
#[derive(Debug)]
pub struct BatchTuner {
    /// Minimum batch size duration (ns).
    min_batch_ns: i64,
    /// Maximum allowed batch size duration (ns).
    max_batch_ns_limit: i64,
    /// Target latency per tick (ns). If processing takes longer than this per tick, we decrease batch size.
    target_latency_per_tick_ns: i64,
    /// Current batch size (ns).
    current_batch_ns: i64,
    /// Sample counter for stability.
    sample_count: u64,
}

/// The mathematical value of a tuner.
#[verifier::ext_equal]
pub struct TunerView {
    pub min: i64,
    pub max: i64,
    pub target: i64,
    pub current: i64,
    pub samples: u64,
}

/// The number of batches between two adjustments, to avoid jitter.
pub const TUNING_INTERVAL: u64 = 10;

/// The smallest increase of the batch size (ns).
pub const MIN_INCREASE_NS: i64 = 100_000;

/// The batch size after an increase by a tenth, and no less than the smallest step.
pub open spec fn increased(current: i64) -> int {
    let tenth = trunc_div(current as int, 10);
    current + if tenth < MIN_INCREASE_NS {
        MIN_INCREASE_NS as int
    } else {
        tenth
    }
}

/// The batch size after a decrease by a fifth.
pub open spec fn decreased(current: i64) -> int {
    trunc_div(current * 4, 5)
}

impl TunerView {
    pub open spec fn fresh(min_batch: i64, max_batch: i64, initial: i64, target: i64) -> TunerView {
        let min = if min_batch < max_batch {
            min_batch
        } else {
            max_batch
        };
        let max = if min_batch < max_batch {
            max_batch
        } else {
            min_batch
        };
        TunerView { min, max, target, current: within(initial as int, min as int, max as int) as i64, samples: 0 }
    }

    /// The batch size stays in its range.
    pub open spec fn in_range(self) -> bool {
        self.min <= self.current <= self.max
    }

    /// After a batch: every tenth one changes the size, up where its latency per tick
    /// is below the target, else down.
    pub open spec fn recorded(self, duration: i64, ticks: u64) -> TunerView {
        let samples = count_up(self.samples);
        if ticks == 0 {
            self
        } else if samples % TUNING_INTERVAL != 0 {
            TunerView { samples, ..self }
        } else if duration < self.target * ticks {
            let grown = increased(self.current);
            TunerView {
                samples,
                current: if grown > self.max {
                    self.max
                } else {
                    grown as i64
                },
                ..self
            }
        } else {
            TunerView {
                samples,
                current: within(decreased(self.current), self.min as int, self.max as int) as i64,
                ..self
            }
        }
    }
}

impl View for BatchTuner {
    type V = TunerView;

    closed spec fn view(&self) -> TunerView {
        TunerView {
            min: self.min_batch_ns,
            max: self.max_batch_ns_limit,
            target: self.target_latency_per_tick_ns,
            current: self.current_batch_ns,
            samples: self.sample_count,
        }
    }
}

impl BatchTuner {
    /// Create a new BatchTuner.
    ///
    /// * `min_batch_ns`: Minimum batch size (floor).
    /// * `max_batch_ns_limit`: Maximum batch size (ceiling).
    /// * `initial_batch_ns`: Starting batch size (will be clamped to [min, max]).
    /// * `target_latency_per_tick_ns`: Target latency per tick in nanoseconds.
    pub fn new(
        min_batch_ns: i64,
        max_batch_ns_limit: i64,
        initial_batch_ns: i64,
        target_latency_per_tick_ns: i64,
    ) -> (r: Self)
        ensures
            r@ == TunerView::fresh(
                min_batch_ns,
                max_batch_ns_limit,
                initial_batch_ns,
                target_latency_per_tick_ns,
            ),
            r@.in_range(),
    {
        let (min, max): (i64, i64) = if min_batch_ns < max_batch_ns_limit {
            (min_batch_ns, max_batch_ns_limit)
        } else {
            (max_batch_ns_limit, min_batch_ns)
        };
        BatchTuner {
            min_batch_ns: min,
            max_batch_ns_limit: max,
            target_latency_per_tick_ns,
            current_batch_ns: clamp_range(initial_batch_ns, min, max),
            sample_count: 0,
        }
    }

    pub fn current_batch_ns(&self) -> (r: i64)
        ensures
            r == self@.current,
    {
        self.current_batch_ns
    }

    /// Record a batch execution.
    ///
    /// * `batch_duration_ns`: Total wall-clock time spent processing the batch.
    /// * `num_ticks`: Number of ticks processed in the batch.
    pub fn record_batch(&mut self, batch_duration_ns: i64, num_ticks: u64)
        ensures
            final(self)@ == old(self)@.recorded(batch_duration_ns, num_ticks),
    {
        if num_ticks == 0 {
            return ;
        }
        self.sample_count = sat_inc(self.sample_count);
        if self.sample_count % TUNING_INTERVAL != 0 {
            return ;
        }
        proof {
            lemma_allowance_bounds(self.target_latency_per_tick_ns as int, num_ticks as int);
        }
        let allowance: i128 = (self.target_latency_per_tick_ns as i128) * (num_ticks as i128);
        if (batch_duration_ns as i128) < allowance {
            // Latency is good, try increasing batch size to improve throughput (Additive Increase).
            let tenth: i128 = div_toward_zero(self.current_batch_ns as i128, 10);
            proof {
                lemma_trunc_div_bounds(self.current_batch_ns as int, 10);
            }
            let step: i128 = if tenth < MIN_INCREASE_NS as i128 {
                MIN_INCREASE_NS as i128
            } else {
                tenth
            };
            let grown: i128 = self.current_batch_ns as i128 + step;
            self.current_batch_ns =
            if grown > self.max_batch_ns_limit as i128 {
                self.max_batch_ns_limit
            } else {
                clamp_to_i64(grown)
            };
        } else {
            // Latency is too high, decrease batch size (Multiplicative Decrease).
            let shrunk: i128 = div_toward_zero((self.current_batch_ns as i128) * 4, 5);
            proof {
                lemma_fifth_bounds(self.current_batch_ns as int);
            }
            self.current_batch_ns =
            clamp_range(clamp_to_i64(shrunk), self.min_batch_ns, self.max_batch_ns_limit);
        }
    }
}

fn clamp_range(x: i64, low: i64, high: i64) -> (r: i64)
    ensures
        r == within(x as int, low as int, high as int),
{
    if x < low {
        low
    } else if x > high {
        high
    } else {
        x
    }
}

proof fn lemma_allowance_bounds(target: int, ticks: int)
    requires
        i64::MIN <= target <= i64::MAX,
        0 <= ticks <= u64::MAX,
    ensures
        i128::MIN <= target * ticks <= i128::MAX,
{
    assert(-0x8000_0000_0000_0000_0000_0000_0000_0000 <= target * ticks
        <= 0x7fff_ffff_ffff_ffff_ffff_ffff_ffff_ffff) by (nonlinear_arith)
        requires
            -0x8000_0000_0000_0000 <= target <= 0x7fff_ffff_ffff_ffff,
            0 <= ticks <= 0xffff_ffff_ffff_ffff,
    ;
}

proof fn lemma_fifth_bounds(current: int)
    requires
        i64::MIN <= current <= i64::MAX,
    ensures
        i64::MIN <= trunc_div(current * 4, 5) <= i64::MAX,
        current >= 0 ==> 0 <= trunc_div(current * 4, 5) <= current,
{
}

/// The batch size never leaves its range.
pub proof fn law_batch_size_stays_in_range(t: TunerView, duration: i64, ticks: u64)
    requires
        t.in_range(),
    ensures
        t.recorded(duration, ticks).in_range(),
        t.recorded(duration, ticks).min == t.min,
        t.recorded(duration, ticks).max == t.max,
{
    lemma_trunc_div_bounds(t.current as int, 10);
}

/// A batch with low latency never shrinks the size; one with high latency never grows a
/// size that is not negative; no batch but every tenth changes it.
pub proof fn law_batch_size_follows_latency(t: TunerView, duration: i64, ticks: u64)
    requires
        t.in_range(),
        t.min >= 0,
    ensures
        duration < t.target * ticks ==> t.recorded(duration, ticks).current >= t.current,
        duration >= t.target * ticks ==> t.recorded(duration, ticks).current <= t.current,
        count_up(t.samples) % TUNING_INTERVAL != 0 ==> t.recorded(duration, ticks).current
            == t.current,
{
    lemma_trunc_div_bounds(t.current as int, 10);
    lemma_fifth_bounds(t.current as int);
}

/// By how much the batch size changes, at every tenth batch: up by a tenth of itself where
/// that is more than 100 000 ns, else by 100 000 ns, while the time per tick is below the
/// target; down to four fifths where it is not; and always within its range.
pub proof fn law_batch_size_steps(t: TunerView, duration: i64, ticks: u64, q: int)
    requires
        t.min <= t.current <= t.max,
        0 <= t.min,
        ticks > 0,
        t.samples < u64::MAX,
        (t.samples + 1) % 10 == 0,
    ensures
        ({
            let after = t.recorded(duration, ticks).current;
            let is_fast = duration < t.target * ticks;
            &&& is_fast && q * 10 <= t.current < q * 10 + 10 ==> after == within(
                t.current + if q < 100_000 {
                    100_000
                } else {
                    q
                },
                t.min as int,
                t.max as int,
            )
            &&& !is_fast && q * 5 <= t.current * 4 < q * 5 + 5 ==> after == within(
                q,
                t.min as int,
                t.max as int,
            )
        }),
        t.recorded(duration, ticks).samples == t.samples + 1,
{
    if q * 10 <= t.current < q * 10 + 10 {
        assert(trunc_div(t.current as int, 10) == q);
    }
    if q * 5 <= t.current * 4 < q * 5 + 5 {
        assert(trunc_div(t.current * 4, 5) == q);
    }
}

/// A batch without ticks leaves no trace, and the batches between two tenths are counted
/// only.
pub proof fn law_batches_are_counted(t: TunerView, duration: i64, ticks: u64)
    ensures
        t.recorded(duration, 0) == t,
        ticks > 0 && t.samples < u64::MAX && (t.samples + 1) % 10 != 0 ==> t.recorded(
            duration,
            ticks,
        ) == (TunerView { samples: (t.samples + 1) as u64, ..t }),
{
}

/// A new tuner starts within its range, whichever way its ends are given.
pub proof fn law_new_tuner(a: i64, b: i64, initial: i64, target: i64)
    ensures
        ({
            let t = TunerView::fresh(a, b, initial, target);
            &&& t.min <= t.max
            &&& (t.min == a && t.max == b) || (t.min == b && t.max == a)
            &&& t.min <= t.current <= t.max
            &&& t.min <= initial <= t.max ==> t.current == initial
            &&& initial < t.min ==> t.current == t.min
            &&& initial > t.max ==> t.current == t.max
            &&& t.target == target
            &&& t.samples == 0
        }),
{
}

} // verus!
