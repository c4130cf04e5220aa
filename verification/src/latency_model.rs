//! Latency of the market data feed and of order entry.
use rand::rngs::SmallRng;
use vstd::prelude::*;

verus! {

/// Simulates network / processing latency jitter.
///
/// Design rule:
/// - The engine MUST own and seed the RNG for reproducibility.
/// - Latency models MUST NOT keep RNG state internally; consume randomness via `rng`.
///
/// An implementation may state which latencies it gives. Nothing is known of one that
/// does not.
pub trait LatencyModel: Send + Sync {
    /// Whether market data of this time may take so long to reach the strategy, where
    /// the generator is as `before`, and then as `after`.
    open spec fn may_delay_feed(
        &self,
        ts_exchange: i64,
        before: SmallRng,
        latency: i64,
        after: SmallRng,
    ) -> bool {
        true
    }

    /// Whether an order of this time may take so long to be answered, where the generator
    /// is as `before`, and then as `after`.
    open spec fn may_delay_order(
        &self,
        ts_local: i64,
        before: SmallRng,
        latency: i64,
        after: SmallRng,
    ) -> bool {
        true
    }

    fn sample_feed_latency(&self, ts_exchange: i64, rng: &mut SmallRng) -> (r: i64)
        ensures
            self.may_delay_feed(ts_exchange, *old(rng), r, *final(rng)),
    ;

    fn sample_order_latency(&self, ts_local: i64, rng: &mut SmallRng) -> (r: i64)
        ensures
            self.may_delay_order(ts_local, *old(rng), r, *final(rng)),
    ;
}

impl<L: LatencyModel> LatencyModel for &L {
    open spec fn may_delay_feed(
        &self,
        ts_exchange: i64,
        before: SmallRng,
        latency: i64,
        after: SmallRng,
    ) -> bool {
        (**self).may_delay_feed(ts_exchange, before, latency, after)
    }

    open spec fn may_delay_order(
        &self,
        ts_local: i64,
        before: SmallRng,
        latency: i64,
        after: SmallRng,
    ) -> bool {
        (**self).may_delay_order(ts_local, before, latency, after)
    }

    fn sample_feed_latency(&self, ts_exchange: i64, rng: &mut SmallRng) -> (r: i64) {
        (**self).sample_feed_latency(ts_exchange, rng)
    }

    fn sample_order_latency(&self, ts_local: i64, rng: &mut SmallRng) -> (r: i64) {
        (**self).sample_order_latency(ts_local, rng)
    }
}

/// `x`, or 0 where it is negative.
pub open spec fn at_least_zero(x: i64) -> i64 {
    if x < 0 {
        0
    } else {
        x
    }
}

/// `x`, or 0 where it is negative.
pub fn non_negative(x: i64) -> (r: i64)
    ensures
        r == at_least_zero(x),
{
    if x < 0 {
        0
    } else {
        x
    }
}

/// Constant latency model (useful for deterministic tests and as a baseline).
#[derive(Debug, Clone, Copy, PartialEq, Eq, Structural)]
pub struct ConstantLatency {
    pub feed_latency_ns: i64,
    pub order_latency_ns: i64,
}

impl LatencyModel for ConstantLatency {
    open spec fn may_delay_feed(
        &self,
        ts_exchange: i64,
        before: SmallRng,
        latency: i64,
        after: SmallRng,
    ) -> bool {
        latency == at_least_zero(self.feed_latency_ns) && after == before
    }

    open spec fn may_delay_order(
        &self,
        ts_local: i64,
        before: SmallRng,
        latency: i64,
        after: SmallRng,
    ) -> bool {
        latency == at_least_zero(self.order_latency_ns) && after == before
    }

    fn sample_feed_latency(&self, ts_exchange: i64, rng: &mut SmallRng) -> (r: i64) {
        non_negative(self.feed_latency_ns)
    }

    fn sample_order_latency(&self, ts_local: i64, rng: &mut SmallRng) -> (r: i64) {
        non_negative(self.order_latency_ns)
    }
}

/// Log-normal jitter model for positive latencies.
///
/// `mean_ns` and `std_dev_ns` are the mean and standard deviation of the *log-normal*
/// distribution, in nanoseconds.
#[derive(Debug, Clone, Copy, PartialEq, Eq, Structural)]
pub struct LogNormalJitter {
    pub mean_ns: i64,
    pub std_dev_ns: i64,
}

impl LogNormalJitter {
    /// The latency where nothing is left to chance: 0 without a positive mean, the mean
    /// without a positive deviation. `None` asks for a sample.
    pub fn certain_latency_ns(&self) -> (r: Option<i64>)
        ensures
            r == if self.mean_ns <= 0 {
                Some(0i64)
            } else if self.std_dev_ns <= 0 {
                Some(self.mean_ns)
            } else {
                None
            },
    {
        if self.mean_ns <= 0 {
            Some(0)
        } else if self.std_dev_ns <= 0 {
            Some(self.mean_ns)
        } else {
            None
        }
    }
}

/// A constant latency is what it is set to, for the feed and for orders, and never negative.
pub proof fn law_constant_latency(
    model: ConstantLatency,
    ts: i64,
    before: SmallRng,
    latency: i64,
    after: SmallRng,
)
    ensures
        model.may_delay_feed(ts, before, latency, after) ==> after == before && latency >= 0 && (
        model.feed_latency_ns >= 0 ==> latency == model.feed_latency_ns) && (model.feed_latency_ns
            < 0 ==> latency == 0),
        model.may_delay_order(ts, before, latency, after) ==> after == before && latency >= 0 && (
        model.order_latency_ns >= 0 ==> latency == model.order_latency_ns) && (
        model.order_latency_ns < 0 ==> latency == 0),
{
}

/// A latency without a spread is its mean, and one without a positive mean is none: said of
/// whatever `certain_latency_ns` returns.
pub proof fn law_latency_without_spread(model: &LogNormalJitter, r: Option<i64>)
    requires
        call_ensures(LogNormalJitter::certain_latency_ns, (model,), r),
    ensures
        r is None <==> model.mean_ns > 0 && model.std_dev_ns > 0,
        r matches Some(latency) ==> latency >= 0 && (model.mean_ns >= 0 ==> latency
            == model.mean_ns) && (model.mean_ns < 0 ==> latency == 0),
{
}

} // verus!
