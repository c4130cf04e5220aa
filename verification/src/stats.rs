//! Trade log and backtest statistics, in exact integer arithmetic.
//!
//! Ratios are kept as numerator and denominator: whoever displays them divides.
use std::collections::{BTreeMap, VecDeque};

use vstd::prelude::*;

use crate::cost_basis::{after_fill, apply_fill, fill_delta, realised, signed_fill, PosState};
use crate::math::{
    clamp_i64, clamp_to_i64, count_up, div_toward_zero, lemma_trunc_div_bounds, sat_add, sat_inc,
    sat_sub, trunc_div,
};
use crate::types::{Side, TsExchangeNs};

verus! {

/// A single executed fill (logical trade log row).
#[derive(Debug, Clone, Copy, PartialEq, Eq, Structural)]
pub struct TradeFill {
    pub ts_exchange: TsExchangeNs,
    pub order_id: u64,
    pub price: i64,
    pub qty: i64,
    /// Fee charged on this fill (quote, scaled by 1e8).
    pub fee: i64,
    pub symbol_id: u32,
    /// Side of the *strategy's* order which got filled.
    pub side: Side,
    /// Whether the strategy's order took liquidity.
    pub is_taker: bool,
}

/// Arbitrary PnL event (e.g. funding payment).
#[derive(Debug, Clone, Copy, PartialEq, Eq, Structural)]
pub struct PnlEvent {
    pub ts_exchange: TsExchangeNs,
    pub pnl: i64,
}

/// Trade log retention mode for memory control.
#[derive(Debug, Clone, Copy, PartialEq, Eq, Default, Structural)]
pub enum TradeLogMode {
    /// Keep all fills/events (default).
    #[default]
    All,
    /// Keep only the last N fills (ring buffer).
    RingBuffer(usize),
    /// Keep no fills, only incrementally compute summary stats.
    SummaryOnly,
    /// Disable logging entirely (fastest, no stats available).
    Off,
}

/// A drawdown as a fraction of the peak: `drop / peak`, between 0 and 1.
#[derive(Debug, Clone, Copy, PartialEq, Eq, Structural)]
pub struct Drawdown {
    pub drop: i64,
    pub peak: i64,
}

impl Drawdown {
    /// No drawdown.
    pub open spec fn zero() -> Drawdown {
        Drawdown { drop: 0, peak: 1 }
    }

    /// A fraction between 0 and 1.
    pub open spec fn wf(self) -> bool {
        0 <= self.drop <= self.peak && self.peak > 0
    }

    pub fn none() -> (r: Self)
        ensures
            r == Drawdown::zero(),
            r.wf(),
    {
        Drawdown { drop: 0, peak: 1 }
    }
}

/// Whether the fall from `peak` to `equity` is a larger fraction than `worst`.
pub open spec fn deeper(peak: i64, equity: i64, worst: Drawdown) -> bool {
    (peak - equity) * worst.peak > worst.drop * peak
}

/// The fall from `peak` to `equity` as a fraction of the peak, at most the whole of it.
pub open spec fn drawdown_of(peak: i64, equity: i64) -> Drawdown {
    Drawdown {
        drop: if equity < 0 {
            peak
        } else {
            (peak - equity) as i64
        },
        peak,
    }
}

fn is_deeper(peak: i64, equity: i64, worst: &Drawdown) -> (r: bool)
    requires
        peak > 0,
        equity <= peak,
        worst.wf(),
    ensures
        r == deeper(peak, equity, *worst),
{
    let fall: i128 = peak as i128 - equity as i128;
    proof {
        let a = fall as int;
        let b = worst.peak as int;
        let c = worst.drop as int;
        let d = peak as int;
        assert(0 <= a * b <= 0x7fff_ffff_ffff_ffff_ffff_ffff_ffff_ffff) by (nonlinear_arith)
            requires
                0 <= a <= 0xffff_ffff_ffff_ffff,
                0 <= b <= 0x7fff_ffff_ffff_ffff,
        ;
        assert(0 <= c * d <= 0x7fff_ffff_ffff_ffff_ffff_ffff_ffff_ffff) by (nonlinear_arith)
            requires
                0 <= c <= 0x7fff_ffff_ffff_ffff,
                0 <= d <= 0x7fff_ffff_ffff_ffff,
        ;
    }
    fall * (worst.peak as i128) > (worst.drop as i128) * (peak as i128)
}

fn make_drawdown(peak: i64, equity: i64) -> (r: Drawdown)
    requires
        peak > 0,
        equity <= peak,
    ensures
        r == drawdown_of(peak, equity),
        r.wf(),
{
    Drawdown {
        drop: if equity < 0 {
            peak
        } else {
            peak - equity
        },
        peak,
    }
}

/// Information about a realized PnL delta and its holding period.
#[derive(Debug, Clone, Copy, PartialEq, Eq, Structural)]
pub struct PnlDelta {
    pub ts_exchange: TsExchangeNs,
    pub pnl: i64,
    pub holding_period: i64,
}

/// The position of a symbol, flat where there is none.
pub open spec fn position_of(positions: Map<u32, PosState>, symbol_id: u32) -> PosState {
    if positions.contains_key(symbol_id) {
        positions[symbol_id]
    } else {
        PosState::flat()
    }
}

/// The positions after a fill.
pub open spec fn positions_after(positions: Map<u32, PosState>, f: TradeFill) -> Map<u32, PosState> {
    let delta = signed_fill(f.side, f.qty);
    if delta == 0 {
        positions
    } else {
        positions.insert(
            f.symbol_id,
            after_fill(position_of(positions, f.symbol_id), f.ts_exchange, f.price, delta),
        )
    }
}

/// What a fill realises, and how long the position it closes was open: 0 where it
/// realises nothing.
pub open spec fn delta_of(positions: Map<u32, PosState>, f: TradeFill) -> PnlDelta {
    let s = position_of(positions, f.symbol_id);
    let pnl = realised(s, f.price, signed_fill(f.side, f.qty));
    PnlDelta {
        ts_exchange: f.ts_exchange,
        pnl,
        holding_period: if pnl != 0 {
            clamp_i64(f.ts_exchange - s.last_open_ts)
        } else {
            0
        },
    }
}

/// The positions after a sequence of fills, from flat.
pub open spec fn positions_after_all(fills: Seq<TradeFill>) -> Map<u32, PosState>
    decreases fills.len(),
{
    if fills.len() == 0 {
        Map::empty()
    } else {
        positions_after(positions_after_all(fills.drop_last()), fills.last())
    }
}

/// Applies a fill to the position of its symbol and returns what it realises.
fn book_fill(positions: &mut BTreeMap<u32, PosState>, f: &TradeFill) -> (r: PnlDelta)
    ensures
        r == delta_of(old(positions)@, *f),
        final(positions)@ == positions_after(old(positions)@, *f),
{
    let delta: i64 = fill_delta(f.side, f.qty);
    if delta == 0 {
        return PnlDelta { ts_exchange: f.ts_exchange, pnl: 0, holding_period: 0 };
    }
    let mut s: PosState = match positions.get(&f.symbol_id) {
        Some(s) => *s,
        None => PosState::default(),
    };
    let opened: i64 = s.last_open_ts;
    let pnl: i64 = apply_fill(&mut s, f.ts_exchange, f.price, delta);
    positions.insert(f.symbol_id, s);
    let holding_period: i64 = if pnl != 0 {
        sat_sub(f.ts_exchange, opened)
    } else {
        0
    };
    PnlDelta { ts_exchange: f.ts_exchange, pnl, holding_period }
}

/// Return realized PnL deltas (quote, scaled) per fill using an average-cost model.
///
/// Each entry is `PnlDelta`, where `pnl` is 0 for pure opens/adds,
/// and non-zero when the fill reduces or closes an existing position.
pub fn pnl_deltas_from_fills(fills: &[TradeFill]) -> (r: Vec<PnlDelta>)
    ensures
        r@.len() == fills@.len(),
        forall|i: int|
            0 <= i < fills@.len() ==> #[trigger] r@[i] == delta_of(
                positions_after_all(fills@.take(i)),
                fills@[i],
            ),
{
    let mut positions: BTreeMap<u32, PosState> = BTreeMap::new();
    let mut deltas: Vec<PnlDelta> = Vec::new();
    let mut i: usize = 0;
    assert(fills@.take(0) =~= Seq::empty());
    while i < fills.len()
        invariant
            i <= fills@.len(),
            deltas@.len() == i,
            positions@ == positions_after_all(fills@.take(i as int)),
            forall|j: int|
                0 <= j < i ==> #[trigger] deltas@[j] == delta_of(
                    positions_after_all(fills@.take(j)),
                    fills@[j],
                ),
        decreases fills@.len() - i,
    {
        proof {
            let next = fills@.take(i + 1);
            assert(next.drop_last() =~= fills@.take(i as int));
            assert(next.last() == fills@[i as int]);
        }
        let d: PnlDelta = book_fill(&mut positions, &fills[i]);
        deltas.push(d);
        i = i + 1;
    }
    deltas
}

/// The sum of PnL entries from the front, limited to the range of `i64` at each step.
pub open spec fn running_equity(deltas: Seq<(i64, i64)>) -> i64
    decreases deltas.len(),
{
    if deltas.len() == 0 {
        0
    } else {
        clamp_i64(running_equity(deltas.drop_last()) + deltas.last().1)
    }
}

/// The equity after each PnL entry.
pub open spec fn equity_curve(deltas: Seq<(i64, i64)>) -> Seq<(i64, i64)> {
    Seq::new(deltas.len(), |i: int| (deltas[i].0, running_equity(deltas.take(i + 1))))
}

proof fn lemma_next_equity(deltas: Seq<(i64, i64)>, i: int)
    requires
        0 <= i < deltas.len(),
    ensures
        running_equity(deltas.take(i + 1)) == clamp_i64(
            running_equity(deltas.take(i)) + deltas[i].1,
        ),
{
    let next = deltas.take(i + 1);
    assert(next.drop_last() =~= deltas.take(i));
    assert(next.last() == deltas[i]);
}

pub fn equity_curve_from_pnl_deltas(deltas: &[(TsExchangeNs, i64)]) -> (r: Vec<
    (TsExchangeNs, i64),
>)
    ensures
        r@ == equity_curve(deltas@),
{
    let mut equity: i64 = 0;
    let mut curve: Vec<(TsExchangeNs, i64)> = Vec::with_capacity(deltas.len());
    let mut i: usize = 0;
    assert(deltas@.take(0) =~= Seq::empty());
    while i < deltas.len()
        invariant
            i <= deltas@.len(),
            equity == running_equity(deltas@.take(i as int)),
            curve@ == equity_curve(deltas@).take(i as int),
        decreases deltas@.len() - i,
    {
        proof {
            lemma_next_equity(deltas@, i as int);
        }
        equity = sat_add(equity, deltas[i].1);
        curve.push((deltas[i].0, equity));
        assert(curve@ =~= equity_curve(deltas@).take(i + 1));
        i = i + 1;
    }
    assert(curve@ =~= equity_curve(deltas@));
    curve
}

/// SIMD-friendly (unrolled) equity curve prefix sum.
pub fn equity_curve_from_pnl_deltas_simd(deltas: &[(TsExchangeNs, i64)]) -> (r: Vec<
    (TsExchangeNs, i64),
>)
    ensures
        r@ == equity_curve(deltas@),
{
    let mut equity: i64 = 0;
    let n: usize = deltas.len();
    let mut curve: Vec<(TsExchangeNs, i64)> = Vec::with_capacity(n);
    let mut i: usize = 0;
    assert(deltas@.take(0) =~= Seq::empty());
    while n - i >= 4
        invariant
            i <= n == deltas@.len(),
            equity == running_equity(deltas@.take(i as int)),
            curve@ == equity_curve(deltas@).take(i as int),
        decreases n - i,
    {
        let (ts0, d0) = deltas[i];
        let (ts1, d1) = deltas[i + 1];
        let (ts2, d2) = deltas[i + 2];
        let (ts3, d3) = deltas[i + 3];
        proof {
            lemma_next_equity(deltas@, i as int);
            lemma_next_equity(deltas@, i + 1);
            lemma_next_equity(deltas@, i + 2);
            lemma_next_equity(deltas@, i + 3);
        }
        let e0: i64 = sat_add(equity, d0);
        let e1: i64 = sat_add(e0, d1);
        let e2: i64 = sat_add(e1, d2);
        let e3: i64 = sat_add(e2, d3);
        curve.push((ts0, e0));
        curve.push((ts1, e1));
        curve.push((ts2, e2));
        curve.push((ts3, e3));
        assert(curve@ =~= equity_curve(deltas@).take(i + 4));
        equity = e3;
        i = i + 4;
    }
    while i < n
        invariant
            i <= n == deltas@.len(),
            equity == running_equity(deltas@.take(i as int)),
            curve@ == equity_curve(deltas@).take(i as int),
        decreases n - i,
    {
        proof {
            lemma_next_equity(deltas@, i as int);
        }
        equity = sat_add(equity, deltas[i].1);
        curve.push((deltas[i].0, equity));
        assert(curve@ =~= equity_curve(deltas@).take(i + 1));
        i = i + 1;
    }
    assert(curve@ =~= equity_curve(deltas@));
    curve
}

/// Peak and worst drawdown while walking along an equity curve.
#[verifier::ext_equal]
pub struct DrawdownScan {
    pub peak: i64,
    pub peak_ts: i64,
    pub worst: Drawdown,
    pub duration: i64,
}

impl DrawdownScan {
    /// After the first point of the curve.
    pub open spec fn start(point: (i64, i64)) -> DrawdownScan {
        DrawdownScan { peak: point.1, peak_ts: point.0, worst: Drawdown::zero(), duration: 0 }
    }

    /// After one more point. There is no drawdown from a peak that is not positive.
    pub open spec fn step(self, point: (i64, i64)) -> DrawdownScan {
        if point.1 > self.peak {
            DrawdownScan { peak: point.1, peak_ts: point.0, ..self }
        } else if self.peak > 0 && deeper(self.peak, point.1, self.worst) {
            DrawdownScan {
                worst: drawdown_of(self.peak, point.1),
                duration: clamp_i64(point.0 - self.peak_ts),
                ..self
            }
        } else {
            self
        }
    }
}

/// The scan over a whole curve that is not empty.
pub open spec fn drawdown_scan(curve: Seq<(i64, i64)>) -> DrawdownScan
    decreases curve.len(),
{
    if curve.len() <= 1 {
        DrawdownScan::start(curve[0])
    } else {
        drawdown_scan(curve.drop_last()).step(curve.last())
    }
}

/// Compute max drawdown and its duration from a time-ordered equity curve.
///
/// - the drawdown is reported as a fraction of the peak, at most the whole of it.
/// - `duration` is `ts_trough - ts_peak` for the drawdown window.
pub fn max_drawdown_pct_and_duration(equity_curve: &[(TsExchangeNs, i64)]) -> (r: (Drawdown, i64))
    ensures
        r.0.wf(),
        equity_curve@.len() == 0 ==> r == (Drawdown::zero(), 0i64),
        equity_curve@.len() > 0 ==> r == (
            drawdown_scan(equity_curve@).worst,
            drawdown_scan(equity_curve@).duration,
        ),
{
    let n: usize = equity_curve.len();
    if n == 0 {
        return (Drawdown::none(), 0);
    }
    let (mut peak_ts, mut peak_eq): (i64, i64) = equity_curve[0];
    let mut worst: Drawdown = Drawdown::none();
    let mut duration: i64 = 0;
    let mut i: usize = 1;
    assert(equity_curve@.take(1)[0] == equity_curve@[0]);
    while i < n
        invariant
            1 <= i <= n == equity_curve@.len(),
            worst.wf(),
            drawdown_scan(equity_curve@.take(i as int)) == (DrawdownScan {
                peak: peak_eq,
                peak_ts,
                worst,
                duration,
            }),
        decreases n - i,
    {
        let (ts, eq): (i64, i64) = equity_curve[i];
        proof {
            let next = equity_curve@.take(i + 1);
            assert(next.drop_last() =~= equity_curve@.take(i as int));
            assert(next.last() == equity_curve@[i as int]);
        }
        if eq > peak_eq {
            peak_eq = eq;
            peak_ts = ts;
        } else if peak_eq > 0 && is_deeper(peak_eq, eq, &worst) {
            worst = make_drawdown(peak_eq, eq);
            duration = sat_sub(ts, peak_ts);
        }
        i = i + 1;
    }
    assert(equity_curve@.take(n as int) =~= equity_curve@);
    (worst, duration)
}

/// The mathematical value of the incremental statistics.
#[verifier::ext_equal]
pub struct StatsView {
    pub total_trades: u64,
    pub total_pnl: i64,
    pub gross_profit: i64,
    pub gross_loss: i64,
    pub win_count: u64,
    pub total_fees: i64,
    pub total_holding_period: i64,
    pub closed_trades: u64,
    pub pnl_count: u64,
    pub equity: i64,
    pub scan: DrawdownScan,
    pub positions: Map<u32, PosState>,
}

impl StatsView {
    /// Nothing has happened.
    pub open spec fn zero() -> StatsView {
        StatsView {
            total_trades: 0,
            total_pnl: 0,
            gross_profit: 0,
            gross_loss: 0,
            win_count: 0,
            total_fees: 0,
            total_holding_period: 0,
            closed_trades: 0,
            pnl_count: 0,
            equity: 0,
            scan: DrawdownScan::start((0, 0)),
            positions: Map::empty(),
        }
    }

    /// After a fill: one more trade with its fee, and, where it realises PnL, one more
    /// closed trade with its holding period.
    pub open spec fn with_fill(self, f: TradeFill) -> StatsView {
        let delta = delta_of(self.positions, f);
        StatsView {
            total_trades: count_up(self.total_trades),
            total_fees: clamp_i64(self.total_fees + f.fee),
            positions: positions_after(self.positions, f),
            total_holding_period: if delta.pnl != 0 {
                clamp_i64(self.total_holding_period + delta.holding_period)
            } else {
                self.total_holding_period
            },
            closed_trades: if delta.pnl != 0 {
                count_up(self.closed_trades)
            } else {
                self.closed_trades
            },
            ..self
        }
    }

    /// After a PnL entry. Only the PnL of trades counts as profit, loss and win.
    pub open spec fn with_pnl(self, ts: i64, pnl: i64, is_trade: bool) -> StatsView {
        let equity = clamp_i64(self.equity + pnl);
        StatsView {
            total_pnl: clamp_i64(self.total_pnl + pnl),
            gross_profit: if is_trade && pnl > 0 {
                clamp_i64(self.gross_profit + pnl)
            } else {
                self.gross_profit
            },
            win_count: if is_trade && pnl > 0 {
                count_up(self.win_count)
            } else {
                self.win_count
            },
            gross_loss: if is_trade && pnl < 0 {
                clamp_i64(self.gross_loss + pnl)
            } else {
                self.gross_loss
            },
            pnl_count: count_up(self.pnl_count),
            equity,
            scan: if self.pnl_count == 0 {
                DrawdownScan { peak: equity, peak_ts: ts, ..self.scan }
            } else {
                self.scan.step((ts, equity))
            },
            ..self
        }
    }
}

/// Incremental summary statistics for SummaryOnly mode.
#[derive(Debug, Clone)]
pub struct IncrementalStats {
    pub total_trades: u64,
    pub total_pnl: i64,
    pub gross_profit: i64,
    pub gross_loss: i64,
    pub win_count: u64,
    total_fees: i64,
    total_holding_period: i64,
    closed_trades: u64,
    pnl_count: u64,
    equity: i64,
    peak_equity: i64,
    peak_ts: TsExchangeNs,
    max_drawdown: Drawdown,
    max_drawdown_duration: i64,
    pos_state: BTreeMap<u32, PosState>,
}

impl View for IncrementalStats {
    type V = StatsView;

    closed spec fn view(&self) -> StatsView {
        StatsView {
            total_trades: self.total_trades,
            total_pnl: self.total_pnl,
            gross_profit: self.gross_profit,
            gross_loss: self.gross_loss,
            win_count: self.win_count,
            total_fees: self.total_fees,
            total_holding_period: self.total_holding_period,
            closed_trades: self.closed_trades,
            pnl_count: self.pnl_count,
            equity: self.equity,
            scan: DrawdownScan {
                peak: self.peak_equity,
                peak_ts: self.peak_ts,
                worst: self.max_drawdown,
                duration: self.max_drawdown_duration,
            },
            positions: self.pos_state@,
        }
    }
}

impl Default for IncrementalStats {
    fn default() -> (r: Self)
        ensures
            r@ == StatsView::zero(),
            r.wf(),
    {
        let r = IncrementalStats {
            total_trades: 0,
            total_pnl: 0,
            gross_profit: 0,
            gross_loss: 0,
            win_count: 0,
            total_fees: 0,
            total_holding_period: 0,
            closed_trades: 0,
            pnl_count: 0,
            equity: 0,
            peak_equity: 0,
            peak_ts: 0,
            max_drawdown: Drawdown::none(),
            max_drawdown_duration: 0,
            pos_state: BTreeMap::new(),
        };
        assert(r@ =~= StatsView::zero());
        r
    }
}

/// `sum / count`, rounded toward zero; 0 where there is nothing to average.
pub open spec fn average(sum: i64, count: u64) -> int {
    if count == 0 {
        0
    } else {
        trunc_div(sum as int, count as int)
    }
}

fn average_of(sum: i64, count: u64) -> (r: i64)
    ensures
        r == average(sum, count),
{
    if count == 0 {
        return 0;
    }
    proof {
        lemma_trunc_div_bounds(sum as int, count as int);
    }
    clamp_to_i64(div_toward_zero(sum as i128, count as i128))
}

impl IncrementalStats {
    /// The worst drawdown is a fraction between 0 and 1.
    pub open spec fn wf(&self) -> bool {
        self@.scan.worst.wf()
    }

    fn on_fill(&mut self, fill: &TradeFill)
        requires
            old(self).wf(),
        ensures
            final(self).wf(),
            final(self)@ == old(self)@.with_fill(*fill),
    {
        self.total_trades = sat_inc(self.total_trades);
        self.total_fees = sat_add(self.total_fees, fill.fee);
        let d: PnlDelta = book_fill(&mut self.pos_state, fill);
        if d.pnl != 0 {
            self.total_holding_period = sat_add(self.total_holding_period, d.holding_period);
            self.closed_trades = sat_inc(self.closed_trades);
        }
        assert(self@ =~= old(self)@.with_fill(*fill));
    }

    fn on_pnl(&mut self, ts: TsExchangeNs, pnl: i64, is_trade: bool)
        requires
            old(self).wf(),
        ensures
            final(self).wf(),
            final(self)@ == old(self)@.with_pnl(ts, pnl, is_trade),
    {
        self.total_pnl = sat_add(self.total_pnl, pnl);
        if is_trade {
            if pnl > 0 {
                self.gross_profit = sat_add(self.gross_profit, pnl);
                self.win_count = sat_inc(self.win_count);
            } else if pnl < 0 {
                self.gross_loss = sat_add(self.gross_loss, pnl);
            }
        }
        let first: bool = self.pnl_count == 0;
        self.pnl_count = sat_inc(self.pnl_count);
        // Equity curve + max drawdown tracking.
        self.equity = sat_add(self.equity, pnl);
        if first || self.equity > self.peak_equity {
            self.peak_equity = self.equity;
            self.peak_ts = ts;
        } else if self.peak_equity > 0 && is_deeper(
            self.peak_equity,
            self.equity,
            &self.max_drawdown,
        ) {
            self.max_drawdown = make_drawdown(self.peak_equity, self.equity);
            self.max_drawdown_duration = sat_sub(ts, self.peak_ts);
        }
        assert(self@ =~= old(self)@.with_pnl(ts, pnl, is_trade));
    }

    fn avg_holding_period(&self) -> (r: i64)
        ensures
            r == average(self@.total_holding_period, self@.closed_trades),
    {
        average_of(self.total_holding_period, self.closed_trades)
    }
}

/// The mathematical value of a trade log.
#[verifier::ext_equal]
pub struct LogView {
    pub mode: TradeLogMode,
    /// The fills that the log keeps.
    pub fills: Seq<TradeFill>,
    /// All PnL entries, trades and others, in order.
    pub pnl_history: Seq<(i64, i64)>,
    pub stats: StatsView,
}

/// The last `n` entries of a sequence, or all where it has fewer.
pub open spec fn last_n<T>(s: Seq<T>, n: nat) -> Seq<T> {
    if s.len() > n {
        s.skip(s.len() - n)
    } else {
        s
    }
}

impl LogView {
    pub open spec fn fresh(mode: TradeLogMode) -> LogView {
        LogView {
            mode,
            fills: Seq::empty(),
            pnl_history: Seq::empty(),
            stats: StatsView::zero(),
        }
    }

    /// After a fill: the mode decides which fills are kept; the statistics take every
    /// one, unless the log is off.
    pub open spec fn with_fill(self, f: TradeFill) -> LogView {
        LogView {
            fills: match self.mode {
                TradeLogMode::All => self.fills.push(f),
                TradeLogMode::RingBuffer(cap) => last_n(self.fills.push(f), cap as nat),
                TradeLogMode::SummaryOnly | TradeLogMode::Off => self.fills,
            },
            stats: if self.mode is Off {
                self.stats
            } else {
                self.stats.with_fill(f)
            },
            ..self
        }
    }

    /// After a PnL entry; nothing changes where the log is off.
    pub open spec fn with_pnl(self, ts: i64, pnl: i64, is_trade: bool) -> LogView {
        if self.mode is Off {
            self
        } else {
            LogView {
                pnl_history: self.pnl_history.push((ts, pnl)),
                stats: self.stats.with_pnl(ts, pnl, is_trade),
                ..self
            }
        }
    }
}

#[derive(Debug, Clone)]
pub struct TradeLog {
    mode: TradeLogMode,
    fills: Vec<TradeFill>,
    fills_ring: VecDeque<TradeFill>,
    pnl_history: Vec<(TsExchangeNs, i64)>,
    incremental: IncrementalStats,
}

impl View for TradeLog {
    type V = LogView;

    closed spec fn view(&self) -> LogView {
        LogView {
            mode: self.mode,
            fills: match self.mode {
                TradeLogMode::All => self.fills@,
                TradeLogMode::RingBuffer(_) => self.fills_ring@,
                TradeLogMode::SummaryOnly | TradeLogMode::Off => Seq::empty(),
            },
            pnl_history: self.pnl_history@,
            stats: self.incremental@,
        }
    }
}

impl Default for TradeLog {
    fn default() -> (r: Self)
        ensures
            r.wf(),
            r@ == LogView::fresh(TradeLogMode::All),
    {
        Self::new(TradeLogMode::All)
    }
}

impl TradeLog {
    /// A ring buffer holds no more than its capacity, and the statistics are well formed.
    pub open spec fn wf(&self) -> bool {
        &&& self@.stats.scan.worst.wf()
        &&& match self@.mode {
            TradeLogMode::RingBuffer(cap) => self@.fills.len() <= cap,
            _ => true,
        }
    }

    pub fn new(mode: TradeLogMode) -> (r: Self)
        ensures
            r.wf(),
            r@ == LogView::fresh(mode),
    {
        let r = TradeLog {
            mode,
            fills: Vec::new(),
            fills_ring: VecDeque::new(),
            pnl_history: Vec::new(),
            incremental: IncrementalStats::default(),
        };
        assert(r@ =~= LogView::fresh(mode));
        r
    }

    pub fn mode(&self) -> (r: TradeLogMode)
        ensures
            r == self@.mode,
    {
        self.mode
    }

    pub fn push_fill(&mut self, fill: TradeFill)
        requires
            old(self).wf(),
        ensures
            final(self).wf(),
            final(self)@ == old(self)@.with_fill(fill),
    {
        match self.mode {
            TradeLogMode::All => {
                self.fills.push(fill);
                self.incremental.on_fill(&fill);
            },
            TradeLogMode::RingBuffer(cap) => {
                self.fills_ring.push_back(fill);
                if self.fills_ring.len() > cap {
                    self.fills_ring.pop_front();
                }
                self.incremental.on_fill(&fill);
            },
            TradeLogMode::SummaryOnly => {
                self.incremental.on_fill(&fill);
            },
            TradeLogMode::Off => {},
        }
        assert(self@ =~= old(self)@.with_fill(fill));
    }

    /// Records a PnL entry that is no trade (funding).
    pub fn push_pnl_event(&mut self, event: PnlEvent)
        requires
            old(self).wf(),
        ensures
            final(self).wf(),
            final(self)@ == old(self)@.with_pnl(event.ts_exchange, event.pnl, false),
    {
        if self.mode != TradeLogMode::Off {
            self.pnl_history.push((event.ts_exchange, event.pnl));
            self.incremental.on_pnl(event.ts_exchange, event.pnl, false);
        }
        assert(self@ =~= old(self)@.with_pnl(event.ts_exchange, event.pnl, false));
    }

    /// Update stats from a realized PnL delta (from trade).
    pub fn push_pnl_delta(&mut self, ts: TsExchangeNs, pnl: i64)
        requires
            old(self).wf(),
        ensures
            final(self).wf(),
            final(self)@ == old(self)@.with_pnl(ts, pnl, true),
    {
        if self.mode != TradeLogMode::Off {
            self.pnl_history.push((ts, pnl));
            self.incremental.on_pnl(ts, pnl, true);
        }
        assert(self@ =~= old(self)@.with_pnl(ts, pnl, true));
    }

    /// The fills that the log keeps, oldest first.
    pub fn fills_vec(&self) -> (r: Vec<TradeFill>)
        ensures
            r@ == self@.fills,
    {
        let mut r: Vec<TradeFill> = Vec::new();
        match self.mode {
            TradeLogMode::All => {
                let mut i: usize = 0;
                while i < self.fills.len()
                    invariant
                        i <= self.fills@.len(),
                        r@ == self.fills@.take(i as int),
                    decreases self.fills@.len() - i,
                {
                    r.push(self.fills[i]);
                    assert(r@ =~= self.fills@.take(i + 1));
                    i = i + 1;
                }
                assert(r@ =~= self.fills@);
            },
            TradeLogMode::RingBuffer(_) => {
                let mut i: usize = 0;
                while i < self.fills_ring.len()
                    invariant
                        i <= self.fills_ring@.len(),
                        r@ == self.fills_ring@.take(i as int),
                    decreases self.fills_ring@.len() - i,
                {
                    r.push(self.fills_ring[i]);
                    assert(r@ =~= self.fills_ring@.take(i + 1));
                    i = i + 1;
                }
                assert(r@ =~= self.fills_ring@);
            },
            TradeLogMode::SummaryOnly | TradeLogMode::Off => {},
        }
        r
    }

    // Used for full PnL reconstruction
    pub fn pnl_history(&self) -> (r: &[(TsExchangeNs, i64)])
        ensures
            r@ == self@.pnl_history,
    {
        self.pnl_history.as_slice()
    }

    pub fn incremental_stats(&self) -> (r: &IncrementalStats)
        ensures
            r@ == self@.stats,
    {
        &self.incremental
    }

    /// The number of fills: of those kept, or of all counted where none is kept.
    pub fn len(&self) -> (r: usize)
        ensures
            r == match self@.mode {
                TradeLogMode::SummaryOnly => self@.stats.total_trades as usize,
                _ => self@.fills.len() as usize,
            },
    {
        match self.mode {
            TradeLogMode::All => self.fills.len(),
            TradeLogMode::RingBuffer(_) => self.fills_ring.len(),
            TradeLogMode::SummaryOnly => self.incremental.total_trades as usize,
            TradeLogMode::Off => 0,
        }
    }

    pub fn is_empty(&self) -> (r: bool)
        ensures
            r == match self@.mode {
                TradeLogMode::SummaryOnly => self@.stats.total_trades as usize == 0,
                _ => self@.fills.len() as usize == 0,
            },
    {
        self.len() == 0
    }
}

/// The number of PnL entries above which ratios are computed in parallel.
pub const PARALLEL_RATIO_THRESHOLD: usize = 10_000;

/// Whether the ratios of a PnL history of this length are computed in parallel.
pub fn uses_parallel_ratios(history_len: usize) -> (r: bool)
    ensures
        r == (history_len > PARALLEL_RATIO_THRESHOLD),
{
    history_len > PARALLEL_RATIO_THRESHOLD
}

/// Aggregated backtest statistics.
///
/// Monetary values are fixed-point `i64` (scaled by 1e8). The ratios are given by
/// their parts: win rate `win_count / total_trades`, profit factor
/// `gross_profit / -gross_loss`, maximum drawdown `drop / peak`.
#[derive(Debug, Clone, Copy, PartialEq, Eq, Structural)]
pub struct BacktestStats {
    pub total_trades: u64,
    pub win_count: u64,
    pub gross_profit: i64,
    pub gross_loss: i64,
    /// The largest fall from a peak of the equity curve.
    pub max_drawdown: Drawdown,
    /// Duration (ns) from the peak to the trough of the max drawdown window.
    pub max_drawdown_duration: i64,
    pub total_pnl: i64,
    pub avg_trade_pnl: i64,
    pub avg_holding_period: i64,
    pub total_fees_paid: i64,
}

/// The statistics that follow from the incremental ones.
pub open spec fn stats_of(s: StatsView) -> BacktestStats {
    BacktestStats {
        total_trades: s.total_trades,
        win_count: s.win_count,
        gross_profit: s.gross_profit,
        gross_loss: s.gross_loss,
        max_drawdown: s.scan.worst,
        max_drawdown_duration: s.scan.duration,
        total_pnl: s.total_pnl,
        avg_trade_pnl: average(s.total_pnl, s.total_trades) as i64,
        avg_holding_period: average(s.total_holding_period, s.closed_trades) as i64,
        total_fees_paid: s.total_fees,
    }
}

impl Default for BacktestStats {
    fn default() -> (r: Self)
        ensures
            r == stats_of(StatsView::zero()),
    {
        BacktestStats {
            total_trades: 0,
            win_count: 0,
            gross_profit: 0,
            gross_loss: 0,
            max_drawdown: Drawdown::none(),
            max_drawdown_duration: 0,
            total_pnl: 0,
            avg_trade_pnl: 0,
            avg_holding_period: 0,
            total_fees_paid: 0,
        }
    }
}

/// Compute full time-ordered PnL history (trades + events) from the log.
pub fn full_pnl_history(trade_log: &TradeLog) -> (r: Vec<(TsExchangeNs, i64)>)
    ensures
        r@ == if trade_log@.mode is Off {
            Seq::empty()
        } else {
            trade_log@.pnl_history
        },
{
    let mut r: Vec<(TsExchangeNs, i64)> = Vec::new();
    if trade_log.mode() == TradeLogMode::Off {
        return r;
    }
    let history: &[(TsExchangeNs, i64)] = trade_log.pnl_history();
    let mut i: usize = 0;
    while i < history.len()
        invariant
            i <= history@.len(),
            r@ == history@.take(i as int),
        decreases history@.len() - i,
    {
        r.push(history[i]);
        assert(r@ =~= history@.take(i + 1));
        i = i + 1;
    }
    assert(r@ =~= history@);
    r
}

/// Compute basic stats from fills and PnL events (e.g. funding).
pub fn calculate_stats(trade_log: &TradeLog) -> (r: BacktestStats)
    ensures
        r == if trade_log@.mode is Off {
            stats_of(StatsView::zero())
        } else {
            stats_of(trade_log@.stats)
        },
{
    if trade_log.mode() == TradeLogMode::Off {
        return BacktestStats::default();
    }
    let inc: &IncrementalStats = trade_log.incremental_stats();
    BacktestStats {
        total_trades: inc.total_trades,
        win_count: inc.win_count,
        gross_profit: inc.gross_profit,
        gross_loss: inc.gross_loss,
        max_drawdown: inc.max_drawdown,
        max_drawdown_duration: inc.max_drawdown_duration,
        total_pnl: inc.total_pnl,
        avg_trade_pnl: average_of(inc.total_pnl, inc.total_trades),
        avg_holding_period: inc.avg_holding_period(),
        total_fees_paid: inc.total_fees,
    }
}

} // verus!
