//! What holds of the statistics over whole sequences of fills and PnL entries.
use vstd::prelude::*;

use crate::cost_basis::{after_fill, realised, PosState};
use crate::math::{clamp_i64, count_up, law_division_rounds_toward_zero, lemma_trunc_div_bounds};
use crate::stats::{
    deeper, delta_of, drawdown_of, drawdown_scan, equity_curve, last_n, positions_after_all,
    running_equity, stats_of, Drawdown, DrawdownScan, LogView, PnlDelta, StatsView, TradeFill,
    TradeLogMode,
};

verus! {

/// The statistics after a sequence of fills.
pub open spec fn stats_after_fills(start: StatsView, fills: Seq<TradeFill>) -> StatsView
    decreases fills.len(),
{
    if fills.len() == 0 {
        start
    } else {
        stats_after_fills(start, fills.drop_last()).with_fill(fills.last())
    }
}

/// The statistics after a sequence of PnL entries, all of trades or none.
pub open spec fn stats_after_pnl(
    start: StatsView,
    history: Seq<(i64, i64)>,
    is_trade: bool,
) -> StatsView
    decreases history.len(),
{
    if history.len() == 0 {
        start
    } else {
        stats_after_pnl(start, history.drop_last(), is_trade).with_pnl(
            history.last().0,
            history.last().1,
            is_trade,
        )
    }
}

/// The log after a sequence of fills.
pub open spec fn log_after_fills(mode: TradeLogMode, fills: Seq<TradeFill>) -> LogView
    decreases fills.len(),
{
    if fills.len() == 0 {
        LogView::fresh(mode)
    } else {
        log_after_fills(mode, fills.drop_last()).with_fill(fills.last())
    }
}

/// What each fill realises, computed over the whole list.
pub open spec fn deltas_of(fills: Seq<TradeFill>) -> Seq<PnlDelta> {
    Seq::new(fills.len(), |i: int| delta_of(positions_after_all(fills.take(i)), fills[i]))
}

/// How many deltas realise PnL.
pub open spec fn closing_count(deltas: Seq<PnlDelta>) -> u64
    decreases deltas.len(),
{
    if deltas.len() == 0 {
        0
    } else if deltas.last().pnl != 0 {
        count_up(closing_count(deltas.drop_last()))
    } else {
        closing_count(deltas.drop_last())
    }
}

/// The holding periods of the deltas that realise PnL, added up.
pub open spec fn holding_total(deltas: Seq<PnlDelta>) -> i64
    decreases deltas.len(),
{
    if deltas.len() == 0 {
        0
    } else if deltas.last().pnl != 0 {
        clamp_i64(holding_total(deltas.drop_last()) + deltas.last().holding_period)
    } else {
        holding_total(deltas.drop_last())
    }
}

/// The fees of a list of fills, added up.
pub open spec fn fee_total(fills: Seq<TradeFill>) -> i64
    decreases fills.len(),
{
    if fills.len() == 0 {
        0
    } else {
        clamp_i64(fee_total(fills.drop_last()) + fills.last().fee)
    }
}

/// Fill by fill gives what the whole list gives: the incremental statistics hold the
/// positions, the number of closing fills and the holding time that the list of
/// realised deltas shows, and the fees of all fills.
pub proof fn law_incremental_fills_match_batch(fills: Seq<TradeFill>)
    ensures
        ({
            let s = stats_after_fills(StatsView::zero(), fills);
            &&& s.positions == positions_after_all(fills)
            &&& s.closed_trades == closing_count(deltas_of(fills))
            &&& s.total_holding_period == holding_total(deltas_of(fills))
            &&& s.total_fees == fee_total(fills)
            &&& fills.len() <= u64::MAX ==> s.total_trades == fills.len()
        }),
    decreases fills.len(),
{
    if fills.len() > 0 {
        let front = fills.drop_last();
        law_incremental_fills_match_batch(front);
        assert(fills.take(fills.len() - 1) =~= front);
        assert(deltas_of(fills).drop_last() =~= deltas_of(front)) by {
            assert forall|i: int| 0 <= i < front.len() implies deltas_of(fills)[i] == deltas_of(
                front,
            )[i] by {
                assert(fills.take(i) =~= front.take(i));
            }
        }
        assert(deltas_of(fills).last() == delta_of(positions_after_all(front), fills.last()));
    } else {
        assert(deltas_of(fills) =~= Seq::empty());
    }
}

/// Total PnL and equity are both the running sum of the PnL history.
pub proof fn law_total_pnl_is_history_sum(history: Seq<(i64, i64)>, is_trade: bool)
    ensures
        ({
            let s = stats_after_pnl(StatsView::zero(), history, is_trade);
            &&& s.total_pnl == running_equity(history)
            &&& s.equity == running_equity(history)
            &&& history.len() <= u64::MAX ==> s.pnl_count == history.len()
        }),
    decreases history.len(),
{
    if history.len() > 0 {
        law_total_pnl_is_history_sum(history.drop_last(), is_trade);
    }
}

/// The drawdown tracked entry by entry is the one that the whole equity curve shows.
pub proof fn law_incremental_drawdown_matches_curve(history: Seq<(i64, i64)>, is_trade: bool)
    requires
        0 < history.len() <= u64::MAX,
    ensures
        stats_after_pnl(StatsView::zero(), history, is_trade).scan == drawdown_scan(
            equity_curve(history),
        ),
    decreases history.len(),
{
    let curve = equity_curve(history);
    let front = history.drop_last();
    law_total_pnl_is_history_sum(front, is_trade);
    assert(history.take(history.len() as int) =~= history);
    assert(curve.last() == (history.last().0, running_equity(history)));
    if front.len() > 0 {
        assert(equity_curve(front) =~= curve.drop_last()) by {
            assert forall|i: int| 0 <= i < front.len() implies equity_curve(front)[i]
                == curve[i] by {
                assert(front.take(i + 1) =~= history.take(i + 1));
            }
        }
        law_incremental_drawdown_matches_curve(front, is_trade);
    } else {
        assert(stats_after_pnl(StatsView::zero(), front, is_trade) == StatsView::zero());
        assert(curve.len() == 1);
        assert(curve[0] == curve.last());
    }
}

/// What a log keeps has no influence on what it counts: every mode that is not off
/// leads to the same statistics and the same PnL history.
pub proof fn law_retention_does_not_change_stats(
    a: LogView,
    b: LogView,
    f: TradeFill,
    ts: i64,
    pnl: i64,
    is_trade: bool,
)
    requires
        a.stats == b.stats,
        a.pnl_history == b.pnl_history,
        !(a.mode is Off),
        !(b.mode is Off),
    ensures
        a.with_fill(f).stats == b.with_fill(f).stats,
        a.with_fill(f).pnl_history == b.with_fill(f).pnl_history,
        a.with_pnl(ts, pnl, is_trade).stats == b.with_pnl(ts, pnl, is_trade).stats,
        a.with_pnl(ts, pnl, is_trade).pnl_history == b.with_pnl(ts, pnl, is_trade).pnl_history,
{
}

/// A log that is off never changes.
pub proof fn law_off_log_keeps_nothing(log: LogView, f: TradeFill, ts: i64, pnl: i64, is_trade: bool)
    requires
        log.mode is Off,
    ensures
        log.with_fill(f) =~= log,
        log.with_pnl(ts, pnl, is_trade) =~= log,
{
}

/// A ring buffer keeps exactly the last fills, as many as its capacity; the full log
/// keeps all of them.
pub proof fn law_ring_keeps_last_fills(cap: usize, fills: Seq<TradeFill>)
    ensures
        log_after_fills(TradeLogMode::RingBuffer(cap), fills).fills == last_n(fills, cap as nat),
        log_after_fills(TradeLogMode::All, fills).fills == fills,
        log_after_fills(TradeLogMode::RingBuffer(cap), fills).mode == TradeLogMode::RingBuffer(cap),
        log_after_fills(TradeLogMode::All, fills).mode == TradeLogMode::All,
    decreases fills.len(),
{
    if fills.len() > 0 {
        let front = fills.drop_last();
        law_ring_keeps_last_fills(cap, front);
        let kept = last_n(front, cap as nat);
        assert(last_n(kept.push(fills.last()), cap as nat) =~= last_n(fills, cap as nat));
        assert(front.push(fills.last()) =~= fills);
    } else {
        assert(fills =~= Seq::empty());
    }
}

/// Fills and PnL entries may be recorded in either order.
pub proof fn law_fills_and_pnl_commute(
    s: StatsView,
    f: TradeFill,
    ts: i64,
    pnl: i64,
    is_trade: bool,
)
    ensures
        s.with_fill(f).with_pnl(ts, pnl, is_trade) =~= s.with_pnl(ts, pnl, is_trade).with_fill(f),
{
}

/// PnL that is no trade's counts neither as a win nor as profit or loss.
pub proof fn law_funding_is_no_win(s: StatsView, ts: i64, pnl: i64)
    ensures
        s.with_pnl(ts, pnl, false).win_count == s.win_count,
        s.with_pnl(ts, pnl, false).gross_profit == s.gross_profit,
        s.with_pnl(ts, pnl, false).gross_loss == s.gross_loss,
        s.with_pnl(ts, pnl, false).total_trades == s.total_trades,
{
}

/// The largest equity among the points of a curve.
pub open spec fn peak_of(curve: Seq<(i64, i64)>) -> i64
    decreases curve.len(),
{
    if curve.len() <= 1 {
        curve[0].1
    } else if curve.last().1 > peak_of(curve.drop_last()) {
        curve.last().1
    } else {
        peak_of(curve.drop_last())
    }
}

/// Whether one fraction is at least another.
pub open spec fn at_least(a: Drawdown, b: Drawdown) -> bool {
    b.drop * a.peak <= a.drop * b.peak
}

proof fn lemma_at_least_transitive(a: Drawdown, b: Drawdown, c: Drawdown)
    requires
        a.wf(),
        b.wf(),
        c.wf(),
        at_least(a, b),
        at_least(b, c),
    ensures
        at_least(a, c),
{
    let (an, ad) = (a.drop as int, a.peak as int);
    let (bn, bd) = (b.drop as int, b.peak as int);
    let (cn, cd) = (c.drop as int, c.peak as int);
    assert(cn * ad <= an * cd) by (nonlinear_arith)
        requires
            bn * ad <= an * bd,
            cn * bd <= bn * cd,
            ad > 0,
            bd > 0,
            cd > 0,
            an >= 0,
            bn >= 0,
            cn >= 0,
    {
        assert(cn * bd * ad <= bn * cd * ad) by (nonlinear_arith)
            requires
                cn * bd <= bn * cd,
                ad > 0,
        ;
        assert(bn * ad * cd <= an * bd * cd) by (nonlinear_arith)
            requires
                bn * ad <= an * bd,
                cd > 0,
        ;
        assert(bn * cd * ad == bn * ad * cd) by (nonlinear_arith);
        assert((cn * ad) * bd <= (an * cd) * bd) by (nonlinear_arith)
            requires
                cn * bd * ad <= an * bd * cd,
        ;
    }
}

proof fn lemma_step_not_less(scan: DrawdownScan, point: (i64, i64))
    requires
        scan.worst.wf(),
    ensures
        scan.step(point).worst.wf(),
        at_least(scan.step(point).worst, scan.worst),
        point.1 <= scan.peak && scan.peak > 0 ==> at_least(
            scan.step(point).worst,
            drawdown_of(scan.peak, point.1),
        ),
{
    let after = scan.step(point).worst;
    let w = scan.worst;
    if point.1 <= scan.peak && scan.peak > 0 {
        let d = drawdown_of(scan.peak, point.1);
        let fall = scan.peak - point.1;
        let p = scan.peak as int;
        if deeper(scan.peak, point.1, w) {
            if point.1 < 0 {
                assert(w.drop * p <= p * w.peak) by (nonlinear_arith)
                    requires
                        0 <= w.drop <= w.peak,
                        p > 0,
                ;
            }
            assert(at_least(after, w));
        } else if point.1 < 0 {
            assert(p * w.peak <= fall * w.peak) by (nonlinear_arith)
                requires
                    p <= fall,
                    w.peak > 0,
            ;
        }
    }
}

/// The maximum drawdown is one: at no point of the curve is the fall from the highest
/// equity so far, as a fraction of it, larger than the reported one.
pub proof fn law_max_drawdown_is_max(curve: Seq<(i64, i64)>, j: int)
    requires
        0 <= j < curve.len(),
    ensures
        drawdown_scan(curve).worst.wf(),
        drawdown_scan(curve).peak == peak_of(curve),
        peak_of(curve.take(j + 1)) > 0 ==> at_least(
            drawdown_scan(curve).worst,
            drawdown_of(peak_of(curve.take(j + 1)), curve[j].1),
        ),
    decreases curve.len(),
{
    if curve.len() == 1 {
        assert(curve.take(1) =~= curve);
        if curve[0].1 > 0 {
            lemma_no_fall_is_least(drawdown_scan(curve).worst, curve[0].1);
        }
    } else {
        let front = curve.drop_last();
        let before = drawdown_scan(front);
        if j < front.len() {
            law_max_drawdown_is_max(front, j);
            assert(curve.take(j + 1) =~= front.take(j + 1));
            lemma_step_not_less(before, curve.last());
            if peak_of(curve.take(j + 1)) > 0 {
                lemma_peak_grows(front, j);
                lemma_point_below_peak(front.take(j + 1));
                assert(front.take(j + 1).last() == curve[j]);
                lemma_at_least_transitive(
                    drawdown_scan(curve).worst,
                    before.worst,
                    drawdown_of(peak_of(curve.take(j + 1)), curve[j].1),
                );
            }
        } else {
            law_max_drawdown_is_max(front, 0);
            assert(curve.take(j + 1) =~= curve);
            lemma_step_not_less(before, curve.last());
            assert(curve[j] == curve.last());
            if curve.last().1 > before.peak && curve.last().1 > 0 {
                lemma_no_fall_is_least(drawdown_scan(curve).worst, curve.last().1);
            }
        }
    }
}

proof fn lemma_no_fall_is_least(w: Drawdown, peak: i64)
    requires
        w.wf(),
        peak > 0,
    ensures
        at_least(w, drawdown_of(peak, peak)),
{
    let (n, d, p) = (w.drop as int, w.peak as int, peak as int);
    assert(0 * d <= n * p) by (nonlinear_arith)
        requires
            n >= 0,
            p > 0,
    ;
}

proof fn lemma_peak_grows(curve: Seq<(i64, i64)>, j: int)
    requires
        0 <= j < curve.len(),
    ensures
        peak_of(curve.take(j + 1)) <= peak_of(curve),
    decreases curve.len(),
{
    if j + 1 < curve.len() {
        lemma_peak_grows(curve.drop_last(), j);
        assert(curve.drop_last().take(j + 1) =~= curve.take(j + 1));
    } else {
        assert(curve.take(j + 1) =~= curve);
    }
}

proof fn lemma_point_below_peak(curve: Seq<(i64, i64)>)
    requires
        curve.len() > 0,
    ensures
        curve.last().1 <= peak_of(curve),
{
}

/// The equity curve has a point for each PnL entry, at its time, and goes up by that entry
/// from the point before, from 0 at the start.
pub proof fn law_equity_adds_up_pnl(deltas: Seq<(i64, i64)>, i: int)
    requires
        0 <= i < deltas.len(),
    ensures
        ({
            let curve = equity_curve(deltas);
            let before = if i == 0 {
                0
            } else {
                curve[i - 1].1 as int
            };
            &&& curve.len() == deltas.len()
            &&& curve[i].0 == deltas[i].0
            &&& i64::MIN <= before + deltas[i].1 <= i64::MAX ==> curve[i].1 == before + deltas[i].1
            &&& before + deltas[i].1 > i64::MAX ==> curve[i].1 == i64::MAX
            &&& before + deltas[i].1 < i64::MIN ==> curve[i].1 == i64::MIN
        }),
{
    let next = deltas.take(i + 1);
    assert(next.drop_last() =~= deltas.take(i));
    assert(next.last() == deltas[i]);
    if i > 0 {
        assert(deltas.take(i - 1 + 1) =~= deltas.take(i));
    } else {
        assert(deltas.take(0) =~= Seq::empty());
        assert(running_equity(deltas.take(0)) == 0);
    }
    assert(next.len() > 0);
    assert(running_equity(next) == clamp_i64(running_equity(deltas.take(i)) + deltas[i].1));
}

/// What a PnL entry counts as: always as PnL and equity, and where it is a trade's, as a win
/// and profit if it is positive, as loss if it is negative.
pub proof fn law_pnl_entry_counts(s: StatsView, ts: i64, pnl: i64, is_trade: bool)
    requires
        i64::MIN <= s.total_pnl + pnl <= i64::MAX,
        i64::MIN <= s.equity + pnl <= i64::MAX,
        i64::MIN <= s.gross_profit + pnl <= i64::MAX,
        i64::MIN <= s.gross_loss + pnl <= i64::MAX,
        s.win_count < u64::MAX,
        s.pnl_count < u64::MAX,
    ensures
        ({
            let t = s.with_pnl(ts, pnl, is_trade);
            let is_win = is_trade && pnl > 0;
            let is_loss = is_trade && pnl < 0;
            &&& t.total_pnl == s.total_pnl + pnl
            &&& t.equity == s.equity + pnl
            &&& t.pnl_count == s.pnl_count + 1
            &&& is_win ==> t.gross_profit == s.gross_profit + pnl && t.win_count == s.win_count + 1
            &&& !is_win ==> t.gross_profit == s.gross_profit && t.win_count == s.win_count
            &&& is_loss ==> t.gross_loss == s.gross_loss + pnl
            &&& !is_loss ==> t.gross_loss == s.gross_loss
            &&& t.total_trades == s.total_trades
            &&& t.total_fees == s.total_fees
            &&& t.closed_trades == s.closed_trades
            &&& t.total_holding_period == s.total_holding_period
            &&& t.positions == s.positions
        }),
{
}

/// What a fill counts as: a trade with its fee, and a closed trade with the time since the
/// position was opened where it realises something. It moves the position of its symbol and
/// no PnL.
pub proof fn law_fill_counts(s: StatsView, f: TradeFill, other: u32)
    requires
        s.total_trades < u64::MAX,
        s.closed_trades < u64::MAX,
        i64::MIN <= s.total_fees + f.fee <= i64::MAX,
        f.qty > 0,
    ensures
        ({
            let t = s.with_fill(f);
            let p = if s.positions.contains_key(f.symbol_id) {
                s.positions[f.symbol_id]
            } else {
                PosState { qty: 0, avg_price: 0, last_open_ts: 0 }
            };
            let delta = if f.side is Buy {
                f.qty as int
            } else if f.side is Sell {
                -f.qty
            } else {
                0
            };
            let pnl = realised(p, f.price, delta);
            let held = f.ts_exchange - p.last_open_ts;
            &&& t.total_trades == s.total_trades + 1
            &&& t.total_fees == s.total_fees + f.fee
            &&& t.total_pnl == s.total_pnl
            &&& t.equity == s.equity
            &&& t.scan == s.scan
            &&& pnl == 0 ==> t.closed_trades == s.closed_trades && t.total_holding_period
                == s.total_holding_period
            &&& pnl != 0 ==> t.closed_trades == s.closed_trades + 1
            &&& pnl != 0 && i64::MIN <= held <= i64::MAX && i64::MIN <= s.total_holding_period + held
                <= i64::MAX ==> t.total_holding_period == s.total_holding_period + held
            &&& delta != 0 ==> t.positions.contains_key(f.symbol_id) && t.positions[f.symbol_id]
                == after_fill(p, f.ts_exchange, f.price, delta)
            &&& other != f.symbol_id ==> (t.positions.contains_key(other)
                <==> s.positions.contains_key(other))
            &&& other != f.symbol_id && s.positions.contains_key(other) ==> t.positions[other]
                == s.positions[other]
        }),
{
}

/// A fill realises on the position of its own symbol, and is told with its own time.
pub proof fn law_fill_realises_on_its_symbol(positions: Map<u32, PosState>, f: TradeFill)
    requires
        f.qty > 0,
    ensures
        ({
            let d = delta_of(positions, f);
            let p = if positions.contains_key(f.symbol_id) {
                positions[f.symbol_id]
            } else {
                PosState { qty: 0, avg_price: 0, last_open_ts: 0 }
            };
            let held = f.ts_exchange - p.last_open_ts;
            &&& d.ts_exchange == f.ts_exchange
            &&& f.side is Buy ==> d.pnl == realised(p, f.price, f.qty as int)
            &&& f.side is Sell ==> d.pnl == realised(p, f.price, -f.qty)
            &&& f.side is NoSide ==> d.pnl == 0
            &&& d.pnl == 0 ==> d.holding_period == 0
            &&& d.pnl != 0 && i64::MIN <= held <= i64::MAX ==> d.holding_period == held
        }),
{
}

/// The statistics of a run are those that were counted, with the averages of PnL per trade
/// and of time per closed trade, rounded toward zero; without trades there is no average.
pub proof fn law_statistics_are_what_was_counted(s: StatsView)
    ensures
        ({
            let r = stats_of(s);
            &&& r.total_trades == s.total_trades
            &&& r.win_count == s.win_count
            &&& r.gross_profit == s.gross_profit
            &&& r.gross_loss == s.gross_loss
            &&& r.total_pnl == s.total_pnl
            &&& r.total_fees_paid == s.total_fees
            &&& r.max_drawdown == s.scan.worst
            &&& r.max_drawdown_duration == s.scan.duration
            &&& is_average(s.total_pnl as int, s.total_trades as int, r.avg_trade_pnl as int)
            &&& is_average(
                s.total_holding_period as int,
                s.closed_trades as int,
                r.avg_holding_period as int,
            )
        }),
{
    if s.total_trades > 0 {
        law_division_rounds_toward_zero(s.total_pnl as int, s.total_trades as int);
        lemma_trunc_div_bounds(s.total_pnl as int, s.total_trades as int);
    }
    if s.closed_trades > 0 {
        law_division_rounds_toward_zero(s.total_holding_period as int, s.closed_trades as int);
        lemma_trunc_div_bounds(s.total_holding_period as int, s.closed_trades as int);
    }
}

/// Whether `r` is `sum / n`, rounded toward zero, or 0 where there is nothing.
pub open spec fn is_average(sum: int, n: int, r: int) -> bool {
    &&& n == 0 ==> r == 0
    &&& n > 0 && sum >= 0 ==> r * n <= sum < r * n + n
    &&& n > 0 && sum <= 0 ==> r * n - n < sum <= r * n
}

/// A log keeps its entries in order: a full log all fills, a ring buffer as many of the last
/// ones as it has room for, and every log that is not off all PnL entries.
pub proof fn law_log_keeps_in_order(
    log: LogView,
    f: TradeFill,
    ts: i64,
    pnl: i64,
    is_trade: bool,
    i: int,
)
    ensures
        log.mode is All ==> log.with_fill(f).fills == log.fills.push(f),
        log.mode matches TradeLogMode::RingBuffer(cap) ==> {
            let kept = log.with_fill(f).fills;
            &&& log.fills.len() < cap ==> kept == log.fills.push(f)
            &&& log.fills.len() == cap && cap > 0 ==> kept == log.fills.drop_first().push(f)
            &&& cap == 0 && log.fills.len() == 0 ==> kept.len() == 0
        },
        log.mode is SummaryOnly ==> log.with_fill(f).fills == log.fills,
        !(log.mode is Off) ==> log.with_pnl(ts, pnl, is_trade).pnl_history
            == log.pnl_history.push((ts, pnl)),
        !(log.mode is Off) ==> log.with_pnl(ts, pnl, is_trade).stats == log.stats.with_pnl(
            ts,
            pnl,
            is_trade,
        ),
        !(log.mode is Off) ==> log.with_fill(f).stats == log.stats.with_fill(f),
        log.with_pnl(ts, pnl, is_trade).fills == log.fills,
        log.with_fill(f).pnl_history == log.pnl_history,
{
    if let TradeLogMode::RingBuffer(cap) = log.mode {
        if log.fills.len() == cap && cap > 0 {
            assert(log.fills.push(f).skip(1) =~= log.fills.drop_first().push(f));
        }
    }
}

/// Whether the highest point of a curve up to its end is at `i`, where it is reached first.
pub open spec fn is_first_peak(curve: Seq<(i64, i64)>, i: int) -> bool {
    &&& 0 <= i < curve.len()
    &&& forall|k: int| 0 <= k < curve.len() ==> (#[trigger] curve[k]).1 <= curve[i].1
    &&& forall|k: int| 0 <= k < i ==> (#[trigger] curve[k]).1 < curve[i].1
}

/// Whether the maximum drawdown is the fall from the peak at `i` to the point at `j`: a fall
/// below 0 counts as the whole peak.
pub open spec fn falls_from_to(
    curve: Seq<(i64, i64)>,
    worst: Drawdown,
    duration: i64,
    i: int,
    j: int,
) -> bool {
    &&& 0 <= i <= j < curve.len()
    &&& is_first_peak(curve.take(j + 1), i)
    &&& curve[i].1 > 0
    &&& worst.peak == curve[i].1
    &&& worst.drop == if curve[j].1 < 0 {
        curve[i].1 as int
    } else {
        curve[i].1 - curve[j].1
    }
    &&& i64::MIN <= curve[j].0 - curve[i].0 <= i64::MAX ==> duration == curve[j].0 - curve[i].0
}

/// The maximum drawdown happened: it is the fall from a peak of the curve to a later point,
/// and lasts from the one to the other; or there was none.
pub proof fn law_max_drawdown_is_reached(curve: Seq<(i64, i64)>)
    requires
        curve.len() > 0,
    ensures
        ({
            let scan = drawdown_scan(curve);
            ||| scan.worst.drop == 0 && scan.duration == 0
            ||| exists|i: int, j: int| #[trigger]
                falls_from_to(curve, scan.worst, scan.duration, i, j)
        }),
        exists|i: int| #[trigger]
            is_first_peak(curve, i) && drawdown_scan(curve).peak == curve[i].1
                && drawdown_scan(curve).peak_ts == curve[i].0,
    decreases curve.len(),
{
    let scan = drawdown_scan(curve);
    if curve.len() == 1 {
        assert(is_first_peak(curve, 0));
    } else {
        let front = curve.drop_last();
        law_max_drawdown_is_reached(front);
        let before = drawdown_scan(front);
        let n = curve.len() - 1;
        let p = choose|i: int| #[trigger]
            is_first_peak(front, i) && before.peak == front[i].1 && before.peak_ts == front[i].0;
        assert(curve.take(n + 1) =~= curve);
        assert(curve[n] == curve.last());
        if curve.last().1 > before.peak {
            assert(is_first_peak(curve, n)) by {
                assert forall|k: int| 0 <= k < n implies (#[trigger] curve[k]).1
                    < curve[n].1 by {
                    assert(front[k] == curve[k]);
                }
            }
        } else {
            assert(is_first_peak(curve, p)) by {
                assert forall|k: int| 0 <= k < curve.len() implies (#[trigger] curve[k]).1
                    <= curve[p].1 by {
                    if k < n {
                        assert(front[k] == curve[k]);
                    }
                }
                assert forall|k: int| 0 <= k < p implies (#[trigger] curve[k]).1 < curve[p].1 by {
                    assert(front[k] == curve[k]);
                }
            }
        }
        if curve.last().1 <= before.peak && before.peak > 0 && deeper(
            before.peak,
            curve.last().1,
            before.worst,
        ) {
            assert(falls_from_to(curve, scan.worst, scan.duration, p, n));
        } else if before.worst.drop != 0 || before.duration != 0 {
            let (i, j) = choose|i: int, j: int| #[trigger]
                falls_from_to(front, before.worst, before.duration, i, j);
            assert(front.take(j + 1) =~= curve.take(j + 1));
            assert(falls_from_to(curve, scan.worst, scan.duration, i, j));
        }
    }
}

/// No fall is deeper than the maximum drawdown: from any point of the curve above 0 to any
/// later one, the fall as a fraction of the first, at most the whole of it, is no larger than
/// the reported one.
pub proof fn law_no_fall_is_deeper(curve: Seq<(i64, i64)>, i: int, j: int)
    requires
        0 <= i <= j < curve.len(),
        curve[i].1 > 0,
    ensures
        ({
            let worst = drawdown_scan(curve).worst;
            let fall = if curve[j].1 < 0 {
                curve[i].1 as int
            } else {
                curve[i].1 - curve[j].1
            };
            &&& fall * worst.peak <= worst.drop * curve[i].1
            &&& 0 <= worst.drop <= worst.peak
            &&& worst.peak > 0
        }),
{
    law_max_drawdown_is_max(curve, j);
    let worst = drawdown_scan(curve).worst;
    let part = curve.take(j + 1);
    lemma_points_below_peak(part, i);
    let high = peak_of(part) as int;
    let (c, e) = (curve[i].1 as int, curve[j].1 as int);
    let fall = if e < 0 {
        c
    } else {
        c - e
    };
    let full = if e < 0 {
        high
    } else {
        high - e
    };
    lemma_points_below_peak(part, j);
    assert(part[j] == curve[j] && part[i] == curve[i]);
    let (n, d) = (worst.drop as int, worst.peak as int);
    assert(full * d <= n * high);
    assert(fall * d <= n * c) by (nonlinear_arith)
        requires
            full * d <= n * high,
            e < 0 ==> fall == c && full == high,
            e >= 0 ==> fall == c - e && full == high - e,
            0 < c <= high,
            e <= high,
            d > 0,
            n >= 0,
    {
        assert(fall * high <= full * c) by (nonlinear_arith)
            requires
                e < 0 ==> fall == c && full == high,
                e >= 0 ==> fall == c - e && full == high - e,
                0 < c <= high,
        ;
        assert((fall * high) * d <= (full * c) * d) by (nonlinear_arith)
            requires
                fall * high <= full * c,
                d > 0,
        ;
        assert((full * d) * c <= (n * high) * c) by (nonlinear_arith)
            requires
                full * d <= n * high,
                c > 0,
        ;
        assert((full * c) * d == (full * d) * c) by (nonlinear_arith);
        assert((fall * high) * d == (fall * d) * high) by (nonlinear_arith);
        assert((n * high) * c == (n * c) * high) by (nonlinear_arith);
        assert((fall * d) * high <= (n * c) * high);
        assert(fall * d <= n * c) by (nonlinear_arith)
            requires
                (fall * d) * high <= (n * c) * high,
                high > 0,
        ;
    }
}

proof fn lemma_points_below_peak(curve: Seq<(i64, i64)>, i: int)
    requires
        0 <= i < curve.len(),
    ensures
        curve[i].1 <= peak_of(curve),
    decreases curve.len(),
{
    if i < curve.len() - 1 {
        lemma_points_below_peak(curve.drop_last(), i);
    }
}

} // verus!
