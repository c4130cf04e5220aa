use backtester_core::stats::{
    calculate_stats, equity_curve_from_pnl_deltas, full_pnl_history,
    max_drawdown_pct_and_duration, pnl_deltas_from_fills, uses_parallel_ratios, Drawdown,
    PnlEvent, TradeFill, TradeLog, TradeLogMode,
};
use backtester_core::types::Side;

const UNIT: i64 = 100_000_000;

fn fill(ts: i64, side: Side, price: i64, qty: i64) -> TradeFill {
    TradeFill {
        ts_exchange: ts,
        order_id: 1,
        price: price * UNIT,
        qty: qty * UNIT,
        fee: 3,
        symbol_id: 1,
        side,
        is_taker: false,
    }
}

fn filled_log(mode: TradeLogMode) -> TradeLog {
    let mut log = TradeLog::new(mode);
    for (ts, side, price, pnl) in [
        (10, Side::Buy, 100, 0),
        (20, Side::Sell, 104, 4 * UNIT),
        (30, Side::Buy, 104, 0),
        (40, Side::Sell, 101, -3 * UNIT),
    ] {
        log.push_fill(fill(ts, side, price, 1));
        log.push_pnl_delta(ts, pnl);
    }
    log
}

#[test]
fn realised_pnl_and_holding_periods_are_exact() {
    let fills = [
        fill(10, Side::Buy, 100, 1),
        fill(20, Side::Buy, 110, 1),
        fill(50, Side::Sell, 107, 2),
    ];
    let deltas = pnl_deltas_from_fills(&fills);
    assert_eq!((deltas[0].pnl, deltas[1].pnl), (0, 0));
    assert_eq!((deltas[2].pnl, deltas[2].holding_period), (4 * UNIT, 40));
}

#[test]
fn statistics_do_not_depend_on_what_is_kept() {
    let all = calculate_stats(&filled_log(TradeLogMode::All));
    assert_eq!(all, calculate_stats(&filled_log(TradeLogMode::SummaryOnly)));
    assert_eq!(all, calculate_stats(&filled_log(TradeLogMode::RingBuffer(1))));
    assert_eq!(all.total_trades, 4);
    assert_eq!(all.win_count, 1);
    assert_eq!((all.gross_profit, all.gross_loss), (4 * UNIT, -3 * UNIT));
    assert_eq!(all.total_pnl, UNIT);
    assert_eq!(all.avg_trade_pnl, UNIT / 4);
    assert_eq!(all.avg_holding_period, 10);
    assert_eq!(all.total_fees_paid, 12);
    // From 4 down to 1.
    assert_eq!(all.max_drawdown, Drawdown { drop: 3 * UNIT, peak: 4 * UNIT });
    assert_eq!(all.max_drawdown_duration, 20);
}

#[test]
fn a_log_that_is_off_keeps_nothing() {
    let log = filled_log(TradeLogMode::Off);
    assert!(log.is_empty());
    assert!(log.fills_vec().is_empty());
    assert!(full_pnl_history(&log).is_empty());
    let stats = calculate_stats(&log);
    assert_eq!((stats.total_trades, stats.total_pnl), (0, 0));
    assert_eq!(stats.max_drawdown, Drawdown { drop: 0, peak: 1 });
}

#[test]
fn a_ring_keeps_the_last_fills() {
    let log = filled_log(TradeLogMode::RingBuffer(2));
    let times: Vec<i64> = log.fills_vec().iter().map(|f| f.ts_exchange).collect();
    assert_eq!(times, vec![30, 40]);
    assert_eq!(log.len(), 2);
    // One without room keeps none.
    let log = filled_log(TradeLogMode::RingBuffer(0));
    assert!(log.fills_vec().is_empty());
    assert_eq!(calculate_stats(&log).total_trades, 4);
}

#[test]
fn funding_is_no_win() {
    let mut log = TradeLog::default();
    log.push_pnl_event(PnlEvent {
        ts_exchange: 5,
        pnl: 7,
    });
    let stats = calculate_stats(&log);
    assert_eq!((stats.win_count, stats.gross_profit), (0, 0));
    assert_eq!(stats.total_pnl, 7);
}

#[test]
fn the_total_is_the_sum_of_the_history() {
    let log = filled_log(TradeLogMode::All);
    let sum: i64 = full_pnl_history(&log).iter().map(|(_, pnl)| pnl).sum();
    assert_eq!(calculate_stats(&log).total_pnl, sum);
    assert_eq!(log.incremental_stats().total_pnl, sum);
}

#[test]
fn the_drawdown_is_the_deepest_of_the_curve() {
    let curve = equity_curve_from_pnl_deltas(&[(1, 100), (2, -10), (3, 60), (4, -30), (9, -10)]);
    assert_eq!(curve, vec![(1, 100), (2, 90), (3, 150), (4, 120), (9, 110)]);
    let (worst, duration) = max_drawdown_pct_and_duration(&curve);
    assert_eq!(worst, Drawdown { drop: 40, peak: 150 });
    assert_eq!(duration, 6);
    for (_, equity) in &curve[2..] {
        assert!((150 - equity) * worst.peak <= worst.drop * 150);
    }
}

#[test]
fn equity_saturates() {
    let curve = equity_curve_from_pnl_deltas(&[(1, i64::MAX), (2, 5), (3, -1)]);
    assert_eq!(curve, vec![(1, i64::MAX), (2, i64::MAX), (3, i64::MAX - 1)]);
}

#[test]
fn long_histories_are_summed_in_parallel() {
    assert!(!uses_parallel_ratios(10_000));
    assert!(uses_parallel_ratios(10_001));
}

#[test]
fn the_drawdown_below_zero_is_that_of_the_curve() {
    let mut log = TradeLog::new(TradeLogMode::SummaryOnly);
    for (ts, pnl) in [(0, 10), (10, -15), (20, -5)] {
        log.push_pnl_delta(ts, pnl);
    }
    let stats = calculate_stats(&log);
    let curve = equity_curve_from_pnl_deltas(&[(0, 10), (10, -15), (20, -5)]);
    assert_eq!(curve, vec![(0, 10), (10, -5), (20, -10)]);
    assert_eq!(
        (stats.max_drawdown, stats.max_drawdown_duration),
        max_drawdown_pct_and_duration(&curve)
    );
    assert_eq!(stats.max_drawdown, Drawdown { drop: 10, peak: 10 });
    assert_eq!(stats.max_drawdown_duration, 20);
}
