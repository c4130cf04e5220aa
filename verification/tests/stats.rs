use backtester_core::stats::{
    calculate_stats, equity_curve_from_pnl_deltas, equity_curve_from_pnl_deltas_simd,
    full_pnl_history, max_drawdown_pct_and_duration, pnl_deltas_from_fills, BacktestStats, Drawdown,
    PnlEvent, TradeFill, TradeLog, TradeLogMode,
};
use backtester_core::types::{FixedPoint, Side, TsExchangeNs};

/// A drawdown in percent.
fn percent(d: Drawdown) -> f64 {
    100.0 * d.drop as f64 / d.peak as f64
}

fn win_rate(s: &BacktestStats) -> f64 {
    if s.total_trades > 0 {
        s.win_count as f64 / s.total_trades as f64
    } else {
        0.0
    }
}

fn profit_factor(s: &BacktestStats) -> f64 {
    if s.gross_loss < 0 {
        s.gross_profit as f64 / (-s.gross_loss) as f64
    } else if s.gross_profit > 0 {
        f64::INFINITY
    } else {
        0.0
    }
}

/// The ratios that the exact parts of the statistics stand for.
struct Ratios {
    win_rate: f64,
    profit_factor: f64,
    sharpe_ratio: f64,
    sortino_ratio: f64,
    max_drawdown: f64,
    calmar_ratio: f64,
}

fn ratios(s: &BacktestStats, log: &TradeLog) -> Ratios {
    let pnl: Vec<f64> = log.pnl_history().iter().map(|e| e.1 as f64).collect();
    let n = pnl.len() as f64;
    let mean = pnl.iter().sum::<f64>() / n;
    let var = pnl.iter().map(|x| (x - mean) * (x - mean)).sum::<f64>() / (n - 1.0);
    let downside = pnl.iter().map(|x| x.min(0.0) * x.min(0.0)).sum::<f64>() / n;
    let max_drawdown = percent(s.max_drawdown);
    let pnl_units = s.total_pnl as f64 / FixedPoint::SCALE as f64;
    Ratios {
        win_rate: win_rate(s),
        profit_factor: profit_factor(s),
        sharpe_ratio: mean / var.sqrt(),
        sortino_ratio: mean / downside.sqrt(),
        max_drawdown,
        calmar_ratio: if max_drawdown > 0.0 {
            pnl_units / (max_drawdown / 100.0)
        } else {
            0.0
        },
    }
}

/// The statistics computed over whole lists, as a reference.
fn calculate_stats_batch(trade_log: &TradeLog) -> BacktestStats {
    if trade_log.mode() == TradeLogMode::Off {
        return BacktestStats::default();
    }

    let fills = trade_log.fills_vec();
    let total_trades = fills.len() as u64;
    let trade_deltas = pnl_deltas_from_fills(&fills);
    let all_pnl_deltas = full_pnl_history(trade_log);

    let mut total_holding_time: i64 = 0;
    let mut num_closed_trades: u64 = 0;
    for d in &trade_deltas {
        if d.holding_period > 0 {
            total_holding_time = total_holding_time.saturating_add(d.holding_period);
            num_closed_trades += 1;
        }
    }

    let mut total_pnl: i64 = 0;
    for (_ts, d) in &all_pnl_deltas {
        total_pnl = total_pnl.saturating_add(*d);
    }

    let mut gross_profit: i64 = 0;
    let mut gross_loss: i64 = 0;
    let mut win_count: u64 = 0;
    for d in &trade_deltas {
        if d.pnl > 0 {
            gross_profit = gross_profit.saturating_add(d.pnl);
            win_count += 1;
        } else if d.pnl < 0 {
            gross_loss = gross_loss.saturating_add(d.pnl);
        }
    }

    let curve = equity_curve_from_pnl_deltas(&all_pnl_deltas);
    let (max_drawdown, max_drawdown_duration) = max_drawdown_pct_and_duration(&curve);

    BacktestStats {
        total_trades,
        win_count,
        gross_profit,
        gross_loss,
        max_drawdown,
        max_drawdown_duration,
        total_pnl,
        avg_trade_pnl: if total_trades > 0 {
            total_pnl / total_trades as i64
        } else {
            0
        },
        avg_holding_period: if num_closed_trades > 0 {
            total_holding_time / num_closed_trades as i64
        } else {
            0
        },
        total_fees_paid: 0,
    }
}

#[test]
fn test_stats_total_pnl_fixed_point_consistency() {
    let fills = vec![
        TradeFill {
            ts_exchange: 1_000,
            symbol_id: 1,
            order_id: 1,
            side: Side::Buy,
            price: 100_00000000,
            qty: 1_00000000,
            fee: 0,
            is_taker: false,
        },
        TradeFill {
            ts_exchange: 2_000,
            symbol_id: 1,
            order_id: 2,
            side: Side::Sell,
            price: 101_00000000,
            qty: 1_00000000,
            fee: 0,
            is_taker: false,
        },
    ];
    let mut log = TradeLog::default();
    for f in fills {
        log.push_fill(f);
    }
    // Manually push PnL delta (simulating Engine)
    log.push_pnl_delta(2_000, 1_00000000);

    let stats = calculate_stats(&log);
    assert_eq!(stats.total_pnl, 1_00000000);
}

#[test]
fn test_stats_max_drawdown_matches_reference() {
    let curve = vec![(0_i64, 100), (10, 120), (20, 90), (30, 130)];
    let (worst, dur) = max_drawdown_pct_and_duration(&curve);
    let dd = percent(worst);
    assert!((dd - 25.0).abs() < 1e-12, "dd={dd}");
    assert_eq!(dur, 10);
}

#[test]
fn test_stats_max_drawdown_clamped_to_100() {
    let curve = vec![(0_i64, 10), (10, -5)];
    let (worst, dur) = max_drawdown_pct_and_duration(&curve);
    let dd = percent(worst);
    assert!((dd - 100.0).abs() < 1e-12, "dd={dd}");
    assert_eq!(dur, 10);
}

#[test]
fn test_stats_max_drawdown_peak_nonpositive_is_zero() {
    let mut log = TradeLog::new(TradeLogMode::SummaryOnly);
    log.push_pnl_event(PnlEvent {
        ts_exchange: 10,
        pnl: -10_00000000,
    });
    log.push_pnl_event(PnlEvent {
        ts_exchange: 20,
        pnl: -5_00000000,
    });

    let stats = calculate_stats(&log);
    assert_eq!(percent(stats.max_drawdown), 0.0);
    assert_eq!(stats.max_drawdown_duration, 0);
}

#[test]
fn test_stats_funding_pnl_timeseries() {
    let mut log = TradeLog::default();
    log.push_pnl_event(PnlEvent {
        ts_exchange: 10,
        pnl: 100_00000000,
    });
    log.push_pnl_event(PnlEvent {
        ts_exchange: 20,
        pnl: -20_00000000,
    });
    log.push_pnl_event(PnlEvent {
        ts_exchange: 30,
        pnl: 50_00000000,
    });

    let stats = calculate_stats(&log);
    assert_eq!(stats.total_pnl, 130_00000000);
    assert!((percent(stats.max_drawdown) - 20.0).abs() < 1e-12);
    assert_eq!(stats.max_drawdown_duration, 10);
}

#[test]
fn test_stats_win_rate_excludes_funding_pnl() {
    let mut log = TradeLog::default();
    log.push_fill(TradeFill {
        ts_exchange: 10,
        symbol_id: 1,
        order_id: 1,
        side: Side::Buy,
        price: 100_00000000,
        qty: 1_00000000,
        fee: 0,
        is_taker: false,
    });
    log.push_fill(TradeFill {
        ts_exchange: 11,
        symbol_id: 1,
        order_id: 2,
        side: Side::Sell,
        price: 110_00000000,
        qty: 1_00000000,
        fee: 0,
        is_taker: false,
    });
    log.push_pnl_delta(11, 10_00000000);
    log.push_pnl_event(PnlEvent {
        ts_exchange: 12,
        pnl: 5_00000000,
    });

    let stats = calculate_stats(&log);
    assert_eq!(stats.total_trades, 2);
    assert_eq!(win_rate(&stats), 0.5);
    assert!(profit_factor(&stats).is_infinite());
}

#[test]
fn test_stats_win_rate_and_profit_factor() {
    let mut log = TradeLog::default();
    log.push_fill(TradeFill {
        ts_exchange: 10,
        symbol_id: 1,
        order_id: 1,
        side: Side::Buy,
        price: 100_00000000,
        qty: 1_00000000,
        fee: 0,
        is_taker: false,
    });
    log.push_fill(TradeFill {
        ts_exchange: 11,
        symbol_id: 1,
        order_id: 2,
        side: Side::Sell,
        price: 110_00000000,
        qty: 1_00000000,
        fee: 0,
        is_taker: false,
    });
    log.push_pnl_delta(11, 10_00000000);

    log.push_fill(TradeFill {
        ts_exchange: 20,
        symbol_id: 1,
        order_id: 3,
        side: Side::Buy,
        price: 100_00000000,
        qty: 1_00000000,
        fee: 0,
        is_taker: false,
    });
    log.push_fill(TradeFill {
        ts_exchange: 21,
        symbol_id: 1,
        order_id: 4,
        side: Side::Sell,
        price: 95_00000000,
        qty: 1_00000000,
        fee: 0,
        is_taker: false,
    });
    log.push_pnl_delta(21, -5_00000000);

    let stats = calculate_stats(&log);
    assert_eq!(stats.total_trades, 4);
    assert_eq!(win_rate(&stats), 0.25);
    assert_eq!(profit_factor(&stats), 2.0);
}

#[test]
fn test_trade_log_ring_buffer_caps_size() {
    let cap = 3;
    let mut log = TradeLog::new(TradeLogMode::RingBuffer(cap));
    for i in 0..5 {
        log.push_fill(TradeFill {
            ts_exchange: i * 1000,
            symbol_id: 1,
            order_id: i as u64,
            side: Side::Buy,
            price: 100_00000000,
            qty: 1_00000000,
            fee: 0,
            is_taker: false,
        });
    }
    assert_eq!(log.len(), cap);
    let fills = log.fills_vec();
    assert_eq!(fills.len(), cap);
    assert_eq!(fills[0].order_id, 2);
}

#[test]
fn test_stats_summary_only_matches_full_log_for_small_input() {
    let fills = vec![
        TradeFill {
            ts_exchange: 1_000,
            symbol_id: 1,
            order_id: 1,
            side: Side::Buy,
            price: 100_00000000,
            qty: 1_00000000,
            fee: 0,
            is_taker: false,
        },
        TradeFill {
            ts_exchange: 2_000,
            symbol_id: 1,
            order_id: 2,
            side: Side::Sell,
            price: 110_00000000, // +10 PnL
            qty: 1_00000000,
            fee: 0,
            is_taker: false,
        },
        TradeFill {
            ts_exchange: 3_000,
            symbol_id: 1,
            order_id: 3,
            side: Side::Buy,
            price: 100_00000000,
            qty: 1_00000000,
            fee: 0,
            is_taker: false,
        },
        TradeFill {
            ts_exchange: 4_000,
            symbol_id: 1,
            order_id: 4,
            side: Side::Sell,
            price: 95_00000000, // -5 PnL
            qty: 1_00000000,
            fee: 0,
            is_taker: false,
        },
    ];

    // Run with All mode to get reference stats.
    let mut log_all = TradeLog::new(TradeLogMode::All);
    for f in &fills {
        log_all.push_fill(*f);
    }
    log_all.push_pnl_delta(2_000, 10_00000000);
    log_all.push_pnl_delta(4_000, -5_00000000);

    let stats_all = calculate_stats(&log_all);

    // Run with SummaryOnly mode
    let mut log_summary = TradeLog::new(TradeLogMode::SummaryOnly);
    for f in &fills {
        log_summary.push_fill(*f);
    }
    log_summary.push_pnl_delta(2_000, 10_00000000);
    log_summary.push_pnl_delta(4_000, -5_00000000);

    let inc_stats = log_summary.incremental_stats();

    assert_eq!(inc_stats.total_pnl, stats_all.total_pnl);
    assert_eq!(inc_stats.total_trades, stats_all.total_trades);
    assert_eq!(inc_stats.win_count, 1);
}

#[test]
fn test_incremental_stats_matches_batch_calculation() {
    let fills = vec![
        TradeFill {
            ts_exchange: 1_000,
            symbol_id: 1,
            order_id: 1,
            side: Side::Buy,
            price: 100_00000000,
            qty: 1_00000000,
            fee: 0,
            is_taker: false,
        },
        TradeFill {
            ts_exchange: 2_000,
            symbol_id: 1,
            order_id: 2,
            side: Side::Sell,
            price: 110_00000000, // +10 PnL
            qty: 1_00000000,
            fee: 0,
            is_taker: false,
        },
        TradeFill {
            ts_exchange: 3_000,
            symbol_id: 1,
            order_id: 3,
            side: Side::Buy,
            price: 100_00000000,
            qty: 1_00000000,
            fee: 0,
            is_taker: false,
        },
        TradeFill {
            ts_exchange: 4_000,
            symbol_id: 1,
            order_id: 4,
            side: Side::Sell,
            price: 95_00000000, // -5 PnL
            qty: 1_00000000,
            fee: 0,
            is_taker: false,
        },
    ];

    let mut log_all = TradeLog::new(TradeLogMode::All);
    for f in &fills {
        log_all.push_fill(*f);
    }
    log_all.push_pnl_delta(2_000, 10_00000000);
    log_all.push_pnl_delta(4_000, -5_00000000);

    let expected = calculate_stats_batch(&log_all);
    let expected_ratios = ratios(&expected, &log_all);

    let mut log_summary = TradeLog::new(TradeLogMode::SummaryOnly);
    for f in &fills {
        log_summary.push_fill(*f);
    }
    log_summary.push_pnl_delta(2_000, 10_00000000);
    log_summary.push_pnl_delta(4_000, -5_00000000);

    let actual = calculate_stats(&log_summary);
    let actual_ratios = ratios(&actual, &log_summary);

    assert_eq!(actual.total_trades, expected.total_trades);
    assert_eq!(actual.total_pnl, expected.total_pnl);
    assert_eq!(actual.avg_trade_pnl, expected.avg_trade_pnl);
    assert_eq!(actual.avg_holding_period, expected.avg_holding_period);
    assert_eq!(actual.max_drawdown_duration, expected.max_drawdown_duration);
    assert!((actual_ratios.win_rate - expected_ratios.win_rate).abs() < 1e-12);
    assert!((actual_ratios.profit_factor - expected_ratios.profit_factor).abs() < 1e-12);
    assert!((actual_ratios.sharpe_ratio - expected_ratios.sharpe_ratio).abs() < 1e-12);
    assert!((actual_ratios.sortino_ratio - expected_ratios.sortino_ratio).abs() < 1e-12);
    assert!((actual_ratios.max_drawdown - expected_ratios.max_drawdown).abs() < 1e-12);
    assert!((actual_ratios.calmar_ratio - expected_ratios.calmar_ratio).abs() < 1e-12);
}

#[test]
fn test_incremental_stats_matches_batch_with_partials_and_flips() {
    let fills = vec![
        TradeFill {
            ts_exchange: 1_000,
            symbol_id: 1,
            order_id: 1,
            side: Side::Buy,
            price: 100_00000000,
            qty: 2_00000000,
            fee: 0,
            is_taker: false,
        },
        TradeFill {
            ts_exchange: 2_000,
            symbol_id: 1,
            order_id: 2,
            side: Side::Sell,
            price: 110_00000000,
            qty: 1_00000000,
            fee: 0,
            is_taker: false,
        },
        TradeFill {
            ts_exchange: 3_000,
            symbol_id: 1,
            order_id: 3,
            side: Side::Buy,
            price: 105_00000000,
            qty: 1_00000000,
            fee: 0,
            is_taker: false,
        },
        TradeFill {
            ts_exchange: 4_000,
            symbol_id: 1,
            order_id: 4,
            side: Side::Sell,
            price: 95_00000000,
            qty: 3_00000000,
            fee: 0,
            is_taker: false,
        },
        TradeFill {
            ts_exchange: 5_000,
            symbol_id: 1,
            order_id: 5,
            side: Side::Buy,
            price: 90_00000000,
            qty: 1_00000000,
            fee: 0,
            is_taker: false,
        },
    ];

    let deltas = pnl_deltas_from_fills(&fills);

    let mut log_all = TradeLog::new(TradeLogMode::All);
    for f in &fills {
        log_all.push_fill(*f);
    }
    for d in &deltas {
        log_all.push_pnl_delta(d.ts_exchange, d.pnl);
    }
    let expected = calculate_stats_batch(&log_all);
    let expected_ratios = ratios(&expected, &log_all);

    let mut log_summary = TradeLog::new(TradeLogMode::SummaryOnly);
    for f in &fills {
        log_summary.push_fill(*f);
    }
    for d in &deltas {
        log_summary.push_pnl_delta(d.ts_exchange, d.pnl);
    }
    let actual = calculate_stats(&log_summary);
    let actual_ratios = ratios(&actual, &log_summary);

    assert_eq!(actual.total_trades, expected.total_trades);
    assert_eq!(actual.total_pnl, expected.total_pnl);
    assert_eq!(actual.avg_trade_pnl, expected.avg_trade_pnl);
    assert_eq!(actual.avg_holding_period, expected.avg_holding_period);
    assert_eq!(actual.max_drawdown_duration, expected.max_drawdown_duration);
    assert!((actual_ratios.win_rate - expected_ratios.win_rate).abs() < 1e-12);
    assert!((actual_ratios.profit_factor - expected_ratios.profit_factor).abs() < 1e-12);
    assert!((actual_ratios.sharpe_ratio - expected_ratios.sharpe_ratio).abs() < 1e-12);
    assert!((actual_ratios.sortino_ratio - expected_ratios.sortino_ratio).abs() < 1e-12);
    assert!((actual_ratios.max_drawdown - expected_ratios.max_drawdown).abs() < 1e-12);
    assert!((actual_ratios.calmar_ratio - expected_ratios.calmar_ratio).abs() < 1e-12);
}

#[test]
fn test_equity_curve_simd_matches_scalar() {
    let deltas: Vec<(TsExchangeNs, i64)> = (0..17)
        .map(|i| {
            let pnl = match i % 4 {
                0 => 5_000_000,
                1 => -3_000_000,
                2 => 2_000_000,
                _ => -1_000_000,
            };
            (1_000 + i as i64 * 10, pnl)
        })
        .collect();

    let scalar = equity_curve_from_pnl_deltas(&deltas);
    let simd = equity_curve_from_pnl_deltas_simd(&deltas);

    assert_eq!(simd, scalar);
}

