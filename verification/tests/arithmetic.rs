use backtester_core::account::Account;
use backtester_core::cost_basis::{apply_fill, fill_delta, PosState};
use backtester_core::fees::compute_fee;
use backtester_core::io::{read_at, seek_to, SeekTarget};
use backtester_core::latency_model::{non_negative, ConstantLatency, LatencyModel, LogNormalJitter};
use backtester_core::risk_guard::RiskGuard;
use backtester_core::rng::make_small_rng;
use backtester_core::stats::TradeFill;
use backtester_core::tuner::BatchTuner;
use backtester_core::types::{
    FixedPoint, FundingEvent, L2Update, Order, OrderReport, OrderState, OrderType, Side, Tick,
};

const UNIT: i64 = 100_000_000;

fn order(side: Side, qty: i64) -> Order {
    Order {
        order_id: 1,
        ts_submit: 0,
        seq: 0,
        price: 100 * UNIT,
        qty,
        symbol_id: 7,
        side,
        order_type: OrderType::Limit,
    }
}

#[test]
fn fixed_point_products_round_toward_zero_and_saturate() {
    let half = FixedPoint::from_scaled_i64(UNIT / 2);
    assert_eq!(half.mul_scaled(half).as_scaled_i64(), UNIT / 4);
    let tiny = FixedPoint::from_scaled_i64(1);
    assert_eq!(tiny.mul_scaled(half).as_scaled_i64(), 0);
    let minus_tiny = FixedPoint::from_scaled_i64(-1);
    assert_eq!(minus_tiny.mul_scaled(half).as_scaled_i64(), 0);
    let huge = FixedPoint::from_scaled_i64(i64::MAX);
    assert_eq!(huge.mul_scaled(huge).as_scaled_i64(), i64::MAX);
    assert_eq!(FixedPoint::default().as_scaled_i64(), 0);
}

#[test]
fn side_codes_round_trip() {
    for side in [Side::Buy, Side::Sell, Side::NoSide] {
        assert_eq!(Side::try_from(side.as_i8()), Ok(side));
    }
    assert_eq!(Side::try_from(2), Err("invalid Side (expected 1, -1, or 0)"));
    assert_eq!(Side::try_from(i8::MIN), Err("invalid Side (expected 1, -1, or 0)"));
}

#[test]
fn terminal_states_have_no_successor() {
    let all = [
        OrderState::Created,
        OrderState::PendingNew,
        OrderState::Open,
        OrderState::PartiallyFilled,
        OrderState::PendingCancel,
        OrderState::Cancelled,
        OrderState::Filled,
        OrderState::Rejected,
    ];
    for state in all {
        let has_successor = all.iter().any(|next| state.can_transition_to(*next));
        assert_eq!(has_successor, !state.is_terminal());
    }
}

#[test]
fn fees_are_exact_and_never_negative() {
    // 100.0 * 1.0 at 5 bps is 0.05.
    assert_eq!(compute_fee(100 * UNIT, UNIT, 5), 5_000_000);
    // The direction of the fill does not matter.
    assert_eq!(compute_fee(100 * UNIT, -UNIT, 5), 5_000_000);
    // Rounded down: 0.00000001 * 1.0 at 9_999 bps.
    assert_eq!(compute_fee(1, UNIT, 9_999), 0);
    assert_eq!(compute_fee(1, UNIT, 10_000), 1);
    assert_eq!(compute_fee(100 * UNIT, UNIT, 0), 0);
    assert_eq!(compute_fee(100 * UNIT, UNIT, -3), 0);
    assert_eq!(compute_fee(-100 * UNIT, UNIT, 5), 0);
    assert_eq!(compute_fee(i64::MAX, i64::MAX, i64::MAX), i64::MAX);
}

#[test]
fn average_cost_moves_between_the_prices() {
    let mut s = PosState::default();
    assert_eq!(apply_fill(&mut s, 10, 100 * UNIT, UNIT), 0);
    assert_eq!(apply_fill(&mut s, 20, 110 * UNIT, 3 * UNIT), 0);
    assert_eq!(s.qty, 4 * UNIT);
    assert_eq!(s.avg_price, 10_750_000_000);
    assert_eq!(s.last_open_ts, 10);
    // A fill at cost realises nothing.
    assert_eq!(apply_fill(&mut s, 30, 10_750_000_000, -UNIT), 0);
    // One above it does.
    assert_eq!(apply_fill(&mut s, 40, 10_850_000_000, -UNIT), UNIT);
    // More than the position turns it around at the price of the fill.
    assert_eq!(apply_fill(&mut s, 50, 10_750_000_000, -3 * UNIT), 0);
    assert_eq!(s.qty, -UNIT);
    assert_eq!(s.avg_price, 10_750_000_000);
    assert_eq!(s.last_open_ts, 50);
    // Closing leaves it flat.
    assert_eq!(apply_fill(&mut s, 60, 10_650_000_000, UNIT), UNIT);
    assert_eq!((s.qty, s.avg_price), (0, 0));
}

#[test]
fn fills_without_quantity_or_side_change_nothing() {
    assert_eq!(fill_delta(Side::Buy, 5), 5);
    assert_eq!(fill_delta(Side::Sell, 5), -5);
    assert_eq!(fill_delta(Side::NoSide, 5), 0);
    assert_eq!(fill_delta(Side::Buy, 0), 0);
    assert_eq!(fill_delta(Side::Sell, -5), 0);
    let mut account = Account::default();
    account.on_fill(&order(Side::NoSide, 5), 5);
    account.on_fill(&order(Side::Buy, 5), 0);
    assert!(account.position(7).is_none());
    assert_eq!(account.position_qty(7), 0);
}

#[test]
fn both_kinds_of_fill_move_the_quantity_alike() {
    let mut plain = Account::default();
    let mut priced = Account::default();
    for (side, qty) in [(Side::Buy, 3), (Side::Sell, 5), (Side::Buy, 1)] {
        plain.on_fill(&order(side, qty), qty);
        priced.on_fill_at(&order(side, qty), qty, 100 * UNIT);
        assert_eq!(plain.position_qty(7), priced.position_qty(7));
    }
    assert_eq!(plain.position_qty(7), -1);
}

#[test]
fn funding_is_paid_by_longs_and_earned_by_shorts() {
    let funding = FundingEvent {
        ts_exchange: 5,
        rate: 10_000, // 0.0001
        symbol_id: 7,
    };
    let mut long = Account::default();
    long.on_fill(&order(Side::Buy, 2 * UNIT), 2 * UNIT);
    // 2.0 * 100.0 * 0.0001 = 0.02
    assert_eq!(long.apply_funding(&funding, 100 * UNIT), -2_000_000);
    assert_eq!(long.total_funding_pnl(), -2_000_000);
    assert_eq!(long.position_qty(7), 2 * UNIT);
    assert_eq!(long.position(7).map(|p| p.funding_pnl), Some(-2_000_000));

    let mut short = Account::default();
    short.on_fill(&order(Side::Sell, 2 * UNIT), 2 * UNIT);
    assert_eq!(short.apply_funding(&funding, 100 * UNIT), 2_000_000);

    let mut flat = Account::default();
    assert_eq!(flat.apply_funding(&funding, 100 * UNIT), 0);
    assert_eq!(long.apply_funding(&funding, 0), 0);
}

#[test]
fn guard_limits_are_tested_in_order() {
    let mut guard = RiskGuard::new(1, 10, -100);
    assert_eq!(guard.check_order(&order(Side::Buy, 10), 0, 0), None);
    assert_eq!(guard.check_order(&order(Side::Sell, 20), 0, 10), None);
    assert_eq!(
        guard.check_order(&order(Side::Sell, 21), 0, 10),
        Some("risk: max_position exceeded")
    );
    assert_eq!(
        guard.check_order(&order(Side::Sell, 21), 1, 10),
        Some("risk: max_open_orders exceeded")
    );
    guard.update_pnl(-99);
    assert!(!guard.is_killed());
    guard.update_pnl(-1);
    assert!(guard.is_killed());
    // The switch stays fired.
    guard.update_pnl(1_000);
    assert_eq!(
        guard.check_order(&order(Side::Buy, 1), 0, 0),
        Some("risk: kill_switch active")
    );
}

#[test]
fn guard_takes_extreme_quantities() {
    let guard = RiskGuard::new(0, i64::MAX, 0);
    assert_eq!(guard.check_order(&order(Side::Buy, i64::MAX), 0, 0), None);
    assert_eq!(
        guard.check_order(&order(Side::Buy, i64::MAX), 0, 1),
        Some("risk: max_position exceeded")
    );
    assert_eq!(
        guard.check_order(&order(Side::Sell, i64::MIN), 0, i64::MAX),
        Some("risk: max_position exceeded")
    );
}

#[test]
fn tuner_changes_at_every_tenth_batch() {
    let mut tuner = BatchTuner::new(1_000, 1_000_000, 100_000, 500);
    for _ in 0..9 {
        tuner.record_batch(10, 1);
        assert_eq!(tuner.current_batch_ns(), 100_000);
    }
    // Batches without ticks do not count.
    tuner.record_batch(10, 0);
    assert_eq!(tuner.current_batch_ns(), 100_000);
    // 10 ns per tick is below the target.
    tuner.record_batch(10, 1);
    assert_eq!(tuner.current_batch_ns(), 200_000);
    // 500 ns per tick is not below it: down by a fifth.
    for _ in 0..10 {
        tuner.record_batch(5_000, 10);
    }
    assert_eq!(tuner.current_batch_ns(), 160_000);
}

#[test]
fn tuner_stays_in_its_range() {
    let mut tuner = BatchTuner::new(1_000_000, 1_000, 5, 500);
    assert_eq!(tuner.current_batch_ns(), 1_000);
    for _ in 0..1_000 {
        tuner.record_batch(1, 1_000);
    }
    assert_eq!(tuner.current_batch_ns(), 1_000_000);
    for _ in 0..1_000 {
        tuner.record_batch(i64::MAX, 1);
    }
    assert_eq!(tuner.current_batch_ns(), 1_000);
}

#[test]
fn constant_latency_is_never_negative() {
    let mut rng = make_small_rng(1);
    let model = ConstantLatency {
        feed_latency_ns: 7,
        order_latency_ns: -3,
    };
    assert_eq!(model.sample_feed_latency(100, &mut rng), 7);
    assert_eq!(model.sample_order_latency(100, &mut rng), 0);
    assert_eq!((&model).sample_feed_latency(100, &mut rng), 7);
    assert_eq!(non_negative(i64::MIN), 0);
    assert_eq!(non_negative(5), 5);
}

#[test]
fn jitter_without_deviation_is_certain() {
    let of = |mean_ns: i64, std_dev_ns: i64| LogNormalJitter { mean_ns, std_dev_ns };
    assert_eq!(of(0, 10).certain_latency_ns(), Some(0));
    assert_eq!(of(-5, 10).certain_latency_ns(), Some(0));
    assert_eq!(of(50, 0).certain_latency_ns(), Some(50));
    assert_eq!(of(50, 1).certain_latency_ns(), None);
}

#[test]
fn seeks_stay_at_or_after_the_start() {
    assert_eq!(seek_to(10, 3, SeekTarget::Start(7)), 7);
    assert_eq!(seek_to(10, 3, SeekTarget::End(-4)), 6);
    assert_eq!(seek_to(10, 3, SeekTarget::End(5)), 15);
    assert_eq!(seek_to(10, 3, SeekTarget::Current(2)), 5);
    assert_eq!(seek_to(10, 3, SeekTarget::Current(-4)), 0);
    assert_eq!(seek_to(u64::MAX, 3, SeekTarget::End(5)), u64::MAX);
}

#[test]
fn reads_continue_until_the_end() {
    let data = [1u8, 2, 3, 4, 5];
    let mut buf = [9u8; 3];
    assert_eq!(read_at(&data, 0, &mut buf), 3);
    assert_eq!(buf, [1, 2, 3]);
    assert_eq!(read_at(&data, 3, &mut buf), 2);
    assert_eq!(buf, [4, 5, 3]);
    assert_eq!(read_at(&data, 5, &mut buf), 0);
    assert_eq!(read_at(&data, u64::MAX, &mut buf), 0);
    assert_eq!(buf, [4, 5, 3]);
}

#[test]
fn messages_stay_compact() {
    assert_eq!(std::mem::size_of::<Tick>(), 48);
    assert_eq!(std::mem::size_of::<L2Update>(), 40);
    assert_eq!(std::mem::size_of::<Order>(), 48);
    assert_eq!(std::mem::size_of::<OrderReport>(), 64);
    assert_eq!(std::mem::size_of::<TradeFill>(), 48);
}

#[test]
fn funding_adds_up_over_all_positions() {
    let mut account = Account::default();
    let mut returned = 0;
    for (symbol_id, side) in [(1, Side::Buy), (2, Side::Sell), (1, Side::Buy)] {
        let o = Order {
            symbol_id,
            ..order(side, UNIT)
        };
        account.on_fill_at(&o, UNIT, 100 * UNIT);
        for symbol_id in [1, 2, 3] {
            let funding = FundingEvent {
                ts_exchange: 5,
                rate: 10_000,
                symbol_id,
            };
            returned += account.apply_funding(&funding, 100 * UNIT);
        }
    }
    let held: i64 = [1, 2, 3]
        .iter()
        .filter_map(|s| account.position(*s))
        .map(|p| p.funding_pnl)
        .sum();
    assert_eq!(account.total_funding_pnl(), returned);
    assert_eq!(held, returned);
    assert_eq!(returned, -2_000_000);
}
