use backtester_core::risk_guard::RiskGuard;

use backtester_core::types::{Order, OrderType, Side};

fn make_order(side: Side, qty: i64) -> Order {
    Order {
        order_id: 1,
        ts_submit: 0,
        seq: 0,
        symbol_id: 1,
        side,
        order_type: OrderType::Limit,
        price: 100_00000000,
        qty,
    }
}

#[test]
fn test_check_order_passes_when_no_limits() {
    let g = RiskGuard::default();
    assert!(g.check_order(&make_order(Side::Buy, 1_00000000), 100, 0).is_none());
}

#[test]
fn test_max_open_orders_rejects_at_limit() {
    let g = RiskGuard::new(2, 0, 0);
    // 1 open order — OK
    assert!(g.check_order(&make_order(Side::Buy, 1_00000000), 1, 0).is_none());
    // 2 open orders — reject
    assert!(g.check_order(&make_order(Side::Buy, 1_00000000), 2, 0).is_some());
}

#[test]
fn test_max_position_rejects_when_exceeded() {
    let g = RiskGuard::new(0, 1_00000000, 0);
    // Buy 2 units with flat position → proposed=2 > 1 → reject
    assert!(g.check_order(&make_order(Side::Buy, 2_00000000), 0, 0).is_some());
    // Buy 1 unit with flat position → proposed=1 == 1 → OK
    assert!(g.check_order(&make_order(Side::Buy, 1_00000000), 0, 0).is_none());
}

#[test]
fn test_kill_switch_fires_on_max_loss() {
    let mut g = RiskGuard::new(0, 0, -1);
    assert!(!g.is_killed());
    g.update_pnl(-1);
    assert!(g.is_killed());
}

#[test]
fn test_killed_rejects_all_orders() {
    let mut g = RiskGuard::new(0, 0, -1);
    g.update_pnl(-100_00000000);
    assert!(g.check_order(&make_order(Side::Buy, 1_00000000), 0, 0).is_some());
}

#[test]
fn test_max_loss_zero_means_unlimited() {
    let mut g = RiskGuard::new(0, 0, 0);
    g.update_pnl(-1_000_000_000_000);
    assert!(!g.is_killed());
}

#[test]
fn test_positive_max_loss_never_triggers() {
    // Positive max_loss is treated as disabled (guard is < 0 check).
    let mut g = RiskGuard::new(0, 0, 1);
    g.update_pnl(-100_00000000);
    assert!(!g.is_killed(), "positive max_loss must not trigger");
}
