use backtester_core::types::{FixedPoint, OrderState, Side};

#[test]
fn test_order_state_machine_basic_invariants() {
    assert!(OrderState::Filled.is_terminal());
    assert!(OrderState::Cancelled.is_terminal());
    assert!(OrderState::Rejected.is_terminal());
    assert!(!OrderState::Open.is_terminal());

    assert!(OrderState::PendingNew.can_transition_to(OrderState::Open));
    assert!(OrderState::Open.can_transition_to(OrderState::PendingCancel));
    assert!(OrderState::PendingCancel.can_transition_to(OrderState::Cancelled));

    assert!(!OrderState::Filled.can_transition_to(OrderState::Open));
}
