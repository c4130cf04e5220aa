//! Pre-trade risk limits and the kill switch.
use vstd::prelude::*;

use crate::math::{abs, clamp_i64, sat_add};
use crate::types::{Order, Side};

verus! {

/// Pre-trade risk guard enforcing per-session limits.
///
/// Tracks its own running PnL so it works regardless of `TradeLogMode`.
/// All monetary values are fixed-point i64 (scaled by 1e8).
#[derive(Debug, Clone, Copy)]
pub struct RiskGuard {
    /// Absolute maximum open orders (0 = unlimited).
    pub max_open_orders: usize,
    /// Absolute maximum position size in base units (0 = unlimited).
    pub max_position: i64,
    /// Minimum cumulative PnL before kill switch fires; must be < 0 to have effect.
    pub max_loss: i64,
    killed: bool,
    running_pnl: i64,
}

/// The position after an order would be filled completely.
pub open spec fn proposed_position(position: i64, side: Side, qty: i64) -> int {
    match side {
        Side::Buy => position + qty,
        Side::Sell => position - qty,
        Side::NoSide => position as int,
    }
}

/// The mathematical value of a guard.
#[verifier::ext_equal]
pub struct GuardView {
    pub max_open_orders: usize,
    pub max_position: i64,
    pub max_loss: i64,
    /// Whether the kill switch has fired.
    pub killed: bool,
    /// PnL of the session so far.
    pub pnl: i64,
}

impl GuardView {
    pub open spec fn fresh(max_open_orders: usize, max_position: i64, max_loss: i64) -> GuardView {
        GuardView { max_open_orders, max_position, max_loss, killed: false, pnl: 0 }
    }

    /// The reason to refuse an order: the kill switch, then the number of open orders,
    /// then the position it would lead to.
    pub open spec fn refusal(
        self,
        order: Order,
        open_order_count: usize,
        position: i64,
    ) -> Option<&'static str> {
        if self.killed {
            Some("risk: kill_switch active")
        } else if self.max_open_orders > 0 && open_order_count >= self.max_open_orders {
            Some("risk: max_open_orders exceeded")
        } else if self.max_position > 0 && abs(proposed_position(position, order.side, order.qty))
            > self.max_position {
            Some("risk: max_position exceeded")
        } else {
            None
        }
    }

    /// After a change of PnL: the switch fires when a negative loss limit is reached,
    /// and stays fired.
    pub open spec fn with_pnl(self, delta: i64) -> GuardView {
        let pnl = clamp_i64(self.pnl + delta);
        GuardView {
            pnl,
            killed: self.killed || (self.max_loss < 0 && pnl <= self.max_loss),
            ..self
        }
    }
}

impl View for RiskGuard {
    type V = GuardView;

    closed spec fn view(&self) -> GuardView {
        GuardView {
            max_open_orders: self.max_open_orders,
            max_position: self.max_position,
            max_loss: self.max_loss,
            killed: self.killed,
            pnl: self.running_pnl,
        }
    }
}

impl RiskGuard {
    pub fn new(max_open_orders: usize, max_position: i64, max_loss: i64) -> (r: Self)
        ensures
            r@ == GuardView::fresh(max_open_orders, max_position, max_loss),
    {
        RiskGuard { max_open_orders, max_position, max_loss, killed: false, running_pnl: 0 }
    }

    /// Check whether the order should be rejected before submission.
    ///
    /// Returns `None` if the order passes all limits, or `Some(reason)` on failure.
    pub fn check_order(
        &self,
        order: &Order,
        open_order_count: usize,
        current_position_qty: i64,
    ) -> (r: Option<&'static str>)
        ensures
            r == self@.refusal(*order, open_order_count, current_position_qty),
    {
        if self.killed {
            return Some("risk: kill_switch active");
        }
        if self.max_open_orders > 0 && open_order_count >= self.max_open_orders {
            return Some("risk: max_open_orders exceeded");
        }
        if self.max_position > 0 {
            let delta: i128 = match order.side {
                Side::Buy => order.qty as i128,
                Side::Sell => -(order.qty as i128),
                Side::NoSide => 0,
            };
            let proposed: i128 = current_position_qty as i128 + delta;
            let limit: i128 = self.max_position as i128;
            if proposed > limit || proposed < -limit {
                return Some("risk: max_position exceeded");
            }
        }
        None
    }

    /// Update the running PnL and fire the kill switch if the threshold is breached.
    ///
    /// `max_loss` is only active when it is strictly negative; zero and positive
    /// values are treated as disabled.
    pub fn update_pnl(&mut self, delta: i64)
        ensures
            final(self)@ == old(self)@.with_pnl(delta),
    {
        self.running_pnl = sat_add(self.running_pnl, delta);
        if !self.killed && self.max_loss < 0 && self.running_pnl <= self.max_loss {
            self.killed = true;
        }
    }

    pub fn is_killed(&self) -> (r: bool)
        ensures
            r == self@.killed,
    {
        self.killed
    }
}

impl Default for RiskGuard {
    fn default() -> (r: Self)
        ensures
            r@ == GuardView::fresh(0, 0, 0),
    {
        Self::new(0, 0, 0)
    }
}

/// Once the kill switch has fired it stays fired, and every order is refused for that
/// reason.
pub proof fn law_kill_switch_refuses_all(
    guard: GuardView,
    delta: i64,
    order: Order,
    open_order_count: usize,
    position: i64,
)
    requires
        guard.killed,
    ensures
        guard.with_pnl(delta).killed,
        guard.refusal(order, open_order_count, position) == Some("risk: kill_switch active"),
{
}

/// A guard without a negative loss limit never fires its kill switch.
pub proof fn law_no_loss_limit_never_kills(guard: GuardView, delta: i64)
    requires
        guard.max_loss >= 0,
    ensures
        guard.with_pnl(delta).killed == guard.killed,
{
}

/// A guard without limits, alive, refuses nothing.
pub proof fn law_no_limits_refuse_nothing(
    guard: GuardView,
    order: Order,
    open_order_count: usize,
    position: i64,
)
    requires
        !guard.killed,
        guard.max_open_orders == 0,
        guard.max_position <= 0,
    ensures
        guard.refusal(order, open_order_count, position) is None,
{
}

/// An order that passes keeps the position within the limit, however little of it is
/// filled.
pub proof fn law_accepted_order_keeps_position_limit(
    guard: GuardView,
    order: Order,
    open_order_count: usize,
    position: i64,
    filled: i64,
)
    requires
        guard.max_position > 0,
        guard.refusal(order, open_order_count, position) is None,
        0 <= filled <= order.qty,
        abs(position as int) <= guard.max_position,
    ensures
        abs(proposed_position(position, order.side, filled)) <= guard.max_position,
{
}

/// What a guard refuses, and why: after the kill switch everything, and else an order where
/// as many are open as the limit allows, or one that would take the position, long or short,
/// past its limit. A limit that is not positive limits nothing.
pub proof fn law_limits_decide(
    guard: GuardView,
    order: Order,
    open_order_count: usize,
    position: i64,
)
    requires
        !guard.killed,
    ensures
        ({
            let refusal = guard.refusal(order, open_order_count, position);
            let after = if order.side is Buy {
                position + order.qty
            } else if order.side is Sell {
                position - order.qty
            } else {
                position as int
            };
            let too_many = 0 < guard.max_open_orders <= open_order_count;
            let too_large = guard.max_position > 0 && (after > guard.max_position || after
                < -guard.max_position);
            &&& too_many ==> refusal == Some("risk: max_open_orders exceeded")
            &&& !too_many && too_large ==> refusal == Some("risk: max_position exceeded")
            &&& !too_many && !too_large ==> refusal is None
        }),
{
}

/// The kill switch fires when the PnL of the session has come down to a negative limit, and
/// only then; the limits themselves stay.
pub proof fn law_loss_limit_fires(guard: GuardView, delta: i64)
    requires
        i64::MIN <= guard.pnl + delta <= i64::MAX,
    ensures
        guard.with_pnl(delta).pnl == guard.pnl + delta,
        guard.with_pnl(delta).killed <==> guard.killed || (guard.max_loss < 0 && guard.pnl + delta
            <= guard.max_loss),
        guard.with_pnl(delta).max_loss == guard.max_loss,
        guard.with_pnl(delta).max_position == guard.max_position,
        guard.with_pnl(delta).max_open_orders == guard.max_open_orders,
{
}

/// A new guard has the limits that it is given, is alive, and starts from nothing.
pub proof fn law_new_guard(max_open_orders: usize, max_position: i64, max_loss: i64)
    ensures
        ({
            let guard = GuardView::fresh(max_open_orders, max_position, max_loss);
            &&& guard.max_open_orders == max_open_orders
            &&& guard.max_position == max_position
            &&& guard.max_loss == max_loss
            &&& guard.pnl == 0
            &&& !guard.killed
        }),
{
}

} // verus!
