//! Plain value types that the whole simulator speaks in.
use vstd::prelude::*;

use crate::math::{
    clamp_i64, clamp_to_i64, law_division_rounds_toward_zero, lemma_product_bounds,
    lemma_trunc_div_bounds, trunc_div,
};

verus! {

/// Time axis: exchange (ground truth) timestamp in nanoseconds.
pub type TsExchangeNs = i64;

/// Time axis: local (strategy-observed) timestamp in nanoseconds.
pub type TsLocalNs = i64;

/// Time axis: simulation clock timestamp in nanoseconds.
pub type TsSimNs = i64;

/// Number of fixed-point units in one whole unit (satoshi precision, 1e-8).
pub const FIXED_SCALE: i64 = 100_000_000;

/// Fixed-point value with satoshi precision (1e-8).
#[derive(Debug, Clone, Copy, PartialEq, Eq, PartialOrd, Ord, Hash, Structural)]
pub struct FixedPoint(i64);

impl Default for FixedPoint {
    fn default() -> (r: Self)
        ensures
            r.scaled() == 0,
    {
        FixedPoint(0)
    }
}

impl FixedPoint {
    pub const SCALE: i64 = 100_000_000;

    /// The number of 1e-8 units that this value holds.
    pub closed spec fn scaled(self) -> i64 {
        self.0
    }

    pub fn from_scaled_i64(v: i64) -> (r: Self)
        ensures
            r.scaled() == v,
    {
        Self(v)
    }

    pub fn as_scaled_i64(self) -> (r: i64)
        ensures
            r == self.scaled(),
    {
        self.0
    }

    /// Multiplies two fixed-point values: (a*b)/SCALE, rounded toward zero and
    /// limited to the range of `i64`.
    pub fn mul_scaled(self, rhs: Self) -> (r: Self)
        ensures
            r.scaled() == clamp_i64(trunc_div(self.scaled() * rhs.scaled(), FIXED_SCALE as int)),
    {
        proof {
            lemma_product_bounds(self.0 as int, rhs.0 as int);
        }
        let v: i128 = (self.0 as i128 * rhs.0 as i128) / (FIXED_SCALE as i128);
        Self(clamp_to_i64(v))
    }
}

/// The side of an order, a trade or a book level.
#[derive(Debug, Clone, Copy, PartialEq, Eq, Hash, Structural)]
pub enum Side {
    Buy,
    Sell,
    NoSide,
}

impl Side {
    /// Wire code of a side: 1 for buy, -1 for sell, 0 for neither.
    pub open spec fn code(self) -> i8 {
        match self {
            Side::Buy => 1,
            Side::Sell => (-1) as i8,
            Side::NoSide => 0,
        }
    }

    pub fn as_i8(self) -> (r: i8)
        ensures
            r == self.code(),
    {
        match self {
            Side::Buy => 1,
            Side::Sell => -1,
            Side::NoSide => 0,
        }
    }
}

impl TryFrom<i8> for Side {
    type Error = &'static str;

    fn try_from(value: i8) -> (r: Result<Self, &'static str>) {
        match value {
            1 => Ok(Side::Buy),
            -1 => Ok(Side::Sell),
            0 => Ok(Side::NoSide),
            _ => Err("invalid Side (expected 1, -1, or 0)"),
        }
    }
}

impl vstd::std_specs::convert::TryFromSpecImpl<i8> for Side {
    open spec fn obeys_try_from_spec() -> bool {
        true
    }

    open spec fn try_from_spec(value: i8) -> Result<Self, &'static str> {
        if value == 1 {
            Ok(Side::Buy)
        } else if value == -1 {
            Ok(Side::Sell)
        } else if value == 0 {
            Ok(Side::NoSide)
        } else {
            Err("invalid Side (expected 1, -1, or 0)")
        }
    }
}

/// The side code is read back as the side it was written from, and no other
/// number is read as a side.
pub proof fn law_side_code_round_trip(side: Side, value: i8)
    ensures
        <Side as vstd::std_specs::convert::TryFromSpec<i8>>::try_from_spec(side.code()) == Ok::<
            Side,
            &'static str,
        >(side),
        <Side as vstd::std_specs::convert::TryFromSpec<i8>>::try_from_spec(value) is Ok
            <==> exists|s: Side| #[trigger] s.code() == value,
{
    if value == 1 {
        assert(Side::Buy.code() == value);
    } else if value == -1 {
        assert(Side::Sell.code() == value);
    } else if value == 0 {
        assert(Side::NoSide.code() == value);
    }
}

#[derive(Debug, Clone, Copy, PartialEq, Eq, Hash, Structural)]
pub enum OrderType {
    Limit,
    Market,
}

#[derive(Debug, Clone, Copy, PartialEq, Eq, Hash, Structural)]
pub enum OrderState {
    Created,
    PendingNew,
    Open,
    PartiallyFilled,
    PendingCancel,
    Cancelled,
    Filled,
    Rejected,
}

impl OrderState {
    /// An order in a terminal state never changes again.
    pub open spec fn terminal(self) -> bool {
        self is Cancelled || self is Filled || self is Rejected
    }

    /// The states that may follow this one.
    pub open spec fn successors(self) -> Set<OrderState> {
        match self {
            OrderState::Created => set![OrderState::PendingNew],
            OrderState::PendingNew => set![OrderState::Open, OrderState::Rejected],
            OrderState::Open => set![
                OrderState::PartiallyFilled,
                OrderState::Filled,
                OrderState::PendingCancel,
            ],
            OrderState::PartiallyFilled => set![
                OrderState::PartiallyFilled,
                OrderState::Filled,
                OrderState::PendingCancel,
            ],
            OrderState::PendingCancel => set![OrderState::Cancelled, OrderState::Filled],
            OrderState::Cancelled | OrderState::Filled | OrderState::Rejected => set![],
        }
    }

    pub fn is_terminal(self) -> (r: bool)
        ensures
            r == self.terminal(),
    {
        matches!(self, OrderState::Cancelled | OrderState::Filled | OrderState::Rejected)
    }

    pub fn can_transition_to(self, next: Self) -> (r: bool)
        ensures
            r == self.successors().contains(next),
    {
        match self {
            OrderState::Created => matches!(next, OrderState::PendingNew),
            OrderState::PendingNew => matches!(next, OrderState::Open | OrderState::Rejected),
            OrderState::Open | OrderState::PartiallyFilled => matches!(
                next,
                OrderState::PartiallyFilled | OrderState::Filled | OrderState::PendingCancel
            ),
            // A cancel in flight can still lose against a fill.
            OrderState::PendingCancel => matches!(next, OrderState::Cancelled | OrderState::Filled),
            OrderState::Cancelled | OrderState::Filled | OrderState::Rejected => false,
        }
    }
}

/// A state has no successor exactly when it is terminal.
pub proof fn law_terminal_iff_no_successor(state: OrderState)
    ensures
        state.terminal() <==> (forall|next: OrderState| !state.successors().contains(next)),
{
    if !state.terminal() {
        let next = match state {
            OrderState::Created => OrderState::PendingNew,
            OrderState::PendingNew => OrderState::Open,
            OrderState::PendingCancel => OrderState::Cancelled,
            _ => OrderState::Filled,
        };
        assert(state.successors().contains(next));
    }
}

/// A minimal order update message for strategy callbacks (fills/cancels/rejects).
#[derive(Debug, Clone, Copy, PartialEq, Eq)]
pub struct OrderReport {
    pub order_id: u64,
    pub last_fill_qty: i64,
    pub last_fill_price: i64,
    pub filled_qty: i64,
    pub remaining_qty: i64,
    pub reason: Option<&'static str>,
    pub symbol_id: u32,
    pub status: OrderState,
}

/// Funding payment event (perpetual futures).
#[derive(Debug, Clone, Copy, PartialEq, Eq, Structural)]
pub struct FundingEvent {
    pub ts_exchange: TsExchangeNs,
    /// Fixed-point rate (scaled by 1e8). e.g. 0.0001 => 10_000.
    pub rate: i64,
    pub symbol_id: u32,
}

/// Tick (trade/quote) logical representation for callbacks/logging.
///
/// `seq` supports deterministic ordering within a stream.
#[derive(Debug, Clone, Copy, PartialEq, Eq, Structural)]
pub struct Tick {
    pub ts_exchange: TsExchangeNs,
    pub ts_local: TsLocalNs,
    pub seq: u64,
    pub price: i64,
    pub qty: i64,
    pub symbol_id: u32,
    pub side: Side,
    pub flags: u8,
}

/// L2 order book update (price level); quantity 0 removes the level.
#[derive(Debug, Clone, Copy, PartialEq, Eq, Structural)]
pub struct L2Update {
    pub ts_exchange: TsExchangeNs,
    pub seq: u64,
    pub price: i64,
    pub qty: i64,
    pub symbol_id: u32,
    pub side: Side,
}

/// L3 order book update (one venue order).
#[derive(Debug, Clone, Copy, PartialEq, Eq, Structural)]
pub struct L3Update {
    pub ts_exchange: TsExchangeNs,
    pub seq: u64,
    pub order_id: u64,
    pub price: i64,
    pub qty: i64,
    pub symbol_id: u32,
    pub side: Side,
    /// See the action constants of the L3 book.
    pub action: u8,
}

/// A minimal order.
#[derive(Debug, Clone, Copy, PartialEq, Eq, Structural)]
pub struct Order {
    pub order_id: u64,
    pub ts_submit: TsLocalNs,
    pub seq: u64,
    pub price: i64,
    pub qty: i64,
    pub symbol_id: u32,
    pub side: Side,
    pub order_type: OrderType,
}

/// Which states may come before a state: an order is created, waits for the exchange, is
/// open, and ends filled, cancelled or rejected. It is rejected only before it is open,
/// cancelled only while a cancel is on its way, and filled at any time in between.
pub proof fn law_order_lifecycle(state: OrderState)
    ensures
        !state.successors().contains(OrderState::Created),
        state.successors().contains(OrderState::PendingNew) <==> state is Created,
        state.successors().contains(OrderState::Open) <==> state is PendingNew,
        state.successors().contains(OrderState::Rejected) <==> state is PendingNew,
        state.successors().contains(OrderState::PendingCancel) <==> state is Open
            || state is PartiallyFilled,
        state.successors().contains(OrderState::PartiallyFilled) <==> state is Open
            || state is PartiallyFilled,
        state.successors().contains(OrderState::Filled) <==> state is Open
            || state is PartiallyFilled || state is PendingCancel,
        state.successors().contains(OrderState::Cancelled) <==> state is PendingCancel,
        state.terminal() <==> state is Filled || state is Cancelled || state is Rejected,
{
}

/// The product of two values is that of the numbers they stand for, rounded toward zero to
/// the unit of 10^-8, as far as there is room.
pub proof fn law_product_of_scaled_values(a: FixedPoint, b: FixedPoint, r: FixedPoint)
    requires
        call_ensures(FixedPoint::mul_scaled, (a, b), r),
    ensures
        ({
            let exact = a.scaled() * b.scaled();
            let p = r.scaled();
            &&& exact >= 0 ==> 0 <= p && p * 100_000_000 <= exact
            &&& exact >= 0 && p < i64::MAX ==> exact < p * 100_000_000 + 100_000_000
            &&& exact <= 0 ==> p <= 0 && exact <= p * 100_000_000
            &&& exact <= 0 && p > i64::MIN ==> p * 100_000_000 - 100_000_000 < exact
        }),
{
    let exact = a.scaled() * b.scaled();
    law_division_rounds_toward_zero(exact, 100_000_000);
    lemma_trunc_div_bounds(exact, 100_000_000);
}

} // verus!
