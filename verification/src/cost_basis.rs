//! The average-cost model of a position: what a fill realises, and what it leaves.
use vstd::prelude::*;

use crate::math::{
    abs, clamp_i64, clamp_to_i64, div_toward_zero, law_division_rounds_toward_zero,
    lemma_trunc_div_bounds, sat_add, trunc_div,
};
use crate::types::{Side, TsExchangeNs, FIXED_SCALE};

verus! {

/// A position at average cost.
#[derive(Debug, Clone, Copy, PartialEq, Eq, Structural)]
pub struct PosState {
    /// Positive = long, negative = short.
    pub qty: i64,
    /// Average entry price of the open quantity.
    pub avg_price: i64,
    /// When the open position was entered.
    pub last_open_ts: TsExchangeNs,
}

impl PosState {
    /// No position.
    pub open spec fn flat() -> PosState {
        PosState { qty: 0, avg_price: 0, last_open_ts: 0 }
    }
}

impl Default for PosState {
    fn default() -> (r: Self)
        ensures
            r == PosState::flat(),
    {
        PosState { qty: 0, avg_price: 0, last_open_ts: 0 }
    }
}

/// The change of position that a fill brings: 0 where there is nothing filled.
pub open spec fn signed_fill(side: Side, qty: i64) -> int {
    if qty <= 0 {
        0
    } else {
        match side {
            Side::Buy => qty as int,
            Side::Sell => -qty,
            Side::NoSide => 0,
        }
    }
}

/// Whether a change of position opens or adds, as opposed to reducing.
pub open spec fn opens(qty: i64, delta: int) -> bool {
    qty == 0 || (qty > 0) == (delta > 0)
}

/// The average of two prices, weighted by two quantities.
pub open spec fn weighted_price(price_a: i64, qty_a: int, price_b: i64, qty_b: int) -> int {
    trunc_div(price_a * qty_a + price_b * qty_b, qty_a + qty_b)
}

/// The realised PnL of a fill that changes the position by `delta`: nothing where it
/// opens or adds; else the price difference, times the quantity closed.
pub open spec fn realised(s: PosState, price: i64, delta: int) -> i64 {
    if delta == 0 || opens(s.qty, delta) {
        0
    } else {
        let closed = if abs(s.qty as int) < abs(delta) {
            abs(s.qty as int)
        } else {
            abs(delta)
        };
        let per_unit = if s.qty > 0 {
            price - s.avg_price
        } else {
            s.avg_price - price
        };
        clamp_i64(trunc_div(per_unit * closed, FIXED_SCALE as int))
    }
}

/// The position after a fill that changes it by `delta`.
pub open spec fn after_fill(s: PosState, ts: i64, price: i64, delta: int) -> PosState {
    let qty = clamp_i64(s.qty + delta);
    if delta == 0 {
        s
    } else if opens(s.qty, delta) {
        PosState {
            qty,
            avg_price: clamp_i64(
                weighted_price(s.avg_price, abs(s.qty as int), price, abs(delta)),
            ),
            last_open_ts: if s.qty == 0 {
                ts as i64
            } else {
                s.last_open_ts
            },
        }
    } else if qty == 0 {
        PosState { qty, avg_price: 0, last_open_ts: s.last_open_ts }
    } else if (qty > 0) == (s.qty > 0) {
        PosState { qty, ..s }
    } else {
        // The quantity left over after closing opens at the price of the fill.
        PosState { qty, avg_price: price, last_open_ts: ts as i64 }
    }
}

/// The change of position that a fill brings.
pub fn fill_delta(side: Side, qty: i64) -> (r: i64)
    ensures
        r == signed_fill(side, qty),
{
    if qty <= 0 {
        return 0;
    }
    match side {
        Side::Buy => qty,
        Side::Sell => -qty,
        Side::NoSide => 0,
    }
}

fn magnitude(x: i64) -> (r: i128)
    ensures
        r == abs(x as int),
        0 <= r <= 0x8000_0000_0000_0000,
{
    if x >= 0 {
        x as i128
    } else {
        -(x as i128)
    }
}

/// Applies a fill to a position and returns what it realises.
pub fn apply_fill(s: &mut PosState, ts: TsExchangeNs, price: i64, delta: i64) -> (pnl: i64)
    ensures
        pnl == realised(*old(s), price, delta as int),
        *final(s) == after_fill(*old(s), ts, price, delta as int),
{
    if delta == 0 {
        return 0;
    }
    let abs_old: i128 = magnitude(s.qty);
    let abs_delta: i128 = magnitude(delta);
    let new_qty: i64 = sat_add(s.qty, delta);
    if s.qty == 0 || (s.qty > 0) == (delta > 0) {
        if s.qty == 0 {
            s.last_open_ts = ts;
        }
        proof {
            lemma_weighted_bounds(s.avg_price as int, abs_old as int, price as int, abs_delta as int);
        }
        let weighted: i128 = (s.avg_price as i128 * abs_old) + (price as i128 * abs_delta);
        s.avg_price = clamp_to_i64(div_toward_zero(weighted, abs_old + abs_delta));
        s.qty = new_qty;
        return 0;
    }
    let close_abs: i128 = if abs_old < abs_delta {
        abs_old
    } else {
        abs_delta
    };
    let pnl_per_unit: i128 = if s.qty > 0 {
        price as i128 - s.avg_price as i128
    } else {
        s.avg_price as i128 - price as i128
    };
    proof {
        lemma_closed_bounds(pnl_per_unit as int, close_abs as int);
    }
    let pnl: i64 = clamp_to_i64(div_toward_zero(pnl_per_unit * close_abs, FIXED_SCALE as i128));
    if new_qty == 0 {
        s.qty = 0;
        s.avg_price = 0;
    } else if (new_qty > 0) == (s.qty > 0) {
        s.qty = new_qty;
    } else {
        s.qty = new_qty;
        s.avg_price = price;
        s.last_open_ts = ts;
    }
    pnl
}

proof fn lemma_weighted_bounds(a: int, qa: int, b: int, qb: int)
    requires
        i64::MIN <= a <= i64::MAX,
        i64::MIN <= b <= i64::MAX,
        0 <= qa <= 0x8000_0000_0000_0000,
        0 <= qb <= 0x8000_0000_0000_0000,
    ensures
        i128::MIN <= a * qa <= i128::MAX,
        i128::MIN <= b * qb <= i128::MAX,
        i128::MIN <= a * qa + b * qb <= i128::MAX,
{
    assert(-0x4000_0000_0000_0000_0000_0000_0000_0000 <= a * qa
        <= 0x3fff_ffff_ffff_ffff_8000_0000_0000_0000) by (nonlinear_arith)
        requires
            -0x8000_0000_0000_0000 <= a <= 0x7fff_ffff_ffff_ffff,
            0 <= qa <= 0x8000_0000_0000_0000,
    ;
    assert(-0x4000_0000_0000_0000_0000_0000_0000_0000 <= b * qb
        <= 0x3fff_ffff_ffff_ffff_8000_0000_0000_0000) by (nonlinear_arith)
        requires
            -0x8000_0000_0000_0000 <= b <= 0x7fff_ffff_ffff_ffff,
            0 <= qb <= 0x8000_0000_0000_0000,
    ;
}

proof fn lemma_closed_bounds(per_unit: int, closed: int)
    requires
        -0xffff_ffff_ffff_ffff <= per_unit <= 0xffff_ffff_ffff_ffff,
        0 <= closed <= 0x8000_0000_0000_0000,
    ensures
        i128::MIN <= per_unit * closed <= i128::MAX,
{
    assert(-0x7fff_ffff_ffff_ffff_ffff_ffff_ffff_ffff <= per_unit * closed
        <= 0x7fff_ffff_ffff_ffff_ffff_ffff_ffff_ffff) by (nonlinear_arith)
        requires
            -0xffff_ffff_ffff_ffff <= per_unit <= 0xffff_ffff_ffff_ffff,
            0 <= closed <= 0x8000_0000_0000_0000,
    ;
}

/// The average entry price never leaves the range between the old average and the
/// price of the fill.
pub proof fn law_average_price_is_between(s: PosState, ts: i64, price: i64, delta: int)
    requires
        delta != 0,
        opens(s.qty, delta),
        s.avg_price >= 0,
        price >= 0,
    ensures
        ({
            let avg = after_fill(s, ts, price, delta).avg_price;
            let low = if s.qty == 0 || price < s.avg_price {
                price
            } else {
                s.avg_price
            };
            let high = if s.qty == 0 || price > s.avg_price {
                price
            } else {
                s.avg_price
            };
            low <= avg <= high
        }),
{
    let a = s.avg_price as int;
    let qa = abs(s.qty as int);
    let b = price as int;
    let qb = abs(delta);
    let low = if s.qty == 0 || price < s.avg_price {
        b
    } else {
        a
    };
    let high = if s.qty == 0 || price > s.avg_price {
        b
    } else {
        a
    };
    let total = a * qa + b * qb;
    let n = qa + qb;
    assert(low * n <= total <= high * n) by (nonlinear_arith)
        requires
            total == a * qa + b * qb,
            n == qa + qb,
            qa >= 0,
            qb > 0,
            qa == 0 || (low <= a <= high),
            low <= b <= high,
    ;
    assert(total >= 0) by (nonlinear_arith)
        requires
            low * n <= total,
            low >= 0,
            n > 0,
    ;
    assert(low <= total / n <= high) by (nonlinear_arith)
        requires
            low * n <= total <= high * n,
            n > 0,
    ;
}

/// Closing a position completely leaves it flat in quantity and price, and realises
/// the full price difference.
pub proof fn law_close_leaves_flat(s: PosState, ts: i64, price: i64)
    requires
        s.qty != 0,
        s.qty > i64::MIN,
    ensures
        after_fill(s, ts, price, -s.qty).qty == 0,
        after_fill(s, ts, price, -s.qty).avg_price == 0,
        realised(s, price, -s.qty) == clamp_i64(
            trunc_div((price - s.avg_price) * s.qty, FIXED_SCALE as int),
        ),
{
    if s.qty < 0 {
        let p = price as int;
        let a = s.avg_price as int;
        let q = s.qty as int;
        assert((a - p) * (-q) == (p - a) * q) by (nonlinear_arith);
    }
}

/// A fill at the average price realises nothing.
pub proof fn law_fill_at_cost_realises_nothing(s: PosState, delta: int)
    ensures
        realised(s, s.avg_price, delta) == 0,
{
    let closed = if abs(s.qty as int) < abs(delta) {
        abs(s.qty as int)
    } else {
        abs(delta)
    };
    assert(0 * closed == 0) by (nonlinear_arith);
    lemma_trunc_div_bounds(0, FIXED_SCALE as int);
}

/// A bought quantity is a change up by it, a sold one a change down by it; without a side or
/// without a quantity nothing changes.
pub proof fn law_fill_direction(side: Side, qty: i64)
    ensures
        qty > 0 ==> signed_fill(Side::Buy, qty) == qty,
        qty > 0 ==> signed_fill(Side::Sell, qty) == -qty,
        qty <= 0 ==> signed_fill(side, qty) == 0,
        signed_fill(Side::NoSide, qty) == 0,
{
}

/// A fill moves the position by the quantity filled, whatever it opens or closes.
pub proof fn law_position_moves_by_the_fill(s: PosState, ts: i64, price: i64, delta: int)
    requires
        i64::MIN <= s.qty + delta <= i64::MAX,
    ensures
        after_fill(s, ts, price, delta).qty == s.qty + delta,
        delta == 0 ==> after_fill(s, ts, price, delta) == s,
{
}

/// What a fill realises of a position is the difference of the fill's price to the average
/// entry price for every unit that it closes, rounded toward zero: gain for a long where
/// the price is higher, for a short where it is lower. It closes no more than it brings,
/// and no more than there is.
pub proof fn law_realised_is_gain_on_closed_quantity(s: PosState, price: i64, delta: int)
    requires
        (s.qty > 0 && delta < 0) || (s.qty < 0 && delta > 0),
    ensures
        ({
            let pnl = realised(s, price, delta);
            // The change of position that closes, with the sign of the position.
            let closed = if s.qty > 0 {
                if s.qty + delta < 0 {
                    s.qty as int
                } else {
                    -delta
                }
            } else {
                if s.qty + delta > 0 {
                    s.qty as int
                } else {
                    -delta
                }
            };
            let gain = (price - s.avg_price) * closed;
            &&& i64::MIN < pnl < i64::MAX ==> -100_000_000 < pnl * 100_000_000 - gain < 100_000_000
            &&& gain >= 0 ==> 0 <= pnl && pnl * 100_000_000 <= gain
            &&& gain <= 0 ==> pnl <= 0 && gain <= pnl * 100_000_000
        }),
{
    let c = if abs(s.qty as int) < abs(delta) {
        abs(s.qty as int)
    } else {
        abs(delta)
    };
    let d = price - s.avg_price;
    let per_unit = if s.qty > 0 {
        d
    } else {
        -d
    };
    let closed = if s.qty > 0 {
        c
    } else {
        -c
    };
    assert(per_unit * c == d * closed) by (nonlinear_arith)
        requires
            (per_unit == d && closed == c) || (per_unit == -d && closed == -c),
    ;
    law_division_rounds_toward_zero(per_unit * c, 100_000_000);
    lemma_trunc_div_bounds(per_unit * c, 100_000_000);
}

/// A fill that opens a position or adds to it realises nothing.
pub proof fn law_opening_realises_nothing(s: PosState, price: i64, delta: int)
    requires
        s.qty == 0 || delta == 0 || (s.qty > 0 && delta > 0) || (s.qty < 0 && delta < 0),
    ensures
        realised(s, price, delta) == 0,
{
}

/// A fill that turns a position around is a close of the whole position and an open of what
/// is left over: it realises what the close realises, and leaves what the open leaves.
pub proof fn law_turn_is_close_and_open(s: PosState, ts: i64, price: i64, delta: int)
    requires
        (s.qty > 0 && delta <= -s.qty) || (s.qty < 0 && delta >= -s.qty),
        i64::MIN <= s.qty + delta <= i64::MAX,
        s.qty > i64::MIN,
    ensures
        realised(s, price, delta) == realised(s, price, -s.qty),
        ({
            let flat = after_fill(s, ts, price, -s.qty);
            &&& flat.qty == 0
            &&& realised(flat, price, s.qty + delta) == 0
            &&& s.qty + delta != 0 ==> after_fill(flat, ts, price, s.qty + delta) == after_fill(
                s,
                ts,
                price,
                delta,
            )
        }),
        s.qty + delta != 0 ==> after_fill(s, ts, price, delta) == (PosState {
            qty: (s.qty + delta) as i64,
            avg_price: price,
            last_open_ts: ts,
        }),
{
    let flat = after_fill(s, ts, price, -s.qty);
    let left = s.qty + delta;
    assert(flat.qty == 0 && flat.avg_price == 0);
    if left != 0 {
        let n = abs(left);
        assert(0 * 0 + price * n == price * n);
        lemma_whole_quotient(price as int, n);
    }
}

proof fn lemma_whole_quotient(price: int, n: int)
    requires
        n > 0,
    ensures
        trunc_div(price * n, n) == price,
{
    if price >= 0 {
        assert(price * n >= 0) by (nonlinear_arith)
            requires
                price >= 0,
                n > 0,
        ;
        assert((price * n) / n == price) by (nonlinear_arith)
            requires
                n > 0,
        ;
    } else {
        let p = -price;
        assert(-(price * n) == p * n) by (nonlinear_arith)
            requires
                p == -price,
        ;
        assert(p * n > 0) by (nonlinear_arith)
            requires
                p > 0,
                n > 0,
        ;
        assert((p * n) / n == p) by (nonlinear_arith)
            requires
                n > 0,
        ;
    }
}

/// A fill that closes a part leaves the rest as it was bought: at the same average price,
/// and open since the same time.
pub proof fn law_partial_close_keeps_cost(s: PosState, ts: i64, price: i64, delta: int)
    requires
        (s.qty > 0 && -s.qty < delta < 0) || (s.qty < 0 && 0 < delta < -s.qty),
    ensures
        after_fill(s, ts, price, delta) == (PosState { qty: (s.qty + delta) as i64, ..s }),
{
}

/// The first fill sets entry price and time.
pub proof fn law_open_sets_cost(s: PosState, ts: i64, price: i64, delta: int)
    requires
        s.qty == 0,
        delta != 0,
        i64::MIN <= delta <= i64::MAX,
    ensures
        after_fill(s, ts, price, delta) == (PosState {
            qty: delta as i64,
            avg_price: price,
            last_open_ts: ts,
        }),
{
    let n = abs(delta);
    assert(s.avg_price * 0 + price * n == price * n);
    lemma_whole_quotient(price as int, n);
}

/// A fill that adds keeps what the position cost: the new average times the new quantity is
/// the old cost and that of the fill, but for what rounding the average takes. The time of
/// the first fill stays.
pub proof fn law_add_keeps_total_cost(s: PosState, ts: i64, price: i64, delta: int)
    requires
        (s.qty > 0 && delta > 0) || (s.qty < 0 && delta < 0),
        i64::MIN <= s.qty + delta <= i64::MAX,
        s.avg_price >= 0,
        price >= 0,
    ensures
        ({
            let after = after_fill(s, ts, price, delta);
            let (old_qty, new_qty) = if s.qty > 0 {
                (s.qty as int, delta)
            } else {
                (-s.qty, -delta)
            };
            let cost = s.avg_price * old_qty + price * new_qty;
            &&& after.avg_price * (old_qty + new_qty) <= cost
            &&& cost < (after.avg_price + 1) * (old_qty + new_qty)
            &&& after.last_open_ts == s.last_open_ts
        }),
{
    let a = s.avg_price as int;
    let qa = abs(s.qty as int);
    let b = price as int;
    let qb = abs(delta);
    let cost = a * qa + b * qb;
    let n = qa + qb;
    assert(cost >= 0) by (nonlinear_arith)
        requires
            cost == a * qa + b * qb,
            a >= 0,
            b >= 0,
            qa >= 0,
            qb >= 0,
    ;
    law_division_rounds_toward_zero(cost, n);
    law_average_price_is_between(s, ts, price, delta);
    let q = trunc_div(cost, n);
    assert(q <= i64::MAX) by {
        let high = if a > b {
            a
        } else {
            b
        };
        assert(cost <= high * n) by (nonlinear_arith)
            requires
                cost == a * qa + b * qb,
                n == qa + qb,
                qa >= 0,
                qb >= 0,
                a <= high,
                b <= high,
        ;
        assert(q <= high) by (nonlinear_arith)
            requires
                q * n <= cost,
                cost <= high * n,
                n > 0,
        ;
    }
    assert(q >= 0) by {
        lemma_trunc_div_bounds(cost, n);
    }
    assert((q + 1) * n == q * n + n) by (nonlinear_arith);
}

} // verus!
