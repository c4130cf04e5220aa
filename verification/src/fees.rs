//! Trading fees.
use vstd::prelude::*;

use crate::math::{
    abs, clamp_i128, clamp_i64, clamp_to_i64, div_toward_zero, sat_mul_wide, trunc_div,
};
use crate::types::FIXED_SCALE;

verus! {

/// Basis points in the whole.
pub const BPS_SCALE: i64 = 10_000;

/// The fee of a fill: `price * |qty| * bps` over the two scales, rounded down; never
/// negative, and at most the largest `i64`.
pub open spec fn fee_of(price: i64, qty: i64, fee_bps: i64) -> i64 {
    let numerator = price * abs(qty as int) * fee_bps;
    if fee_bps <= 0 || numerator <= 0 {
        0
    } else {
        clamp_i64(numerator / (FIXED_SCALE * BPS_SCALE))
    }
}

/// Compute fee for a fill in fixed-point (quote, scaled by 1e8).
///
/// Uses a single combined division to avoid intermediate truncation:
/// `fee = floor(price * abs(qty) * fee_bps / (SCALE * 10_000))`
///
/// Both `price` and `qty` are fixed-point i64 (scaled by 1e8).
/// The result is also fixed-point i64 (scaled by 1e8), always >= 0.
/// Negative values of `fee_bps` are treated as 0.
pub fn compute_fee(price: i64, qty: i64, fee_bps: i64) -> (r: i64)
    ensures
        r == fee_of(price, qty, fee_bps),
{
    if fee_bps <= 0 {
        return 0;
    }
    let amount: i128 = if qty >= 0 {
        qty as i128
    } else {
        -(qty as i128)
    };
    proof {
        lemma_notional_bounds(price as int, amount as int);
    }
    let notional: i128 = (price as i128) * amount;
    let numerator: i128 = sat_mul_wide(notional, fee_bps as i128);
    if numerator <= 0 {
        return 0;
    }
    let denominator: i128 = (FIXED_SCALE as i128) * (BPS_SCALE as i128);
    proof {
        lemma_saturated_fee(price * abs(qty as int) * fee_bps);
    }
    clamp_to_i64(div_toward_zero(numerator, denominator))
}

proof fn lemma_notional_bounds(price: int, amount: int)
    requires
        i64::MIN <= price <= i64::MAX,
        0 <= amount <= 0x8000_0000_0000_0000,
    ensures
        i128::MIN <= price * amount <= i128::MAX,
{
    assert(-0x4000_0000_0000_0000_0000_0000_0000_0000 <= price * amount
        <= 0x4000_0000_0000_0000_0000_0000_0000_0000) by (nonlinear_arith)
        requires
            -0x8000_0000_0000_0000 <= price <= 0x7fff_ffff_ffff_ffff,
            0 <= amount <= 0x8000_0000_0000_0000,
    ;
}

proof fn lemma_saturated_fee(numerator: int)
    requires
        numerator > 0,
    ensures
        clamp_i64(numerator / (FIXED_SCALE * BPS_SCALE)) == clamp_i64(
            trunc_div(clamp_i128(numerator), FIXED_SCALE * BPS_SCALE),
        ),
{
    if numerator > i128::MAX {
        assert(numerator / 1_000_000_000_000 >= 0x7fff_ffff_ffff_ffff) by (nonlinear_arith)
            requires
                numerator >= 0x7fff_ffff_ffff_ffff * 1_000_000_000_000,
        ;
    }
}

/// A fee is never negative, and free trading costs nothing.
pub proof fn law_fee_is_never_negative(price: i64, qty: i64, fee_bps: i64)
    ensures
        fee_of(price, qty, fee_bps) >= 0,
        fee_bps <= 0 ==> fee_of(price, qty, fee_bps) == 0,
{
    let numerator = price * abs(qty as int) * fee_bps;
    if numerator > 0 {
        assert(numerator / 1_000_000_000_000 >= 0) by (nonlinear_arith)
            requires
                numerator > 0,
        ;
    }
}

/// Buying and selling the same quantity costs the same fee.
pub proof fn law_fee_ignores_direction(price: i64, qty: i64, fee_bps: i64)
    requires
        qty > i64::MIN,
    ensures
        fee_of(price, qty, fee_bps) == fee_of(price, (-qty) as i64, fee_bps),
{
}

/// The fee is the share of the notional that the basis points name, rounded down: it covers
/// no more than `price * |qty| * bps / 10^12`, and one unit more would be too much.
pub proof fn law_fee_is_share_of_notional(price: i64, qty: i64, fee_bps: i64)
    requires
        price >= 0,
        fee_bps >= 0,
    ensures
        ({
            let f = fee_of(price, qty, fee_bps);
            let amount = if qty < 0 {
                -qty
            } else {
                qty as int
            };
            &&& f * 100_000_000 * 10_000 <= price * amount * fee_bps
            &&& f < i64::MAX ==> price * amount * fee_bps < (f + 1) * 100_000_000 * 10_000
        }),
{
    let amount = if qty < 0 {
        -qty
    } else {
        qty as int
    };
    let n = price * amount * fee_bps;
    assert(n >= 0) by (nonlinear_arith)
        requires
            price >= 0,
            amount >= 0,
            fee_bps >= 0,
            n == price * amount * fee_bps,
    ;
    if fee_bps == 0 {
        assert(n == 0) by (nonlinear_arith)
            requires
                n == price * amount * fee_bps,
                fee_bps == 0,
        ;
    }
    let q = n / 1_000_000_000_000;
    assert(q * 1_000_000_000_000 <= n < (q + 1) * 1_000_000_000_000);
    let f = fee_of(price, qty, fee_bps) as int;
    if q > i64::MAX {
        assert(f * 1_000_000_000_000 <= q * 1_000_000_000_000);
    }
}

/// Nothing is charged where nothing is traded, and none where the price is negative.
pub proof fn law_nothing_traded_costs_nothing(price: i64, qty: i64, fee_bps: i64)
    ensures
        fee_of(price, 0, fee_bps) == 0,
        price <= 0 ==> fee_of(price, qty, fee_bps) == 0,
{
    assert(price * 0 * fee_bps == 0) by (nonlinear_arith);
    let amount = abs(qty as int);
    let n = price * amount * fee_bps;
    if price <= 0 && fee_bps > 0 {
        assert(n <= 0) by (nonlinear_arith)
            requires
                price <= 0,
                amount >= 0,
                fee_bps > 0,
                n == price * amount * fee_bps,
        ;
    }
}

/// Two fills at one price pay together what one fill of both quantities pays, but for one
/// unit that rounding may take.
pub proof fn law_fee_grows_with_quantity(price: i64, a: i64, b: i64, fee_bps: i64)
    requires
        price >= 0,
        fee_bps >= 0,
        a >= 0,
        b >= 0,
        a + b <= i64::MAX,
        fee_of(price, (a + b) as i64, fee_bps) < i64::MAX,
    ensures
        ({
            let parts = fee_of(price, a, fee_bps) + fee_of(price, b, fee_bps);
            parts <= fee_of(price, (a + b) as i64, fee_bps) <= parts + 1
        }),
{
    law_fee_is_share_of_notional(price, a, fee_bps);
    law_fee_is_share_of_notional(price, b, fee_bps);
    law_fee_is_share_of_notional(price, (a + b) as i64, fee_bps);
    let (p, x, y, r) = (price as int, a as int, b as int, fee_bps as int);
    assert(p * (x + y) * r == p * x * r + p * y * r) by (nonlinear_arith);
    assert(p * x * r >= 0 && p * y * r >= 0) by (nonlinear_arith)
        requires
            p >= 0,
            x >= 0,
            y >= 0,
            r >= 0,
    ;
}

/// Twice the quantity pays twice the fee, but for one unit that rounding may take.
pub proof fn law_twice_the_quantity_pays_twice(price: i64, qty: i64, fee_bps: i64)
    requires
        price >= 0,
        fee_bps >= 0,
        qty >= 0,
        2 * qty <= i64::MAX,
        fee_of(price, (2 * qty) as i64, fee_bps) < i64::MAX,
    ensures
        ({
            let twice = fee_of(price, (2 * qty) as i64, fee_bps);
            let once = fee_of(price, qty, fee_bps);
            2 * once <= twice <= 2 * once + 1
        }),
{
    law_fee_grows_with_quantity(price, qty, qty, fee_bps);
}

/// What is charged is the share of the notional that the basis points name, rounded down:
/// said of whatever `compute_fee` returns.
pub proof fn law_charged_fee_is_share_of_notional(price: i64, qty: i64, fee_bps: i64, fee: i64)
    requires
        call_ensures(compute_fee, (price, qty, fee_bps), fee),
        price >= 0,
        fee_bps >= 0,
        qty >= 0,
    ensures
        fee * 100_000_000 * 10_000 <= price * qty * fee_bps,
        fee < i64::MAX ==> price * qty * fee_bps < (fee + 1) * 100_000_000 * 10_000,
        fee >= 0,
{
    law_fee_is_share_of_notional(price, qty, fee_bps);
    law_fee_is_never_negative(price, qty, fee_bps);
}

} // verus!
