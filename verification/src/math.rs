//! Saturating and truncating integer arithmetic, with its meaning over `int`.
use vstd::prelude::*;

verus! {

/// `x` limited to the range of `i64`.
pub open spec fn clamp_i64(x: int) -> i64 {
    if x < i64::MIN {
        i64::MIN
    } else if x > i64::MAX {
        i64::MAX
    } else {
        x as i64
    }
}

/// `x` limited to the range of `i128`.
pub open spec fn clamp_i128(x: int) -> int {
    if x < i128::MIN {
        i128::MIN as int
    } else if x > i128::MAX {
        i128::MAX as int
    } else {
        x
    }
}

/// `x`, or the nearer end of the range from `low` to `high`.
pub open spec fn within(x: int, low: int, high: int) -> int {
    if x < low {
        low
    } else if x > high {
        high
    } else {
        x
    }
}

/// Quotient rounded toward zero, for a positive divisor.
pub open spec fn trunc_div(a: int, b: int) -> int
    recommends
        b > 0,
{
    if a >= 0 {
        a / b
    } else {
        -((-a) / b)
    }
}

/// The absolute value of `x`.
pub open spec fn abs(x: int) -> int {
    if x >= 0 {
        x
    } else {
        -x
    }
}

/// `x + 1`, staying at the top of the range of `u64`.
pub open spec fn count_up(x: u64) -> u64 {
    if x == u64::MAX {
        x
    } else {
        (x + 1) as u64
    }
}

/// Limits a wide integer to the range of `i64`.
pub fn clamp_to_i64(x: i128) -> (r: i64)
    ensures
        r == clamp_i64(x as int),
{
    if x < -9_223_372_036_854_775_808i128 {
        i64::MIN
    } else if x > 9_223_372_036_854_775_807i128 {
        i64::MAX
    } else {
        x as i64
    }
}

/// Sum, limited to the range of `i64`.
pub fn sat_add(a: i64, b: i64) -> (r: i64)
    ensures
        r == clamp_i64(a + b),
{
    clamp_to_i64(a as i128 + b as i128)
}

/// Difference, limited to the range of `i64`.
pub fn sat_sub(a: i64, b: i64) -> (r: i64)
    ensures
        r == clamp_i64(a - b),
{
    clamp_to_i64(a as i128 - b as i128)
}

/// Negation, limited to the range of `i64`.
pub fn sat_neg(a: i64) -> (r: i64)
    ensures
        r == clamp_i64(-a),
{
    clamp_to_i64(-(a as i128))
}

/// Counts one more, staying at the top of the range.
pub fn sat_inc(a: u64) -> (r: u64)
    ensures
        r == count_up(a),
{
    a.saturating_add(1)
}

/// Product, limited to the range of `i128`.
pub fn sat_mul_wide(a: i128, b: i128) -> (r: i128)
    ensures
        r == clamp_i128(a * b),
{
    match a.checked_mul(b) {
        Some(v) => v,
        None => {
            if (a < 0) == (b < 0) {
                proof {
                    assert(a * b >= 0) by (nonlinear_arith)
                        requires
                            (a < 0) == (b < 0),
                    ;
                }
                i128::MAX
            } else {
                proof {
                    assert(a * b <= 0) by (nonlinear_arith)
                        requires
                            (a < 0) != (b < 0),
                    ;
                }
                i128::MIN
            }
        },
    }
}

/// Quotient rounded toward zero, for a positive divisor.
pub fn div_toward_zero(a: i128, b: i128) -> (r: i128)
    requires
        b > 0,
    ensures
        r == trunc_div(a as int, b as int),
{
    a / b
}

/// The product of two values of the range of `i64` is far inside `i128`.
pub proof fn lemma_product_bounds(a: int, b: int)
    requires
        i64::MIN <= a <= i64::MAX,
        i64::MIN <= b <= i64::MAX,
    ensures
        -0x4000_0000_0000_0000_0000_0000_0000_0000 <= a * b <= 0x4000_0000_0000_0000_0000_0000_0000_0000,
{
    assert(-0x4000_0000_0000_0000_0000_0000_0000_0000 <= a * b
        <= 0x4000_0000_0000_0000_0000_0000_0000_0000) by (nonlinear_arith)
        requires
            -0x8000_0000_0000_0000 <= a <= 0x7fff_ffff_ffff_ffff,
            -0x8000_0000_0000_0000 <= b <= 0x7fff_ffff_ffff_ffff,
    ;
}

/// Rounding toward zero never leaves the interval between zero and the dividend.
pub proof fn lemma_trunc_div_bounds(a: int, b: int)
    requires
        b > 0,
    ensures
        a >= 0 ==> 0 <= trunc_div(a, b) <= a,
        a <= 0 ==> a <= trunc_div(a, b) <= 0,
{
    if a >= 0 {
        assert(0 <= a / b <= a) by (nonlinear_arith)
            requires
                a >= 0,
                b > 0,
        ;
    } else {
        let n: int = -a;
        assert(0 <= n / b <= n) by (nonlinear_arith)
            requires
                n >= 0,
                b > 0,
        ;
    }
}

/// Saturation gives the nearest number that there is: one in range stays as it is, and one
/// out of range becomes the end of the range that it lies beyond.
pub proof fn law_saturation_is_nearest(x: int, y: i64)
    ensures
        i64::MIN <= x <= i64::MAX ==> clamp_i64(x) == x,
        x > i64::MAX ==> y <= clamp_i64(x),
        x < i64::MIN ==> clamp_i64(x) <= y,
        i128::MIN <= x <= i128::MAX ==> clamp_i128(x) == x,
        x > i128::MAX ==> clamp_i128(x) == i128::MAX,
        x < i128::MIN ==> clamp_i128(x) == i128::MIN,
{
}

/// A number is moved into a range by the shortest way.
pub proof fn law_range_is_kept(x: int, low: int, high: int)
    requires
        low <= high,
    ensures
        low <= within(x, low, high) <= high,
        low <= x <= high ==> within(x, low, high) == x,
        x <= low ==> within(x, low, high) == low,
        x >= high ==> within(x, low, high) == high,
{
}

/// Division rounds toward zero: the quotient times the divisor is no further from zero than
/// the dividend, and by less than one divisor.
pub proof fn law_division_rounds_toward_zero(a: int, b: int)
    requires
        b > 0,
    ensures
        a >= 0 ==> trunc_div(a, b) * b <= a < trunc_div(a, b) * b + b,
        a <= 0 ==> trunc_div(a, b) * b - b < a <= trunc_div(a, b) * b,
{
    if a >= 0 {
        let q = a / b;
        assert(q * b <= a < q * b + b) by (nonlinear_arith)
            requires
                q == a / b,
                b > 0,
        ;
    } else {
        let n: int = -a;
        let q = n / b;
        assert(q * b <= n < q * b + b) by (nonlinear_arith)
            requires
                q == n / b,
                b > 0,
        ;
        assert((-q) * b == -(q * b)) by (nonlinear_arith);
    }
    if a == 0 {
        assert(trunc_div(a, b) * b == 0) by {
            lemma_trunc_div_bounds(a, b);
        }
    }
}

/// The absolute value has no sign, and is the number itself or its opposite.
pub proof fn law_absolute_value(x: int)
    ensures
        abs(x) >= 0,
        abs(x) == x || abs(x) == -x,
{
}

/// A count goes up by one until it is at the top, where it stays.
pub proof fn law_count_goes_up(x: u64)
    ensures
        x < u64::MAX ==> count_up(x) == x + 1,
        count_up(u64::MAX) == u64::MAX,
{
}

} // verus!
