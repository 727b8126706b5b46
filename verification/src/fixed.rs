//! Fixed-point scalars: an `i32` holding a real number times `ONE`.
//!
//! Sums and products saturate at the ends of the `i32` range, and quotients
//! round toward zero, so that negating an operand negates the result.

use vstd::prelude::*;

verus! {

/// The raw value of the real number one.
pub const ONE: i32 = 65536;

/// The square of `ONE`: the scale of a product of two raw values.
pub const ONE_SQ: u64 = 0x1_0000_0000;

/// The `i32` nearest to `x`.
pub open spec fn clamp(x: int) -> i32 {
    if x < i32::MIN {
        i32::MIN
    } else if x > i32::MAX {
        i32::MAX
    } else {
        x as i32
    }
}

/// The quotient of `a` by a positive `b`, rounded toward zero.
pub open spec fn trunc_div(a: int, b: int) -> int
    recommends
        b > 0,
{
    if a >= 0 {
        a / b
    } else {
        -((-a) / b)
    }
}

/// The raw product of two fixed-point numbers, before saturation.
pub open spec fn mul_spec(a: int, b: int) -> int {
    trunc_div(a * b, ONE as int)
}

/// The absolute value of an integer.
pub open spec fn abs_spec(a: int) -> int {
    if a >= 0 {
        a
    } else {
        -a
    }
}

/// Rounding toward zero commutes with negation.
pub proof fn lemma_trunc_div_odd(a: int, b: int)
    requires
        b > 0,
    ensures
        trunc_div(-a, b) == -trunc_div(a, b),
{
    if a == 0 {
        assert(0int / b == 0) by (nonlinear_arith)
            requires
                b > 0,
        ;
    }
}

/// A quotient rounded toward zero misses the dividend by less than the divisor,
/// and lies on the dividend's side of zero.
pub proof fn lemma_trunc_div_bounds(a: int, b: int)
    requires
        b > 0,
    ensures
        abs_spec(a - b * trunc_div(a, b)) < b,
        a >= 0 ==> 0 <= trunc_div(a, b) <= a,
        a <= 0 ==> a <= trunc_div(a, b) <= 0,
{
    let m = abs_spec(a);
    assert(0 <= m - b * (m / b) < b && 0 <= m / b <= m) by (nonlinear_arith)
        requires
            b > 0,
            m >= 0,
    ;
    if a < 0 {
        assert(b * (-(m / b)) == -(b * (m / b))) by (nonlinear_arith);
    }
}

/// A product is bounded by the product of its factors' bounds.
pub proof fn lemma_mul_bound(a: int, b: int, ma: int, mb: int)
    by (nonlinear_arith)
    requires
        -ma <= a <= ma,
        -mb <= b <= mb,
    ensures
        -(ma * mb) <= a * b <= ma * mb,
{
}

/// Saturates a wide integer to the `i32` range.
pub fn saturate(x: i128) -> (r: i32)
    ensures
        r == clamp(x as int),
{
    if x < i32::MIN as i128 {
        i32::MIN
    } else if x > i32::MAX as i128 {
        i32::MAX
    } else {
        x as i32
    }
}

/// The fixed-point number that stands for the integer `n`.
pub fn from_int(n: i16) -> (r: i32)
    ensures
        r == n * ONE,
{
    n as i32 * 65536
}

/// The point between `lo` and `hi` that lies the fraction `t` of the way
/// from `lo`, before saturation.
pub open spec fn lerp_spec(lo: int, hi: int, t: int) -> int {
    lo + trunc_div((hi - lo) * t, ONE as int)
}

/// The point between `lo` and `hi` that lies the fraction `t` of the way
/// from `lo`, saturating.
pub fn fx_lerp(lo: i32, hi: i32, t: i32) -> (r: i32)
    ensures
        r == clamp(lerp_spec(lo as int, hi as int, t as int)),
{
    let span: i128 = hi as i128 - lo as i128;
    proof {
        lemma_mul_bound(span as int, t as int, 0x1_0000_0000, 0x8000_0000);
    }
    saturate(lo as i128 + (span * t as i128) / 65536)
}

/// A point a fraction of the way from `lo` to a larger `hi` lies from `lo`
/// up to, but not at, `hi`.
pub proof fn lemma_lerp_within(lo: int, hi: int, t: int)
    requires
        lo < hi,
        0 <= t < ONE,
    ensures
        lo <= lerp_spec(lo, hi, t) < hi,
{
    let span = hi - lo;
    assert(0 <= span * t < span * ONE) by (nonlinear_arith)
        requires
            span > 0,
            0 <= t < ONE,
    ;
    assert(0 <= (span * t) / (ONE as int) < span) by (nonlinear_arith)
        requires
            0 <= span * t < span * ONE,
    ;
}

/// Saturating sum.
pub fn fx_add(a: i32, b: i32) -> (r: i32)
    ensures
        r == clamp(a + b),
{
    saturate(a as i128 + b as i128)
}

/// Saturating difference.
pub fn fx_sub(a: i32, b: i32) -> (r: i32)
    ensures
        r == clamp(a - b),
{
    saturate(a as i128 - b as i128)
}

/// Saturating fixed-point product, rounded toward zero.
pub fn fx_mul(a: i32, b: i32) -> (r: i32)
    ensures
        r == clamp(mul_spec(a as int, b as int)),
{
    proof {
        lemma_mul_bound(a as int, b as int, 0x8000_0000, 0x8000_0000);
    }
    let wide: i128 = a as i128 * b as i128;
    saturate(wide / (ONE as i128))
}

} // verus!
