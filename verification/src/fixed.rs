//! Signed fixed-point quantities.
//!
//! Every weight, rate, payoff and score of the simulation is an `i64` that
//! holds the quantity multiplied by [`SCALE`]. Products and quotients are
//! rounded toward zero, but for the share that is kept of a fading quantity,
//! which is rounded away from zero; a result that leaves the range of `i64`
//! is pinned to the nearest end of that range.

use vstd::prelude::*;

verus! {

/// The representation of 1.0. A quantity `q` is stored as `q * SCALE`.
pub const SCALE: i64 = 1_000_000_000;

/// The quotient of `a` by `b`, rounded toward zero.
pub open spec fn trunc_div(a: int, b: int) -> int
    recommends
        b != 0,
{
    if b > 0 {
        if a >= 0 {
            a / b
        } else {
            -((-a) / b)
        }
    } else {
        if a >= 0 {
            -(a / (-b))
        } else {
            (-a) / (-b)
        }
    }
}

/// `x` pinned into the range of `i64`.
pub open spec fn saturate(x: int) -> int {
    if x < i64::MIN {
        i64::MIN as int
    } else if x > i64::MAX {
        i64::MAX as int
    } else {
        x
    }
}

/// The sum of two quantities.
pub open spec fn spec_plus(a: int, b: int) -> int {
    saturate(a + b)
}

/// The product of two quantities: `a * b / SCALE`.
pub open spec fn spec_times(a: int, b: int) -> int {
    saturate(trunc_div(a * b, SCALE as int))
}

/// The quotient of a quantity by a total: `a * SCALE / total`.
pub open spec fn spec_ratio(a: int, total: int) -> int
    recommends
        total != 0,
{
    saturate(trunc_div(a * SCALE, total))
}

/// The quotient of `a` by a positive `b`, rounded away from zero.
pub open spec fn away_div(a: int, b: int) -> int
    recommends
        b > 0,
{
    if a >= 0 {
        (a + b - 1) / b
    } else {
        -((-a + b - 1) / b)
    }
}

/// What stays of the quantity `a` when the share `keep` of it is kept:
/// `a * keep / SCALE`, rounded away from zero, so that a quantity that fades
/// comes ever closer to zero without being lost.
pub open spec fn spec_fade(a: int, keep: int) -> int {
    saturate(away_div(a * keep, SCALE as int))
}

/// What is left of 1.0 once `rate` is taken away.
pub open spec fn spec_complement(rate: int) -> int {
    saturate(SCALE - rate)
}

/// `x`, or zero where `x` is negative.
pub open spec fn spec_floor_zero(x: int) -> int {
    if x < 0 {
        0
    } else {
        x
    }
}

/// Pins a wide intermediate value into the range of `i64`.
pub fn saturating(x: i128) -> (r: i64)
    ensures
        r == saturate(x as int),
{
    if x < i64::MIN as i128 {
        i64::MIN
    } else if x > i64::MAX as i128 {
        i64::MAX
    } else {
        x as i64
    }
}

/// Adds two quantities.
pub fn plus(a: i64, b: i64) -> (r: i64)
    ensures
        r == spec_plus(a as int, b as int),
{
    saturating(a as i128 + b as i128)
}

/// Multiplies two quantities.
pub fn times(a: i64, b: i64) -> (r: i64)
    ensures
        r == spec_times(a as int, b as int),
{
    proof {
        lemma_product_bound(a as int, b as int);
    }
    let wide: i128 = a as i128 * b as i128;
    saturating(wide / SCALE as i128)
}

/// Keeps the share `keep` of the quantity `a`.
pub fn fade(a: i64, keep: i64) -> (r: i64)
    ensures
        r == spec_fade(a as int, keep as int),
{
    proof {
        lemma_product_bound(a as int, keep as int);
    }
    let wide: i128 = a as i128 * keep as i128;
    let scale: i128 = SCALE as i128;
    if wide >= 0 {
        saturating((wide + (scale - 1)) / scale)
    } else {
        saturating(-((-wide + (scale - 1)) / scale))
    }
}

/// Divides one wide value by another, rounding toward zero.
pub fn quotient(a: i128, b: i128) -> (q: i128)
    requires
        b != 0,
        i128::MIN < a,
        i128::MIN < b,
    ensures
        q == trunc_div(a as int, b as int),
{
    if b > 0 {
        a / b
    } else {
        (-a) / (-b)
    }
}

/// Divides a quantity by a total that is not zero.
pub fn ratio(a: i64, total: i128) -> (r: i64)
    requires
        total != 0,
    ensures
        r == spec_ratio(a as int, total as int),
{
    proof {
        lemma_product_bound(a as int, SCALE as int);
    }
    let wide: i128 = a as i128 * SCALE as i128;
    if total > 0 {
        saturating(wide / total)
    } else if total == i128::MIN {
        proof {
            lemma_small_over_large(wide as int, total as int);
        }
        0
    } else {
        saturating((-wide) / (-total))
    }
}

/// Computes `1.0 - rate`.
pub fn complement(rate: i64) -> (r: i64)
    ensures
        r == spec_complement(rate as int),
{
    saturating(SCALE as i128 - rate as i128)
}

/// Replaces a negative quantity by zero.
pub fn floor_zero(x: i64) -> (r: i64)
    ensures
        r == spec_floor_zero(x as int),
{
    if x < 0 {
        0
    } else {
        x
    }
}

/// The product of two `i64` values fits in an `i128`.
pub proof fn lemma_product_bound(a: int, b: int)
    requires
        i64::MIN <= a <= i64::MAX,
        i64::MIN <= b <= i64::MAX,
    ensures
        -0x4000_0000_0000_0000_0000_0000_0000_0000 <= a * b
            <= 0x4000_0000_0000_0000_0000_0000_0000_0000,
{
    assert(-0x4000_0000_0000_0000_0000_0000_0000_0000 <= a * b
        <= 0x4000_0000_0000_0000_0000_0000_0000_0000) by (nonlinear_arith)
        requires
            -0x8000_0000_0000_0000 <= a <= 0x8000_0000_0000_0000,
            -0x8000_0000_0000_0000 <= b <= 0x8000_0000_0000_0000,
    ;
}

/// A numerator smaller in magnitude than its divisor gives the quotient zero.
pub proof fn lemma_small_over_large(n: int, d: int)
    requires
        d != 0,
        -d < n < d || d < n < -d,
    ensures
        trunc_div(n, d) == 0,
{
    let m = if d > 0 { d } else { -d };
    let k = if n >= 0 { n } else { -n };
    assert(k / m == 0) by (nonlinear_arith)
        requires
            0 <= k < m,
    ;
}

/// Multiplying by 1.0 changes nothing.
pub proof fn lemma_times_one(a: int)
    requires
        i64::MIN <= a <= i64::MAX,
    ensures
        spec_times(a, SCALE as int) == a,
{
    let s = SCALE as int;
    if a >= 0 {
        assert((a * s) / s == a) by (nonlinear_arith)
            requires
                s > 0,
        ;
    } else {
        assert(((-a) * s) / s == -a) by (nonlinear_arith)
            requires
                s > 0,
        ;
        assert(-(a * s) == (-a) * s) by (nonlinear_arith);
        assert(a * s < 0) by (nonlinear_arith)
            requires
                a < 0,
                s > 0,
        ;
    }
}

/// Keeping a share between nothing and all of a quantity that is not
/// negative leaves it not negative and no larger than it was; keeping any
/// share at all of a positive quantity leaves it positive.
pub proof fn lemma_fade_bounds(a: int, keep: int)
    requires
        0 <= a <= i64::MAX,
        0 <= keep <= SCALE,
    ensures
        0 <= spec_fade(a, keep) <= a,
        a > 0 && keep > 0 ==> spec_fade(a, keep) > 0,
{
    let s = SCALE as int;
    let p = a * keep;
    assert(0 <= p <= a * s) by (nonlinear_arith)
        requires
            p == a * keep,
            0 <= a,
            0 <= keep <= s,
    ;
    assert(0 <= (p + s - 1) / s <= a) by (nonlinear_arith)
        requires
            0 <= p <= a * s,
            s > 0,
    ;
    if a > 0 && keep > 0 {
        assert(p >= 1) by (nonlinear_arith)
            requires
                p == a * keep,
                a >= 1,
                keep >= 1,
        ;
        assert((p + s - 1) / s >= 1) by (nonlinear_arith)
            requires
                p >= 1,
                s > 0,
        ;
    }
}

/// Keeping all of a quantity changes nothing.
pub proof fn lemma_fade_all(a: int)
    requires
        i64::MIN <= a <= i64::MAX,
    ensures
        spec_fade(a, SCALE as int) == a,
{
    let s = SCALE as int;
    if a >= 0 {
        assert((a * s + s - 1) / s == a) by (nonlinear_arith)
            requires
                s > 0,
        ;
        assert(a * s >= 0) by (nonlinear_arith)
            requires
                a >= 0,
                s > 0,
        ;
    } else {
        assert((-(a * s) + s - 1) / s == -a) by (nonlinear_arith)
            requires
                s > 0,
        ;
        assert(a * s < 0) by (nonlinear_arith)
            requires
                a < 0,
                s > 0,
        ;
    }
}

/// A product of two quantities that are not negative is not negative.
pub proof fn lemma_times_nonnegative(a: int, b: int)
    requires
        a >= 0,
        b >= 0,
    ensures
        spec_times(a, b) >= 0,
{
    let s = SCALE as int;
    assert(a * b >= 0) by (nonlinear_arith)
        requires
            a >= 0,
            b >= 0,
    ;
    let p = a * b;
    assert(p / s >= 0) by (nonlinear_arith)
        requires
            p >= 0,
            s > 0,
    ;
}

} // verus!
