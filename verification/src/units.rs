//! Reals as whole millionths.
//!
//! A display measures in reals: fractions of a pixel, of a second, of full opacity. Here
//! they are whole millionths in a wide integer, so that sums and comparisons are exact and
//! only a product or a quotient rounds.

use vstd::prelude::*;

verus! {

/// A real, in millionths.
pub type Micros = i128;

/// One, in millionths.
pub const MICRO: i128 = 1_000_000;

/// The largest magnitude that the layout arithmetic takes: over a million million pixels.
pub const WIDEST: i128 = 1_152_921_504_606_846_976;

/// Whether `x` is small enough to multiply by another such value.
pub open spec fn fits(x: int) -> bool {
    -WIDEST <= x <= WIDEST
}

/// A number as a platform reports it, before anything has vouched for it.
#[derive(Clone, Copy, PartialEq, Eq, Debug, Structural)]
pub enum Reading {
    /// Not a number: it carries no direction either.
    NotANumber,
    /// Past every number, upward.
    Infinite,
    /// Past every number, downward.
    NegativeInfinite,
    /// A finite value.
    Finite(Micros),
}

/// The larger of two values.
pub open spec fn max_of(a: int, b: int) -> int {
    if a >= b {
        a
    } else {
        b
    }
}

/// The smaller of two values.
pub open spec fn min_of(a: int, b: int) -> int {
    if a <= b {
        a
    } else {
        b
    }
}

/// `x` held between `low` and `high`.
pub open spec fn clamped(x: int, low: int, high: int) -> int {
    if x < low {
        low
    } else if x > high {
        high
    } else {
        x
    }
}

/// The larger of two values.
pub fn larger(a: Micros, b: Micros) -> (result: Micros)
    ensures
        result == max_of(a as int, b as int),
{
    if a >= b {
        a
    } else {
        b
    }
}

/// The smaller of two values.
pub fn smaller(a: Micros, b: Micros) -> (result: Micros)
    ensures
        result == min_of(a as int, b as int),
{
    if a <= b {
        a
    } else {
        b
    }
}

/// `x` held between `low` and `high`.
pub fn hold_between(x: Micros, low: Micros, high: Micros) -> (result: Micros)
    ensures
        result == clamped(x as int, low as int, high as int),
{
    if x < low {
        low
    } else if x > high {
        high
    } else {
        x
    }
}

/// `a` times `b`, both in millionths, rounded down to a millionth.
pub open spec fn times(a: int, b: int) -> int {
    a * b / 1_000_000
}

/// `a / b` rounded down.
pub fn floor_div(a: i128, b: i128) -> (result: i128)
    requires
        b > 0,
        a > i128::MIN,
        b <= 0x4000_0000_0000_0000_0000_0000_0000_0000,
        a >= -0x4000_0000_0000_0000_0000_0000_0000_0000,
    ensures
        result == a as int / b as int,
{
    if a >= 0 {
        a / b
    } else {
        let up: i128 = (-a + (b - 1)) / b;
        proof {
            let n = -a as int;
            let d = b as int;
            let q = (n + (d - 1)) / d;
            assert(a as int / d == -q) by (nonlinear_arith)
                requires
                    n == -a,
                    d > 0,
                    n > 0,
                    q == (n + (d - 1)) / d,
            ;
        }
        -up
    }
}

/// `a` times `b`, both in millionths, rounded down to a millionth.
pub fn product(a: Micros, b: Micros) -> (result: Micros)
    requires
        fits(a as int),
        fits(b as int),
    ensures
        result == times(a as int, b as int),
{
    assert(-WIDEST * WIDEST <= a * b <= WIDEST * WIDEST) by (nonlinear_arith)
        requires
            -WIDEST <= a <= WIDEST,
            -WIDEST <= b <= WIDEST,
    ;
    assert(WIDEST * WIDEST < 0x4000_0000_0000_0000_0000_0000_0000_0000) by (nonlinear_arith);
    floor_div(a * b, MICRO)
}

/// Whole units nearest to `x` millionths, a half rounding up.
pub open spec fn rounded(x: int) -> int {
    (x + 500_000) / 1_000_000
}

/// Scaling by at most `k` whole times grows a length at most `k` times.
pub proof fn times_is_bounded(a: int, b: int, k: int)
    requires
        0 <= b <= k * 1_000_000,
        k >= 0,
    ensures
        a >= 0 ==> 0 <= times(a, b) <= a * k,
        a <= 0 ==> a * k <= times(a, b) <= 0,
{
    if a >= 0 {
        assert(0 <= a * b <= (a * k) * 1_000_000) by (nonlinear_arith)
            requires
                0 <= b <= k * 1_000_000,
                a >= 0,
        ;
    }
    if a <= 0 {
        assert((a * k) * 1_000_000 <= a * b <= 0) by (nonlinear_arith)
            requires
                0 <= b <= k * 1_000_000,
                a <= 0,
        ;
    }
}

/// Scaling by one changes nothing.
pub proof fn times_one(a: int)
    ensures
        times(a, 1_000_000) == a,
{
}

/// Whether `root` is the square root of `square`, rounded down.
pub open spec fn is_root(square: int, root: int) -> bool {
    0 <= root && root * root <= square < (root + 1) * (root + 1)
}

/// A number has one square root.
pub proof fn roots_are_unique(square: int, a: int, b: int)
    requires
        is_root(square, a),
        is_root(square, b),
    ensures
        a == b,
{
    if a < b {
        assert((a + 1) * (a + 1) <= b * b) by (nonlinear_arith)
            requires
                0 <= a,
                a + 1 <= b,
        ;
    }
    if b < a {
        assert((b + 1) * (b + 1) <= a * a) by (nonlinear_arith)
            requires
                0 <= b,
                b + 1 <= a,
        ;
    }
}

/// The square root of `square`, rounded down.
pub fn square_root(square: i128) -> (result: i128)
    requires
        0 <= square <= 2_000_000_000_000_000_000_000_000,
    ensures
        is_root(square as int, result as int),
        result <= 2_000_000_000_000,
        square <= 1_000_000_000_000 ==> result <= 1_000_000,
{
    let mut low: i128 = 0;
    let mut high: i128 = 2_000_000_000_000;
    assert(2_000_000_000_000 * 2_000_000_000_000 == 4_000_000_000_000_000_000_000_000int)
        by (nonlinear_arith);
    while low + 1 < high
        invariant
            0 <= low < high <= 2_000_000_000_000,
            low * low <= square,
            square < high * high,
        decreases high - low,
    {
        let middle: i128 = low + (high - low) / 2;
        assert(0 <= middle * middle <= 4_000_000_000_000_000_000_000_000) by (nonlinear_arith)
            requires
                0 <= middle <= 2_000_000_000_000,
        ;
        if middle * middle <= square {
            low = middle;
        } else {
            high = middle;
        }
    }
    proof {
        if square <= 1_000_000_000_000 {
            assert(low <= 1_000_000) by (nonlinear_arith)
                requires
                    low * low <= 1_000_000_000_000,
                    low >= 0,
            ;
        }
    }
    low
}

/// What is held between two ends is between them, and moves no further than it has to.
pub proof fn what_is_held_moves_least(x: int, low: int, high: int, other: int)
    requires
        low <= other <= high,
    ensures
        low <= clamped(x, low, high) <= high,
        x <= other ==> x <= clamped(x, low, high) <= other,
        other <= x ==> other <= clamped(x, low, high) <= x,
{
}

/// The larger of two is one of them and not below either; the smaller is the other one.
pub proof fn the_larger_and_the_smaller_are_the_two(a: int, b: int)
    ensures
        max_of(a, b) >= a,
        max_of(a, b) >= b,
        max_of(a, b) == a || max_of(a, b) == b,
        max_of(a, b) + min_of(a, b) == a + b,
{
}

/// A product in millionths is the product, less than one millionth below it.
pub proof fn products_are_rounded_down(a: int, b: int)
    ensures
        a * b - 1_000_000 < times(a, b) * 1_000_000 <= a * b,
{
}

/// A whole number of units is the nearest one.
pub proof fn whole_units_are_the_nearest(x: int)
    ensures
        x - 500_000 <= rounded(x) * 1_000_000 <= x + 500_000,
        rounded(x) * 1_000_000 > x - 500_000,
{
}

} // verus!
