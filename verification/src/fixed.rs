//! Fixed-point arithmetic on raw `i64` values.
//!
//! A raw value `x` stands for the real number `x / UNIT`. `UNIT` is ten
//! million: a multiple of 128, so the 256 gray levels of an 8-bit image map
//! to raw values without rounding, and a power of ten, so decimal parameters
//! such as `0.1` or `0.3` are exact. Quotients are truncated toward zero.

use vstd::prelude::*;

verus! {

/// The raw value of the real number one.
pub const UNIT: i64 = 10_000_000;

/// Largest magnitude accepted for weights, increments and smoothed values:
/// the raw value of one hundred thousand. The product of two such values,
/// divided by `UNIT`, still fits an `i64` with room for a difference.
pub const MAX_MAGNITUDE: i64 = 1_000_000_000_000;

/// The raw step between two neighbouring 8-bit gray levels, `UNIT / 128`.
pub const LEVEL_STEP: i64 = 78_125;

/// `n / d` rounded toward zero, for a positive divisor.
pub open spec fn quotient_toward_zero(n: int, d: int) -> int {
    if n >= 0 {
        n / d
    } else {
        -((-n) / d)
    }
}

/// Whether `x` lies within `limit` of zero.
pub open spec fn within(x: int, limit: int) -> bool {
    -limit <= x <= limit
}

/// The raw value of the product of two raw values.
pub open spec fn product(a: int, b: int) -> int {
    quotient_toward_zero(a * b, UNIT as int)
}

/// The distance between two values, `|a - b|`.
pub open spec fn distance(a: int, b: int) -> int {
    if a >= b {
        a - b
    } else {
        b - a
    }
}

/// Half of a raw value.
pub open spec fn half(x: int) -> int {
    quotient_toward_zero(x, 2)
}

/// The raw value of gray level `level`: `level / 128 - 1`.
pub open spec fn level_value(level: int) -> int {
    level * LEVEL_STEP - UNIT
}

/// The gray level that shows a raw value: `(x + 1) * 128`, cut off at 0 and 255.
pub open spec fn gray_level(x: int) -> int {
    if x <= -UNIT {
        0
    } else if (x + UNIT) * 128 / (UNIT as int) > 255 {
        255
    } else {
        (x + UNIT) * 128 / (UNIT as int)
    }
}

/// A value of the range `lo ..= hi` mapped affinely onto `-UNIT ..= UNIT`:
/// `(x - lo) / (hi - lo) * 2 - 1`. A range of a single point has no contrast
/// to stretch; its value goes to the midpoint, zero.
pub open spec fn stretched(x: int, lo: int, hi: int) -> int {
    if lo == hi {
        0
    } else {
        (x - lo) * (2 * UNIT) / (hi - lo) - UNIT
    }
}

/// The product of a pair of bounded values stays within the square of the bound.
pub proof fn lemma_product_bound(a: int, b: int, limit: int)
    requires
        within(a, limit),
        within(b, limit),
    ensures
        within(a * b, limit * limit),
{
    assert(-(limit * limit) <= a * b <= limit * limit) by (nonlinear_arith)
        requires
            -limit <= a <= limit,
            -limit <= b <= limit,
    ;
}

/// A stretched value of the range lies between minus one and one.
pub proof fn lemma_stretched_in_range(x: int, lo: int, hi: int)
    requires
        lo <= x <= hi,
    ensures
        within(stretched(x, lo, hi), UNIT as int),
        lo < hi ==> stretched(lo, lo, hi) == -UNIT,
        lo < hi ==> stretched(hi, lo, hi) == UNIT,
{
    if lo < hi {
        let span = hi - lo;
        let double = 2 * UNIT as int;
        assert(0 <= (x - lo) * double / span <= double) by (nonlinear_arith)
            requires
                0 <= x - lo <= span,
                span > 0,
                double >= 0,
        ;
        assert((lo - lo) * double / span == 0) by (nonlinear_arith)
            requires
                span > 0,
        ;
        assert((hi - lo) * double / span == double) by (nonlinear_arith)
            requires
                span > 0,
                hi - lo == span,
        ;
    }
}

/// Multiplies two raw values.
pub fn multiply(a: i64, b: i64) -> (p: i64)
    requires
        within(a as int, MAX_MAGNITUDE as int),
        within(b as int, MAX_MAGNITUDE as int),
    ensures
        p == product(a as int, b as int),
        within(p as int, MAX_MAGNITUDE * (MAX_MAGNITUDE / UNIT)),
{
    proof {
        lemma_product_bound(a as int, b as int, MAX_MAGNITUDE as int);
    }
    let wide: i128 = (a as i128) * (b as i128);
    let q: i128 = wide / (UNIT as i128);
    q as i64
}

/// The distance between two raw values.
pub fn separation(a: i64, b: i64) -> (d: i64)
    requires
        distance(a as int, b as int) <= i64::MAX,
    ensures
        d == distance(a as int, b as int),
        d >= 0,
{
    if a >= b {
        ((a as i128) - (b as i128)) as i64
    } else {
        ((b as i128) - (a as i128)) as i64
    }
}

/// Halves a raw value.
pub fn halve(x: i64) -> (h: i64)
    ensures
        h == half(x as int),
{
    x / 2
}

/// The raw value of an 8-bit gray level.
pub fn level_to_fixed(level: u8) -> (x: i64)
    ensures
        x == level_value(level as int),
        -UNIT <= x < UNIT,
{
    (level as i64) * LEVEL_STEP - UNIT
}

/// The 8-bit gray level that shows a raw value.
pub fn fixed_to_level(x: i64) -> (level: u8)
    ensures
        level == gray_level(x as int),
{
    if x <= -UNIT {
        0
    } else {
        let scaled: i128 = ((x as i128) + (UNIT as i128)) * 128 / (UNIT as i128);
        if scaled > 255 {
            255
        } else {
            scaled as u8
        }
    }
}

/// Maps a value of the range `lo ..= hi` onto `-UNIT ..= UNIT`.
pub fn stretch(x: i64, lo: i64, hi: i64) -> (y: i64)
    requires
        lo <= x <= hi,
    ensures
        y == stretched(x as int, lo as int, hi as int),
        -UNIT <= y <= UNIT,
{
    proof {
        lemma_stretched_in_range(x as int, lo as int, hi as int);
    }
    if lo == hi {
        0
    } else {
        let rise: i128 = (x as i128) - (lo as i128);
        let span: i128 = (hi as i128) - (lo as i128);
        assert(0 <= rise * (2 * UNIT) <= span * (2 * UNIT)) by (nonlinear_arith)
            requires
                0 <= rise <= span,
        ;
        let q: i128 = rise * (2 * UNIT as i128) / span;
        (q - (UNIT as i128)) as i64
    }
}

} // verus!
