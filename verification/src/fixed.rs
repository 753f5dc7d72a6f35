//! Fixed-point fractions.
//!
//! A fraction is a signed integer that counts millionths: [`UNIT`] stands
//! for 1.0, `500_000` for 0.5, `-250_000` for -0.25. Saturation, lightness
//! and blend weights are all held this way.

use vstd::prelude::*;

verus! {

/// The fixed-point value of 1.0.
pub const UNIT: i32 = 1_000_000;

/// Absolute value.
pub open spec fn magnitude(x: int) -> int {
    if x < 0 {
        -x
    } else {
        x
    }
}

/// `n / d` rounded to the nearest integer, a tie going away from zero.
pub open spec fn round_div(n: int, d: int) -> int
    recommends
        d > 0,
{
    if n >= 0 {
        (2 * n + d) / (2 * d)
    } else {
        -((2 * (-n) + d) / (2 * d))
    }
}

/// `n / d` rounded to the nearest integer, a tie going toward zero.
pub open spec fn round_div_low(n: int, d: int) -> int
    recommends
        d > 0,
{
    if n >= 0 {
        (2 * n + d - 1) / (2 * d)
    } else {
        -((2 * (-n) + d - 1) / (2 * d))
    }
}

/// `v` limited to what a color channel can hold.
pub open spec fn clamp_channel(v: int) -> u8 {
    if v < 0 {
        0u8
    } else if v > 255 {
        255u8
    } else {
        v as u8
    }
}

/// `v` limited to what a stored fraction can hold.
pub open spec fn clamp_fraction(v: int) -> i32 {
    if v < i32::MIN {
        i32::MIN
    } else if v > i32::MAX {
        i32::MAX
    } else {
        v as i32
    }
}

/// The weighted sum `a * (1 - p) + b * p`, scaled by [`UNIT`]: the weight
/// `p` is a fraction, the result counts millionths of the unit of `a` and `b`.
pub open spec fn weighted(a: int, b: int, p: int) -> int {
    a * (UNIT - p) + b * p
}

/// A whole multiple of the divisor divides without rounding.
pub proof fn lemma_round_div_multiple(q: int, d: int)
    requires
        d > 0,
    ensures
        round_div(q * d, d) == q,
{
    if q * d >= 0 {
        assert(q >= 0) by (nonlinear_arith)
            requires
                q * d >= 0,
                d > 0,
        ;
        assert(2 * (q * d) + d == q * (2 * d) + d) by (nonlinear_arith);
        vstd::arithmetic::div_mod::lemma_fundamental_div_mod_converse(
            2 * (q * d) + d,
            2 * d,
            q,
            d,
        );
    } else {
        assert(2 * (-(q * d)) + d == (-q) * (2 * d) + d) by (nonlinear_arith);
        vstd::arithmetic::div_mod::lemma_fundamental_div_mod_converse(
            2 * (-(q * d)) + d,
            2 * d,
            -q,
            d,
        );
    }
}

/// A weighted sum is all of its first term at weight 0 and all of its second
/// at weight 1.
pub proof fn lemma_weighted_ends(a: int, b: int)
    ensures
        weighted(a, b, 0) == a * 1_000_000,
        weighted(a, b, UNIT as int) == b * 1_000_000,
{
    assert(UNIT == 1_000_000);
    assert(a * (1_000_000 - 0) + b * 0 == a * 1_000_000) by (nonlinear_arith);
    assert(a * (1_000_000 - 1_000_000) + b * 1_000_000 == b * 1_000_000) by (nonlinear_arith);
}

/// Computes [`weighted`]; the result always fits.
pub fn weighted_sum(a: i32, b: i32, p: i32) -> (n: i128)
    ensures
        n == weighted(a as int, b as int, p as int),
        -0x1_0000_0000_0000_0000 <= n <= 0x1_0000_0000_0000_0000,
{
    let rest: i128 = UNIT as i128 - p as i128;
    assert(-0x4008_0000_0000_0000 <= a * rest <= 0x4008_0000_0000_0000) by (nonlinear_arith)
        requires
            -0x8000_0000 <= a <= 0x8000_0000,
            -0x8010_0000 <= rest <= 0x8010_0000,
    ;
    assert(-0x4000_0000_0000_0000 <= b * p <= 0x4000_0000_0000_0000) by (nonlinear_arith)
        requires
            -0x8000_0000 <= b <= 0x8000_0000,
            -0x8000_0000 <= p <= 0x8000_0000,
    ;
    (a as i128) * rest + (b as i128) * (p as i128)
}

/// Computes [`round_div`] for a positive divisor.
pub(crate) fn round_quotient(n: i128, d: i128) -> (q: i128)
    requires
        0 < d <= 0x1_0000_0000_0000_0000,
        -0x1_0000_0000_0000_0000_0000 <= n <= 0x1_0000_0000_0000_0000_0000,
    ensures
        q == round_div(n as int, d as int),
{
    if n >= 0 {
        (2 * n + d) / (2 * d)
    } else {
        let up: i128 = (2 * (-n) + d) / (2 * d);
        -up
    }
}

/// Computes [`clamp_fraction`].
pub fn saturate_fraction(v: i128) -> (f: i32)
    ensures
        f == clamp_fraction(v as int),
{
    if v < i32::MIN as i128 {
        i32::MIN
    } else if v > i32::MAX as i128 {
        i32::MAX
    } else {
        v as i32
    }
}

/// Two channels blended with weight `p` on the second: the weighted sum,
/// rounded down and clamped to `[0, 255]`.
pub open spec fn blend_channel(a: u8, b: u8, p: i32) -> u8 {
    clamp_channel(weighted(a as int, b as int, p as int) / (UNIT as int))
}

/// Two hues blended with weight `p` on the second: the weighted sum, rounded
/// down and taken modulo 360 into `[0, 360)`. A sum below zero, which only a
/// weight outside `[0, 1]` can give, comes back onto the circle from the
/// other side: -100 counts as 260.
pub open spec fn blend_hue(a: u16, b: u16, p: i32) -> u16 {
    (weighted(a as int, b as int, p as int) / (UNIT as int) % 360) as u16
}

/// Two fractions blended with weight `p` on the second: the weighted sum,
/// rounded to the nearest millionth. The result is not limited to `[0, 1]`,
/// only to what a stored fraction can hold.
pub open spec fn blend_fraction(a: i32, b: i32, p: i32) -> i32 {
    clamp_fraction(round_div(weighted(a as int, b as int, p as int), UNIT as int))
}

/// A hue moved on by `angle` degrees, back on the circle.
pub open spec fn turn(h: u16, angle: u16) -> u16 {
    ((h + angle) % 360) as u16
}

/// Computes [`blend_channel`].
pub fn mix_channel(a: u8, b: u8, p: i32) -> (c: u8)
    ensures
        c == blend_channel(a, b, p),
{
    let n = weighted_sum(a as i32, b as i32, p);
    if n <= 0 {
        0
    } else {
        let q: i128 = n / (UNIT as i128);
        if q > 255 {
            255
        } else {
            q as u8
        }
    }
}

/// Computes [`blend_hue`].
pub fn mix_hue(a: u16, b: u16, p: i32) -> (h: u16)
    ensures
        h == blend_hue(a, b, p),
        h < 360,
{
    let n = weighted_sum(a as i32, b as i32, p);
    let unit: i128 = UNIT as i128;
    if n >= 0 {
        (n / unit % 360) as u16
    } else {
        // the sum rounded down is `-back`, with `back` at least 1
        let back: i128 = (-n + (unit - 1)) / unit;
        let rest: i128 = back % 360;
        assert(n as int / 1_000_000 == -back);
        if rest == 0 {
            0
        } else {
            (360 - rest) as u16
        }
    }
}

/// Computes [`blend_fraction`].
pub fn mix_fraction(a: i32, b: i32, p: i32) -> (f: i32)
    ensures
        f == blend_fraction(a, b, p),
{
    saturate_fraction(round_quotient(weighted_sum(a, b, p), UNIT as i128))
}

/// Computes [`turn`].
pub fn rotate(h: u16, angle: u16) -> (t: u16)
    ensures
        t == turn(h, angle),
        t < 360,
{
    ((h as u32 + angle as u32) % 360) as u16
}

} // verus!
