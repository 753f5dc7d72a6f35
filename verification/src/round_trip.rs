//! How close an RGB triplet comes back from HSL.
//!
//! Saturation and lightness are rounded to the nearest millionth and the hue
//! to a whole degree. The first two roundings are too fine to move a
//! channel; the third can move one channel, the one that is neither the
//! largest nor the smallest.

use vstd::prelude::*;
use crate::fixed::{UNIT, magnitude, round_div, round_div_low};
use crate::space::{
    SCALE, area, chroma, falling, highest, hsl_of_rgb, hue, hue_remainder, lemma_fraction_bounds,
    lemma_hue_bounds, lifted, lightness, lowest, nudge, offset, ramp, rgb_of_hsl, saturation,
    second, secondary_channel, span, spread, tie_down, to_channel, to_channel_low,
};

verus! {

/// The lightness is within half a millionth of `(max + min) / 510`.
proof fn lemma_lightness_error(r: u8, g: u8, b: u8)
    ensures
        -255 <= 510 * lightness(r, g, b) - (highest(r, g, b) + lowest(r, g, b)) * 1_000_000
            <= 255,
{
    let sum = highest(r, g, b) + lowest(r, g, b);
    assert(UNIT == 1_000_000);
    assert(sum * UNIT == sum * 1_000_000);
    assert(lightness(r, g, b) == (2 * (sum * 1_000_000) + 510) / 1020);
}

/// The saturation is within half a millionth of `delta / d`, where `d` is
/// `255 - |max + min - 255|`.
proof fn lemma_saturation_error(r: u8, g: u8, b: u8)
    requires
        spread(r, g, b) > 0,
    ensures
        ({
            let d = 255 - magnitude(highest(r, g, b) + lowest(r, g, b) - 255);
            let ds = d * saturation(r, g, b);
            &&& spread(r, g, b) <= d <= 255
            &&& -d <= 2 * ds - 2_000_000 * spread(r, g, b) <= d
        }),
{
    let d = 255 - magnitude(highest(r, g, b) + lowest(r, g, b) - 255);
    let n = spread(r, g, b) * 1_000_000;
    let s = saturation(r, g, b);
    assert(s == (2 * n + d) / (2 * d));
    assert(2 * (d * s) <= 2 * n + d && 2 * n + d < 2 * (d * s) + 2 * d) by (nonlinear_arith)
        requires
            d > 0,
            s == (2 * n + d) / (2 * d),
    ;
}

/// The chroma that comes back is within a hair of `delta / 255`: in units of
/// `1 / (UNIT * UNIT)`, 255 times the area differs from `delta` by less than
/// 383 millionths.
proof fn lemma_area_error(r: u8, g: u8, b: u8)
    ensures
        ({
            let p = area(saturation(r, g, b), lightness(r, g, b));
            -383_000_000 <= 255 * p - 1_000_000_000_000 * spread(r, g, b) <= 383_000_000
        }),
{
    let s = saturation(r, g, b);
    let l = lightness(r, g, b);
    let sp = span(l);
    let delta = spread(r, g, b);
    if delta == 0 {
        assert(sp * s == 0) by (nonlinear_arith)
            requires
                s == 0,
        ;
    } else {
        let d = 255 - magnitude(highest(r, g, b) + lowest(r, g, b) - 255);
        lemma_lightness_error(r, g, b);
        lemma_saturation_error(r, g, b);
        lemma_fraction_bounds(r, g, b);
        let e = d * 1_000_000 - 255 * sp;
        assert(-255 <= e <= 255);
        assert(255 * (sp * s) == 1_000_000 * (d * s) - e * s) by (nonlinear_arith)
            requires
                e == d * 1_000_000 - 255 * sp,
        ;
        assert(-255_000_000 <= e * s <= 255_000_000) by (nonlinear_arith)
            requires
                -255 <= e <= 255,
                0 <= s <= 1_000_000,
        ;
    }
}

/// The nearest integer is at most half a unit away.
proof fn lemma_round_near(n: int)
    ensures
        ({
            let q = round_div(n, SCALE as int);
            120_000_000_000_000 * q - 60_000_000_000_000 <= 2 * n <= 120_000_000_000_000 * q
                + 60_000_000_000_000
        }),
{
    assert(SCALE == 60_000_000_000_000);
    let q = round_div(n, 60_000_000_000_000);
    assert(round_div(n, SCALE as int) == q);
    if n >= 0 {
        assert(q == (2 * n + 60_000_000_000_000) / 120_000_000_000_000);
    } else {
        assert(q == -((2 * (-n) + 60_000_000_000_000) / 120_000_000_000_000));
    }
}

/// The largest and the smallest channel come back exactly.
pub proof fn lemma_extremes_return(r: u8, g: u8, b: u8)
    ensures
        ({
            let s = saturation(r, g, b);
            let l = lightness(r, g, b);
            &&& to_channel(chroma(s, l) + offset(s, l)) == highest(r, g, b)
            &&& to_channel(offset(s, l)) == lowest(r, g, b)
        }),
{
    let s = saturation(r, g, b);
    let l = lightness(r, g, b);
    lemma_lightness_error(r, g, b);
    lemma_area_error(r, g, b);
    lemma_round_near(255 * (chroma(s, l) + offset(s, l)));
    lemma_round_near(255 * offset(s, l));
}

/// The integer nearest to `(y + e) / 60`, for an `e` too small to matter
/// anywhere but half way between two integers: there a negative `lean`
/// stands for an `e` below zero and a positive one for an `e` above, and
/// where it is zero the value goes down if `down` and up if not.
pub open spec fn nearest_step(y: int, lean: int, down: bool) -> int {
    if (y + 30) % 60 == 0 && (lean < 0 || (down && lean == 0)) {
        (y + 30) / 60 - 1
    } else {
        (y + 30) / 60
    }
}

/// A value that is off `y / 60` by less than a hair becomes the channel
/// nearest to `y / 60`.
proof fn lemma_rounds_to_step(v: int, y: int)
    requires
        0 <= y <= 15_300,
        -1_000_000_000_000 < 510 * v - 2_000_000_000_000 * y < 1_000_000_000_000,
    ensures
        to_channel(v) == nearest_step(y, 510 * v - 2_000_000_000_000 * y, false),
        to_channel_low(v) == nearest_step(y, 510 * v - 2_000_000_000_000 * y, true),
{
    let n = 255 * v;
    let lean = 510 * v - 2_000_000_000_000 * y;
    assert(SCALE == 60_000_000_000_000);
    let up = round_div(n, 60_000_000_000_000);
    let low = round_div_low(n, 60_000_000_000_000);
    assert(round_div(n, SCALE as int) == up);
    assert(round_div_low(n, SCALE as int) == low);
    if n >= 0 {
        assert(up == (2 * n + 60_000_000_000_000) / 120_000_000_000_000);
        assert(low == (2 * n + 59_999_999_999_999) / 120_000_000_000_000);
    } else {
        assert(y == 0);
        assert(up == -((2 * (-n) + 60_000_000_000_000) / 120_000_000_000_000));
        assert(low == -((2 * (-n) + 59_999_999_999_999) / 120_000_000_000_000));
    }
}

/// How far the value of the middle channel, before it is rounded, lies from
/// the point `t` sixtieths of the way from the smallest channel to the
/// largest: less than a hair, in units of `1 / (120 * UNIT * UNIT)`.
pub proof fn lemma_middle_is_near(r: u8, g: u8, b: u8, t: int)
    requires
        0 <= t <= 60,
    ensures
        ({
            let s = saturation(r, g, b);
            let l = lightness(r, g, b);
            let v = area(s, l) * t + offset(s, l);
            let y = 60 * lowest(r, g, b) + spread(r, g, b) * t;
            &&& 0 <= y <= 15_300
            &&& -84_240_000_000 <= 510 * v - 2_000_000_000_000 * y <= 84_240_000_000
        }),
{
    let s = saturation(r, g, b);
    let l = lightness(r, g, b);
    let p = area(s, l);
    let delta = spread(r, g, b);
    lemma_lightness_error(r, g, b);
    lemma_area_error(r, g, b);
    let e = 255 * p - 1_000_000_000_000 * delta;
    assert(510 * (p * t) == 2_000_000_000_000 * (delta * t) + 2 * (t * e)) by (nonlinear_arith)
        requires
            e == 255 * p - 1_000_000_000_000 * delta,
    ;
    assert(-22_980_000_000 <= t * e <= 22_980_000_000) by (nonlinear_arith)
        requires
            0 <= t <= 60,
            -383_000_000 <= e <= 383_000_000,
    ;
    assert(0 <= delta * t <= 60 * delta) by (nonlinear_arith)
        requires
            0 <= t <= 60,
            0 <= delta,
    ;
}

/// A color that is not gray has a chroma: the secondary component is 0
/// only where the ramp is.
proof fn lemma_second_is_positive(r: u8, g: u8, b: u8, t: int)
    requires
        spread(r, g, b) > 0,
        0 < t,
    ensures
        area(saturation(r, g, b), lightness(r, g, b)) * t > 0,
{
    let p = area(saturation(r, g, b), lightness(r, g, b));
    lemma_area_error(r, g, b);
    assert(p * t > 0) by (nonlinear_arith)
        requires
            p > 0,
            t > 0,
    ;
}

/// By how much the value of the middle channel, before it is rounded,
/// exceeds the point that the rounded hue names, in units of
/// `1 / (120 * UNIT * UNIT)`. It comes from the rounding of saturation and
/// lightness and is always less than a hair; it matters only where that
/// point lies half way between two integers.
pub open spec fn lean(r: u8, g: u8, b: u8) -> int {
    let s = saturation(r, g, b);
    let l = lightness(r, g, b);
    let h = hue(r, g, b);
    510 * (second(h, s, l) + offset(s, l)) - 2_000_000_000_000 * (60 * lowest(r, g, b) + spread(
        r,
        g,
        b,
    ) * ramp(h))
}

/// Whether a middle channel at a half step is rounded back toward where it
/// was. The hue, rounded down, puts the channel below where it was on a
/// climbing ramp and above it on a falling one; so the channel has to be
/// rounded up on the first and down on the second. The `lean` decides
/// that, and where there is none, whether half steps go down.
pub open spec fn rounds_back(fall: bool, lean: int, down: bool) -> bool {
    if fall {
        lean < 0 || (lean == 0 && down)
    } else {
        lean > 0 || (lean == 0 && !down)
    }
}

/// Whether, at a half step, the middle channel of `(r, g, b)` is rounded
/// back toward where it was: see [`rounds_back`], [`lean`] and
/// [`tie_down`].
pub open spec fn leans_back(r: u8, g: u8, b: u8) -> bool {
    rounds_back(falling(hue(r, g, b)), lean(r, g, b), tie_down(hue(r, g, b)))
}

/// Sixtieths stay whole however often they are doubled.
proof fn lemma_lifted_multiple(n: int)
    requires
        n >= 0,
        n % 60 == 0,
    ensures
        lifted(n) % 60 == 0,
    decreases vstd::math::clip(503_316_480 - n),
{
    if 0 < n < 503_316_480 {
        lemma_lifted_multiple(2 * n);
    }
}

/// Whether every channel of `(r2, g2, b2)` is within one step of that of
/// `(r, g, b)`.
pub open spec fn within_one(r: u8, g: u8, b: u8, r2: u8, g2: u8, b2: u8) -> bool {
    &&& r - 1 <= r2 <= r + 1
    &&& g - 1 <= g2 <= g + 1
    &&& b - 1 <= b2 <= b + 1
}

/// When a color comes back within one step in every channel: where the hue
/// left out less than a step and a half, and, where it left out exactly
/// that, where the middle channel leans back.
pub open spec fn returns_within_one(r: u8, g: u8, b: u8) -> bool {
    hue_remainder(r, g, b) <= 89 || (hue_remainder(r, g, b) == 90 && leans_back(r, g, b))
}

/// The three channels that come back from the HSL form of `(r, g, b)`.
pub open spec fn returned(r: u8, g: u8, b: u8) -> (u8, u8, u8) {
    let (h, s, l) = hsl_of_rgb(r, g, b);
    rgb_of_hsl(h, s, l)
}

/// How far the middle channel can come back from where it was. Rounding
/// the hue down leaves out [`hue_remainder`] parts of a degree, each worth a
/// sixtieth of a channel step, and rounding the channel adds half a step.
pub open spec fn slack(r: u8, g: u8, b: u8) -> int {
    (hue_remainder(r, g, b) + 30) / 60
}

/// Whether a channel `x` of `(r, g, b)` is the largest or the smallest.
pub open spec fn extreme(x: u8, r: u8, g: u8, b: u8) -> bool {
    x == highest(r, g, b) || x == lowest(r, g, b)
}

/// The channels that `rgb_of_hsl` gives, by the sextant of the hue: `top`
/// is made from the chroma, `mid` from the secondary component, `low` from
/// the offset alone.
pub open spec fn placed(h: int, top: u8, mid: u8, low: u8) -> (u8, u8, u8) {
    if h < 60 {
        (top, mid, low)
    } else if h < 120 {
        (mid, top, low)
    } else if h < 180 {
        (low, top, mid)
    } else if h < 240 {
        (low, mid, top)
    } else if h < 300 {
        (mid, low, top)
    } else {
        (top, low, mid)
    }
}

/// The distance between two triplets: the sum of the distances of their
/// channels.
pub open spec fn distance(r: u8, g: u8, b: u8, r2: u8, g2: u8, b2: u8) -> int {
    magnitude(r - r2) + magnitude(g - g2) + magnitude(b - b2)
}

/// Whether `(r2, g2, b2)` is as close to `(r, g, b)` as a round trip
/// promises. A channel that is the largest or the smallest of the three is
/// unchanged. The remaining one has moved by what the hue left out, give or
/// take the half step of its own rounding: in sixtieths of a step, the
/// distance is within 30 of [`hue_remainder`], so no channel is further than
/// [`slack`] from where it was.
pub open spec fn close(r: u8, g: u8, b: u8, r2: u8, g2: u8, b2: u8) -> bool {
    let k = slack(r, g, b);
    let rest = hue_remainder(r, g, b);
    &&& extreme(r, r, g, b) ==> r2 == r
    &&& extreme(g, r, g, b) ==> g2 == g
    &&& extreme(b, r, g, b) ==> b2 == b
    &&& rest - 30 <= 60 * distance(r, g, b, r2, g2, b2) <= rest + 30
    &&& r - k <= r2 <= r + k
    &&& g - k <= g2 <= g + k
    &&& b - k <= b2 <= b + k
}

/// What a floor division says of its quotient, for a dividend `n` between
/// `-60 * d` and `60 * d`.
proof fn lemma_floor(n: int, d: int)
    requires
        d > 0,
        -60 * d <= n <= 60 * d,
    ensures
        d * (n / d) <= n < d * (n / d) + d,
        n % d == n - d * (n / d),
        d * (-(n / d)) == -(d * (n / d)),
        -60 <= n / d <= 60,
        n >= 0 ==> n / d >= 0,
        n < 0 ==> n / d < 0,
        n < 60 * d ==> n / d < 60,
        n / d == 60 ==> n == 60 * d,
        n / d == -60 ==> d * (n / d) == -60 * d,
        n == 0 ==> n / d == 0 && d * (n / d) == 0,
        n == 60 * d ==> n / d == 60 && d * (n / d) == n,
        n == -60 * d ==> n / d == -60 && d * (n / d) == n,
{
    assert(n / d == 60 ==> d * (n / d) == 60 * d) by (nonlinear_arith);
    assert(n / d == -60 ==> d * (n / d) == -60 * d) by (nonlinear_arith);
    assert(n == 0 ==> n / d == 0 && d * (n / d) == 0) by (nonlinear_arith)
        requires
            d > 0,
    ;
    assert(n == 60 * d ==> n / d == 60 && d * (n / d) == n) by (nonlinear_arith)
        requires
            d > 0,
    ;
    assert(n == -60 * d ==> n / d == -60 && d * (n / d) == n) by (nonlinear_arith)
        requires
            d > 0,
    ;
    assert(d * (n / d) <= n < d * (n / d) + d) by (nonlinear_arith)
        requires
            d > 0,
    ;
    assert(n % d == n - d * (n / d)) by (nonlinear_arith)
        requires
            d > 0,
    ;
    assert(d * (-(n / d)) == -(d * (n / d))) by (nonlinear_arith);
    assert(-60 <= n / d <= 60) by (nonlinear_arith)
        requires
            d > 0,
            -60 * d <= n <= 60 * d,
    ;
    assert(n >= 0 ==> n / d >= 0) by (nonlinear_arith)
        requires
            d > 0,
    ;
    assert(n < 0 ==> n / d < 0) by (nonlinear_arith)
        requires
            d > 0,
    ;
    assert(n < 60 * d ==> n / d < 60) by (nonlinear_arith)
        requires
            d > 0,
    ;
}

/// The hue puts each channel back in its place: with the largest and the
/// smallest channel exact and the third within half a unit of the point
/// that the hue names, the triplet is close to the one the hue came from.
proof fn lemma_placing_red(r: u8, g: u8, b: u8, q: u8, lean: int, down: bool)
    requires
        spread(r, g, b) > 0,
        highest(r, g, b) == r,
        q == nearest_step(
            60 * lowest(r, g, b) + spread(r, g, b) * ramp(hue(r, g, b)),
            lean,
            down,
        ),
    ensures
        ({
            let (r2, g2, b2) = placed(hue(r, g, b), r, q, lowest(r, g, b) as u8);
            &&& close(r, g, b, r2, g2, b2)
            &&& within_one(r, g, b, r2, g2, b2) <==> hue_remainder(r, g, b) <= 89 || (
            hue_remainder(r, g, b) == 90 && rounds_back(falling(hue(r, g, b)), lean, down))
        }),
{
    let delta = spread(r, g, b);
    let f = 60 * (g - b) / delta;
    lemma_floor(60 * (g - b), delta);
    lemma_hue_bounds(r, g, b);
    if g >= b {
        assert(hue(r, g, b) == f);
        assert(0 <= f <= 60);
        if f < 60 {
            assert(ramp(f) == f);
        } else {
            assert(ramp(f) == 60);
        }
    } else {
        assert(hue(r, g, b) == f + 360);
        assert(-60 <= f < 0);
        assert(ramp(f + 360) == -f);
        assert(falling(f + 360) == (f > -60));
    }
}

/// As [`lemma_placing_red`], with green the largest channel.
proof fn lemma_placing_green(r: u8, g: u8, b: u8, q: u8, lean: int, down: bool)
    requires
        spread(r, g, b) > 0,
        highest(r, g, b) == g,
        highest(r, g, b) != r,
        q == nearest_step(
            60 * lowest(r, g, b) + spread(r, g, b) * ramp(hue(r, g, b)),
            lean,
            down,
        ),
    ensures
        ({
            let (r2, g2, b2) = placed(hue(r, g, b), g, q, lowest(r, g, b) as u8);
            &&& close(r, g, b, r2, g2, b2)
            &&& within_one(r, g, b, r2, g2, b2) <==> hue_remainder(r, g, b) <= 89 || (
            hue_remainder(r, g, b) == 90 && rounds_back(falling(hue(r, g, b)), lean, down))
        }),
{
    let delta = spread(r, g, b);
    let f = 60 * (b - r) / delta;
    lemma_floor(60 * (b - r), delta);
    lemma_hue_bounds(r, g, b);
    assert(hue(r, g, b) == f + 120);
    if b >= r {
        assert(0 <= f <= 60);
        if f < 60 {
            assert(ramp(f + 120) == f);
        } else {
            assert(ramp(f + 120) == 60);
        }
    } else {
        assert(-60 <= f < 0);
        assert(ramp(f + 120) == -f);
        assert(falling(f + 120) == (f > -60));
    }
}

/// As [`lemma_placing_red`], with blue alone the largest channel.
proof fn lemma_placing_blue(r: u8, g: u8, b: u8, q: u8, lean: int, down: bool)
    requires
        spread(r, g, b) > 0,
        highest(r, g, b) == b,
        highest(r, g, b) != r,
        highest(r, g, b) != g,
        q == nearest_step(
            60 * lowest(r, g, b) + spread(r, g, b) * ramp(hue(r, g, b)),
            lean,
            down,
        ),
    ensures
        ({
            let (r2, g2, b2) = placed(hue(r, g, b), b, q, lowest(r, g, b) as u8);
            &&& close(r, g, b, r2, g2, b2)
            &&& within_one(r, g, b, r2, g2, b2) <==> hue_remainder(r, g, b) <= 89 || (
            hue_remainder(r, g, b) == 90 && rounds_back(falling(hue(r, g, b)), lean, down))
        }),
{
    let delta = spread(r, g, b);
    let f = 60 * (r - g) / delta;
    lemma_floor(60 * (r - g), delta);
    lemma_hue_bounds(r, g, b);
    assert(hue(r, g, b) == f + 240);
    if r >= g {
        assert(0 <= f < 60);
        assert(ramp(f + 240) == f);
        assert(!falling(f + 240));
    } else {
        assert(-60 <= f < 0);
        assert(ramp(f + 240) == -f);
        assert(falling(f + 240) == (f > -60));
    }
}

/// From RGB to HSL and back: a channel that is the largest or the smallest
/// of the three comes back exactly, and the remaining one comes back within
/// [`slack`] of where it was. The color comes back within one step in every
/// channel exactly where [`returns_within_one`] says.
pub proof fn lemma_round_trip(r: u8, g: u8, b: u8)
    ensures
        ({
            let (r2, g2, b2) = returned(r, g, b);
            &&& close(r, g, b, r2, g2, b2)
            &&& within_one(r, g, b, r2, g2, b2) <==> returns_within_one(r, g, b)
        }),
{
    let delta = spread(r, g, b);
    let s = saturation(r, g, b);
    let l = lightness(r, g, b);
    let h = hue(r, g, b);
    let t = ramp(h);
    lemma_hue_bounds(r, g, b);
    lemma_fraction_bounds(r, g, b);
    lemma_extremes_return(r, g, b);
    lemma_middle_is_near(r, g, b, t);
    let x = second(h, s, l);
    let m = offset(s, l);
    let y = 60 * lowest(r, g, b) + delta * t;
    lemma_rounds_to_step(x + m, y);
    let top = to_channel(chroma(s, l) + m);
    let q = secondary_channel(h, x, m);
    let low = to_channel(m);
    assert(returned(r, g, b) == placed(h, top, q, low));
    if delta > 0 {
        if tie_down(h) {
            if !falling(h) && t == 0 {
                lemma_lifted_multiple(h);
                assert(nudge(h) == 0);
            }
            lemma_second_is_positive(r, g, b, t);
        }
        assert(q == nearest_step(y, lean(r, g, b), tie_down(h)));
        if highest(r, g, b) == r {
            lemma_placing_red(r, g, b, q, lean(r, g, b), tie_down(h));
        } else if highest(r, g, b) == g {
            lemma_placing_green(r, g, b, q, lean(r, g, b), tie_down(h));
        } else {
            lemma_placing_blue(r, g, b, q, lean(r, g, b), tie_down(h));
        }
    }
}

/// The remainder that the hue leaves is less than the spread of the
/// channels.
pub proof fn lemma_hue_remainder_bounds(r: u8, g: u8, b: u8)
    ensures
        0 <= hue_remainder(r, g, b) <= 254,
        spread(r, g, b) > 0 ==> hue_remainder(r, g, b) < spread(r, g, b),
{
    let delta = spread(r, g, b);
    if delta > 0 {
        lemma_floor(60 * (g - b), delta);
        lemma_floor(60 * (b - r), delta);
        lemma_floor(60 * (r - g), delta);
    }
}

} // verus!
