//! The arithmetic of the RGB and HSL color spaces.
//!
//! RGB channels are bytes. A hue is a whole number of degrees; saturation
//! and lightness are fixed-point fractions (see [`crate::fixed`]). The
//! conversions below are the usual formulas, computed exactly and rounded
//! once at the end.

use vstd::prelude::*;
use crate::fixed::{UNIT, clamp_channel, magnitude, round_div, round_div_low};

verus! {

/// Intermediate quantities of the HSL to RGB conversion are held as
/// multiples of `1 / SCALE`, which makes every one of them an integer:
/// `SCALE` is `60 * UNIT * UNIT`.
pub const SCALE: i128 = 60_000_000_000_000;

/// `1 - |2l - 1|`, as a fraction.
pub open spec fn span(l: int) -> int {
    UNIT - magnitude(2 * l - UNIT)
}

/// `(1 - |2l - 1|) * s`, in units of `1 / (UNIT * UNIT)`.
pub open spec fn area(s: int, l: int) -> int {
    span(l) * s
}

/// `1 - |(h / 60) mod 2 - 1|`, in sixtieths: it climbs from 0 to 60 over one
/// sextant of the hue circle and falls back to 0 over the next.
pub open spec fn ramp(h: int) -> int {
    60 - magnitude(h % 120 - 60)
}

/// The chroma `c = (1 - |2l - 1|) * s`, in units of `1 / SCALE`.
pub open spec fn chroma(s: int, l: int) -> int {
    60 * area(s, l)
}

/// The secondary component `x = c * (1 - |(h / 60) mod 2 - 1|)`, in units of
/// `1 / SCALE`.
pub open spec fn second(h: int, s: int, l: int) -> int {
    area(s, l) * ramp(h)
}

/// The offset `m = l - c / 2`, in units of `1 / SCALE`.
pub open spec fn offset(s: int, l: int) -> int {
    60 * l * UNIT - 30 * area(s, l)
}

/// A channel from its value `v / SCALE` in `[0, 1]`: scaled by 255, rounded
/// to the nearest integer and clamped. A value half way between two integers
/// goes up.
pub open spec fn to_channel(v: int) -> u8 {
    clamp_channel(round_div(255 * v, SCALE as int))
}

/// As [`to_channel`], but a value half way between two integers goes down.
pub open spec fn to_channel_low(v: int) -> u8 {
    clamp_channel(round_div_low(255 * v, SCALE as int))
}

/// Whether the secondary component falls as the hue grows past `h`: it
/// climbs over one sextant, from 0 to the chroma, and falls back over the
/// next.
pub open spec fn falling(h: int) -> bool {
    h % 120 > 60
}

/// `n` doubled until it is at least `60 * 2^23`: a hue in units so fine that
/// the whole sixtieths of it are 24 binary digits long. 0 stays 0.
pub open spec fn lifted(n: int) -> int
    decreases vstd::math::clip(503_316_480 - n),
{
    if 0 < n < 503_316_480 {
        lifted(2 * n)
    } else {
        n
    }
}

/// Which way `h / 60` moves when it is held in 24 significant binary digits,
/// as single precision holds it, rounded to nearest: 1 where it moves up, -1
/// where it moves down, 0 where the digits hold it exactly, which is where
/// `h` is a multiple of 15.
pub open spec fn nudge(h: int) -> int {
    let n = lifted(h);
    let held = (2 * n + 60) / 120;
    if 60 * held > n {
        1
    } else if 60 * held < n {
        -1
    } else {
        0
    }
}

/// Whether a secondary channel half way between two integers goes down at
/// hue `h`. The half step follows [`nudge`], so that the result is the one
/// of computing the secondary component in single precision wherever the
/// rounding of `h / 60` decides that: held too high, a climbing component
/// comes out above the half step and a falling one below it; held too low,
/// the other way round; held exactly, the half step goes up.
pub open spec fn tie_down(h: int) -> bool {
    if falling(h) {
        nudge(h) > 0
    } else {
        h % 120 < 60 && nudge(h) < 0
    }
}

/// The channel made from the secondary component `x` and the offset `m`:
/// rounded to nearest like the others, with a half step going as
/// [`tie_down`] says. A component of 0 adds nothing to the offset, and the
/// channel is then rounded as the offset alone is.
pub open spec fn secondary_channel(h: int, x: int, m: int) -> u8 {
    if tie_down(h) && x != 0 {
        to_channel_low(x + m)
    } else {
        to_channel(x + m)
    }
}

/// The RGB triplet of a hue, a saturation and a lightness.
pub open spec fn rgb_of_hsl(h: u16, s: i32, l: i32) -> (u8, u8, u8) {
    let c = chroma(s as int, l as int);
    let x = second(h as int, s as int, l as int);
    let m = offset(s as int, l as int);
    let top = to_channel(c + m);
    let mid = secondary_channel(h as int, x, m);
    let low = to_channel(m);
    if h < 60 {
        (top, mid, low)
    } else if h < 120 {
        (mid, top, low)
    } else if h < 180 {
        (low, top, mid)
    } else if h < 240 {
        (low, mid, top)
    } else if h < 300 {
        (mid, low, top)
    } else {
        (top, low, mid)
    }
}

/// The largest of three channels.
pub open spec fn highest(r: u8, g: u8, b: u8) -> int {
    if r >= g && r >= b {
        r as int
    } else if g >= b {
        g as int
    } else {
        b as int
    }
}

/// The smallest of three channels.
pub open spec fn lowest(r: u8, g: u8, b: u8) -> int {
    if r <= g && r <= b {
        r as int
    } else if g <= b {
        g as int
    } else {
        b as int
    }
}

/// The difference between the largest and the smallest channel.
pub open spec fn spread(r: u8, g: u8, b: u8) -> int {
    highest(r, g, b) - lowest(r, g, b)
}

/// The lightness `(max + min) / 2` of channels taken in `[0, 1]`, as a
/// fraction rounded to the nearest millionth.
pub open spec fn lightness(r: u8, g: u8, b: u8) -> int {
    round_div((highest(r, g, b) + lowest(r, g, b)) * UNIT, 510)
}

/// The saturation `delta / (1 - |2l - 1|)`, as a fraction rounded to the
/// nearest millionth; 0 for a gray.
pub open spec fn saturation(r: u8, g: u8, b: u8) -> int {
    let delta = spread(r, g, b);
    if delta == 0 {
        0
    } else {
        round_div(delta * UNIT, 255 - magnitude(highest(r, g, b) + lowest(r, g, b) - 255))
    }
}

/// The hue in whole degrees, rounded down; 0 for a gray. With red the
/// largest channel it is `60 * (g - b) / delta`, moved up by 360 when that is
/// negative; with green, `60 * (b - r) / delta + 120`; with blue,
/// `60 * (r - g) / delta + 240`.
pub open spec fn hue(r: u8, g: u8, b: u8) -> int {
    let delta = spread(r, g, b);
    if delta == 0 {
        0
    } else if highest(r, g, b) == r {
        if g >= b {
            60 * (g - b) / delta
        } else {
            60 * (g - b) / delta + 360
        }
    } else if highest(r, g, b) == g {
        60 * (b - r) / delta + 120
    } else {
        60 * (r - g) / delta + 240
    }
}

/// What rounding the hue down to a whole degree leaves out, in units of
/// `1 / delta` degrees: the remainder of the division in [`hue`]. It is 0 for
/// a gray and less than `delta` otherwise.
pub open spec fn hue_remainder(r: u8, g: u8, b: u8) -> int {
    let delta = spread(r, g, b);
    if delta == 0 {
        0
    } else if highest(r, g, b) == r {
        60 * (g - b) % delta
    } else if highest(r, g, b) == g {
        60 * (b - r) % delta
    } else {
        60 * (r - g) % delta
    }
}

/// The HSL triplet of three channels.
pub open spec fn hsl_of_rgb(r: u8, g: u8, b: u8) -> (u16, i32, i32) {
    (hue(r, g, b) as u16, saturation(r, g, b) as i32, lightness(r, g, b) as i32)
}

/// Computes [`to_channel`].
fn channel(v: i128) -> (c: u8)
    requires
        -0x1_0000_0000_0000_0000_0000 <= v <= 0x1_0000_0000_0000_0000_0000,
    ensures
        c == to_channel(v as int),
{
    if v <= 0 {
        0
    } else {
        let q: i128 = (510 * v + SCALE) / (2 * SCALE);
        if q > 255 {
            255
        } else {
            q as u8
        }
    }
}

/// Computes [`to_channel_low`].
fn channel_low(v: i128) -> (c: u8)
    requires
        -0x1_0000_0000_0000_0000_0000 <= v <= 0x1_0000_0000_0000_0000_0000,
    ensures
        c == to_channel_low(v as int),
{
    if v <= 0 {
        0
    } else {
        let q: i128 = (510 * v + SCALE - 1) / (2 * SCALE);
        if q > 255 {
            255
        } else {
            q as u8
        }
    }
}

/// Computes [`nudge`].
fn nudge_of(h: u16) -> (d: i8)
    ensures
        d == nudge(h as int),
{
    let mut n: u64 = h as u64;
    while 0 < n && n < 503_316_480
        invariant
            lifted(n as int) == lifted(h as int),
            n < 1_006_632_960,
        decreases vstd::math::clip(503_316_480 - n),
    {
        n = 2 * n;
    }
    let held: u64 = (2 * n + 60) / 120;
    if 60 * held > n {
        1
    } else if 60 * held < n {
        -1
    } else {
        0
    }
}

/// Converts a hue, a saturation and a lightness to RGB. Every input is
/// accepted: a hue of 300 or more falls in the last sextant, and a
/// saturation or lightness outside `[0, UNIT]` gives channels clamped to
/// `[0, 255]`.
pub fn hsl_to_rgb(h: u16, s: i32, l: i32) -> (rgb: (u8, u8, u8))
    ensures
        rgb == rgb_of_hsl(h, s, l),
{
    let unit: i128 = UNIT as i128;
    let twice: i128 = 2 * (l as i128) - unit;
    let sp: i128 = unit - (if twice < 0 {
        -twice
    } else {
        twice
    });
    assert(sp == span(l as int));
    assert(-0x1_0000_0000_0000_0000 <= sp * s <= 0x1_0000_0000_0000_0000) by (nonlinear_arith)
        requires
            -0x2_0000_0000 <= sp <= 0x2_0000_0000,
            -0x8000_0000 <= s <= 0x8000_0000,
    ;
    let ar: i128 = sp * (s as i128);
    let w: u16 = h % 120;
    let t: i128 = if w < 60 {
        w as i128
    } else {
        120 - w as i128
    };
    assert(t == ramp(h as int));
    assert(-0x40_0000_0000_0000_0000 <= ar * t <= 0x40_0000_0000_0000_0000) by (nonlinear_arith)
        requires
            -0x1_0000_0000_0000_0000 <= ar <= 0x1_0000_0000_0000_0000,
            0 <= t <= 60,
    ;
    let c: i128 = 60 * ar;
    let x: i128 = ar * t;
    let m: i128 = 60 * (l as i128) * unit - 30 * ar;
    let top = channel(c + m);
    let moved = nudge_of(h);
    let down = if w > 60 {
        moved > 0
    } else {
        w < 60 && moved < 0
    };
    let mid = if down && x != 0 {
        channel_low(x + m)
    } else {
        channel(x + m)
    };
    let low = channel(m);
    if h < 60 {
        (top, mid, low)
    } else if h < 120 {
        (mid, top, low)
    } else if h < 180 {
        (low, top, mid)
    } else if h < 240 {
        (low, mid, top)
    } else if h < 300 {
        (mid, low, top)
    } else {
        (top, low, mid)
    }
}

/// The hue of a color that is not gray always lies on the circle.
pub proof fn lemma_hue_bounds(r: u8, g: u8, b: u8)
    ensures
        0 <= hue(r, g, b) < 360,
{
    let delta = spread(r, g, b);
    if delta != 0 {
        if highest(r, g, b) == r {
            if g >= b {
                assert(0 <= 60 * (g - b) / delta <= 60) by (nonlinear_arith)
                    requires
                        0 <= g - b <= delta,
                        delta > 0,
                ;
            } else {
                assert(-60 <= 60 * (g - b) / delta < 0) by (nonlinear_arith)
                    requires
                        -delta <= g - b < 0,
                        delta > 0,
                ;
            }
        } else if highest(r, g, b) == g {
            assert(-60 <= 60 * (b - r) / delta <= 60) by (nonlinear_arith)
                requires
                    -delta <= b - r <= delta,
                    delta > 0,
            ;
        } else {
            assert(-60 <= 60 * (r - g) / delta <= 60) by (nonlinear_arith)
                requires
                    -delta <= r - g <= delta,
                    delta > 0,
            ;
        }
    }
}

/// Saturation and lightness of any RGB triplet are fractions in `[0, 1]`.
pub proof fn lemma_fraction_bounds(r: u8, g: u8, b: u8)
    ensures
        0 <= saturation(r, g, b) <= UNIT,
        0 <= lightness(r, g, b) <= UNIT,
{
    let delta = spread(r, g, b);
    let sum = highest(r, g, b) + lowest(r, g, b);
    if delta != 0 {
        let d = 255 - magnitude(sum - 255);
        assert(0 <= (2 * (delta * UNIT) + d) / (2 * d) <= UNIT) by (nonlinear_arith)
            requires
                0 < delta <= d,
                UNIT == 1_000_000,
        ;
    }
}

/// Converts three channels to hue, saturation and lightness.
pub fn rgb_to_hsl(r: u8, g: u8, b: u8) -> (hsl: (u16, i32, i32))
    ensures
        hsl == hsl_of_rgb(r, g, b),
        hsl.0 < 360,
        0 <= hsl.1 <= UNIT,
        0 <= hsl.2 <= UNIT,
{
    proof {
        lemma_hue_bounds(r, g, b);
        lemma_fraction_bounds(r, g, b);
    }
    let hi: u8 = if r >= g && r >= b {
        r
    } else if g >= b {
        g
    } else {
        b
    };
    let lo: u8 = if r <= g && r <= b {
        r
    } else if g <= b {
        g
    } else {
        b
    };
    let delta: i64 = hi as i64 - lo as i64;
    let sum: i64 = hi as i64 + lo as i64;
    let unit: i64 = UNIT as i64;
    let l: i64 = (2 * (sum * unit) + 510) / 1020;
    if delta == 0 {
        return (0, 0, l as i32);
    }
    let d: i64 = 255 - (if sum < 255 {
        255 - sum
    } else {
        sum - 255
    });
    let s: i64 = (2 * (delta * unit) + d) / (2 * d);
    let turn: i64 = if hi == r {
        if g >= b {
            60 * (g as i64 - b as i64)
        } else {
            60 * (g as i64 - b as i64) + 360 * delta
        }
    } else if hi == g {
        60 * (b as i64 - r as i64) + 120 * delta
    } else {
        60 * (r as i64 - g as i64) + 240 * delta
    };
    proof {
        lemma_degrees(60 * (g - b), 360, delta as int);
        lemma_degrees(60 * (b - r), 120, delta as int);
        lemma_degrees(60 * (r - g), 240, delta as int);
    }
    let h: i64 = turn / delta;
    (h as u16, s as i32, l as i32)
}

/// Whole turns move through a floor division.
proof fn lemma_degrees(n: int, k: int, d: int)
    requires
        d > 0,
    ensures
        (n + k * d) / d == n / d + k,
{
    assert((n + k * d) / d == n / d + k) by (nonlinear_arith)
        requires
            d > 0,
    ;
}

} // verus!
