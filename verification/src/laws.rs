//! What holds of the operations on colors, whatever the colors are.
//!
//! Each law is stated over [`ColorView`], the model that the contracts of the
//! operations refer to.

use vstd::prelude::*;
use crate::color::{ColorError, ColorView, hsl_space, rgb_space};
use crate::fixed::{
    UNIT, blend_channel, blend_fraction, blend_hue, clamp_channel, lemma_round_div_multiple,
    lemma_weighted_ends, round_div, turn, weighted,
};
use crate::hex::{
    hex_text, is_lower_hex_digit, lemma_decode_hex_text, lemma_hex_text_shape, lemma_unpack_pack,
};
use crate::round_trip::{
    close, lemma_hue_remainder_bounds, lemma_round_trip, returns_within_one, within_one,
};
use crate::space::{
    SCALE, area, hsl_of_rgb, lemma_fraction_bounds, lemma_hue_bounds, offset,
    rgb_of_hsl, span, spread,
};

verus! {

/// An RGB color written in hexadecimal and read back is the same color.
pub proof fn law_hex_round_trip(r: u8, g: u8, b: u8)
    ensures
        ColorView::RGB(r, g, b).to_hex() == Ok::<ColorView, ColorError>(
            ColorView::Hex(hex_text(r, g, b)),
        ),
        ColorView::Hex(hex_text(r, g, b)).to_rgb() == Ok::<ColorView, ColorError>(
            ColorView::RGB(r, g, b),
        ),
{
    lemma_decode_hex_text(r, g, b);
    lemma_unpack_pack(r, g, b);
}

/// An RGB color taken to HSL and back comes out close to where it went in:
/// the largest and the smallest channel are unchanged, and the third is off
/// by at most [`slack`], which the rounding of the hue to whole degrees
/// decides.
pub proof fn law_hsl_round_trip(r: u8, g: u8, b: u8)
    ensures
        ColorView::RGB(r, g, b).to_hsl() matches Ok(hsl) && hsl.to_rgb() matches Ok(
            ColorView::RGB(r2, g2, b2),
        ) && close(r, g, b, r2, g2, b2),
{
    lemma_round_trip(r, g, b);
}

/// An RGB color taken to HSL and back is within one step of itself in every
/// channel where, and only where, [`returns_within_one`] holds: where
/// rounding the hue down to a whole degree left out less than a step and a
/// half of the middle channel, or left out exactly that and the half step
/// falls back toward the channel.
pub proof fn law_hsl_round_trip_within_one(r: u8, g: u8, b: u8)
    ensures
        ColorView::RGB(r, g, b).to_hsl() matches Ok(hsl) && hsl.to_rgb() matches Ok(
            ColorView::RGB(r2, g2, b2),
        ) && (within_one(r, g, b, r2, g2, b2) <==> returns_within_one(r, g, b)),
{
    lemma_round_trip(r, g, b);
}

/// The remainder that the hue leaves is less than the spread of the
/// channels: every color whose channels lie within 90 of each other comes
/// back within one step.
pub proof fn law_hsl_round_trip_of_muted_colors(r: u8, g: u8, b: u8)
    requires
        spread(r, g, b) <= 90,
    ensures
        returns_within_one(r, g, b),
{
    lemma_hue_remainder_bounds(r, g, b);
}

/// Converting an RGB color to RGB changes nothing.
pub proof fn law_rgb_identity(r: u8, g: u8, b: u8)
    ensures
        ColorView::RGB(r, g, b).to_rgb() == Ok::<ColorView, ColorError>(ColorView::RGB(r, g, b)),
{
}

/// The hexadecimal form of any color that can be read is exactly six
/// lowercase hexadecimal digits.
pub proof fn law_hex_shape(c: ColorView)
    requires
        c.valid(),
    ensures
        c.to_hex() matches Ok(ColorView::Hex(text)) && text.len() == 6 && forall|i: int|
            0 <= i < 6 ==> is_lower_hex_digit(#[trigger] text[i]),
{
    let (r, g, b) = c.split()->Ok_0;
    lemma_hex_text_shape(r, g, b);
}

/// With weight 0 a blend is the first color, with weight 1 the second,
/// each converted to the space of the blend.
pub proof fn law_combine_boundary(a: ColorView, b: ColorView)
    requires
        a.valid(),
        b.valid(),
    ensures
        a.combine(b, 0, rgb_space()) == a.to_rgb(),
        a.combine(b, UNIT, rgb_space()) == b.to_rgb(),
        a.combine(b, 0, hsl_space()) == a.to_hsl(),
        a.combine(b, UNIT, hsl_space()) == b.to_hsl(),
{
    let (r1, g1, b1) = a.split()->Ok_0;
    let (r2, g2, b2) = b.split()->Ok_0;
    lemma_blend_channel_ends(r1, r2);
    lemma_blend_channel_ends(g1, g2);
    lemma_blend_channel_ends(b1, b2);
    let (h1, s1, l1) = hsl_of_rgb(r1, g1, b1);
    let (h2, s2, l2) = hsl_of_rgb(r2, g2, b2);
    lemma_hue_bounds(r1, g1, b1);
    lemma_hue_bounds(r2, g2, b2);
    lemma_fraction_bounds(r1, g1, b1);
    lemma_fraction_bounds(r2, g2, b2);
    lemma_blend_hue_ends(h1, h2);
    lemma_blend_fraction_ends(s1, s2);
    lemma_blend_fraction_ends(l1, l2);
    assert(rgb_space() != hsl_space()) by {
        assert(rgb_space()[0] != hsl_space()[0]);
    }
}

/// A blend of channels is the first at weight 0 and the second at weight 1.
pub proof fn lemma_blend_channel_ends(a: u8, b: u8)
    ensures
        blend_channel(a, b, 0) == a,
        blend_channel(a, b, UNIT) == b,
{
    assert(UNIT == 1_000_000);
    lemma_weighted_ends(a as int, b as int);
}

/// A blend of hues on the circle is the first at weight 0 and the second at
/// weight 1.
pub proof fn lemma_blend_hue_ends(a: u16, b: u16)
    requires
        a < 360,
        b < 360,
    ensures
        blend_hue(a, b, 0) == a,
        blend_hue(a, b, UNIT) == b,
{
    assert(UNIT == 1_000_000);
    lemma_weighted_ends(a as int, b as int);
}

/// A blend of fractions is the first at weight 0 and the second at weight 1.
pub proof fn lemma_blend_fraction_ends(a: i32, b: i32)
    ensures
        blend_fraction(a, b, 0) == a,
        blend_fraction(a, b, UNIT) == b,
{
    assert(UNIT == 1_000_000);
    lemma_weighted_ends(a as int, b as int);
    lemma_round_div_multiple(a as int, 1_000_000);
    lemma_round_div_multiple(b as int, 1_000_000);
}

/// A weighted sum with a weight in `[0, 1]` lies between its two terms.
pub proof fn lemma_weighted_between(a: int, b: int, p: int, low: int, high: int)
    requires
        0 <= p <= UNIT,
        low <= a <= high,
        low <= b <= high,
    ensures
        low * 1_000_000 <= weighted(a, b, p) <= high * 1_000_000,
{
    assert(UNIT == 1_000_000);
    assert(low * 1_000_000 <= a * (1_000_000 - p) + b * p <= high * 1_000_000)
        by (nonlinear_arith)
        requires
            0 <= p <= 1_000_000,
            low <= a <= high,
            low <= b <= high,
    ;
}

/// With a weight in `[0, 1]` a blend in RGB space stays between the two
/// colors, channel by channel: nothing is clamped.
pub proof fn law_combine_rgb_between(a: ColorView, b: ColorView, p: i32)
    requires
        a.valid(),
        b.valid(),
        0 <= p <= UNIT,
    ensures
        a.split() matches Ok((r1, g1, b1)) && b.split() matches Ok((r2, g2, b2)) && a.combine_rgb(
            b,
            p,
        ) matches Ok(ColorView::RGB(r, g, bl)) && (r1 <= r <= r2 || r2 <= r <= r1) && (g1 <= g
            <= g2 || g2 <= g <= g1) && (b1 <= bl <= b2 || b2 <= bl <= b1),
{
    let (r1, g1, b1) = a.split()->Ok_0;
    let (r2, g2, b2) = b.split()->Ok_0;
    lemma_blend_channel_between(r1, r2, p);
    lemma_blend_channel_between(g1, g2, p);
    lemma_blend_channel_between(b1, b2, p);
}

/// With a weight in `[0, 1]` a blend of two channels lies between them.
pub proof fn lemma_blend_channel_between(x: u8, y: u8, p: i32)
    requires
        0 <= p <= UNIT,
    ensures
        x <= blend_channel(x, y, p) <= y || y <= blend_channel(x, y, p) <= x,
{
    assert(UNIT == 1_000_000);
    let w = weighted(x as int, y as int, p as int);
    if x <= y {
        lemma_weighted_between(x as int, y as int, p as int, x as int, y as int);
    } else {
        lemma_weighted_between(x as int, y as int, p as int, y as int, x as int);
    }
    assert(blend_channel(x, y, p) == clamp_channel(w / 1_000_000));
}

/// With a weight in `[0, 1]` a blend in HSL space has a hue on the circle
/// and a saturation and a lightness in `[0, 1]`.
pub proof fn law_combine_hsl_in_range(a: ColorView, b: ColorView, p: i32)
    requires
        a.valid(),
        b.valid(),
        0 <= p <= UNIT,
    ensures
        a.combine_hsl(b, p) matches Ok(ColorView::HSL(h, s, l)) && h < 360 && 0 <= s <= UNIT && 0
            <= l <= UNIT,
{
    let (r1, g1, b1) = a.split()->Ok_0;
    let (r2, g2, b2) = b.split()->Ok_0;
    let (h1, s1, l1) = hsl_of_rgb(r1, g1, b1);
    let (h2, s2, l2) = hsl_of_rgb(r2, g2, b2);
    lemma_hue_bounds(r1, g1, b1);
    lemma_hue_bounds(r2, g2, b2);
    lemma_fraction_bounds(r1, g1, b1);
    lemma_fraction_bounds(r2, g2, b2);
    lemma_blend_fraction_in_range(s1, s2, p);
    lemma_blend_fraction_in_range(l1, l2, p);
    lemma_blend_hue_on_circle(h1, h2, p);
}

/// A blend of hues is on the circle, whatever the weight.
pub proof fn lemma_blend_hue_on_circle(x: u16, y: u16, p: i32)
    ensures
        blend_hue(x, y, p) < 360,
{
    assert(UNIT == 1_000_000);
    let w = weighted(x as int, y as int, p as int);
    assert(blend_hue(x, y, p) == (w / 1_000_000 % 360) as u16);
}

/// With a weight in `[0, 1]` a blend of two fractions in `[0, 1]` is in
/// `[0, 1]`.
pub proof fn lemma_blend_fraction_in_range(x: i32, y: i32, p: i32)
    requires
        0 <= p <= UNIT,
        0 <= x <= UNIT,
        0 <= y <= UNIT,
    ensures
        0 <= blend_fraction(x, y, p) <= UNIT,
{
    assert(UNIT == 1_000_000);
    let w = weighted(x as int, y as int, p as int);
    lemma_weighted_between(x as int, y as int, p as int, 0, 1_000_000);
    assert(round_div(w, 1_000_000) == (2 * w + 1_000_000) / 2_000_000);
}

/// Rotating the hue keeps it on the circle: the result is the HSL form of
/// the color with `angle` added to its hue modulo 360, so it lies in
/// `[0, 360)` whatever the angle, and saturation and lightness are those of
/// the HSL form.
pub proof fn law_hue_rotate(c: ColorView, angle: u16)
    requires
        c.valid(),
    ensures
        c.to_hsl() matches Ok(ColorView::HSL(h0, s0, l0)) && c.hue_rotate(angle) matches Ok(
            ColorView::HSL(h, s, l),
        ) && h == (h0 + angle) % 360 && 0 <= h < 360 && s == s0 && l == l0,
{
    let (r, g, b) = c.split()->Ok_0;
    lemma_hue_bounds(r, g, b);
    let (h0, s0, l0) = hsl_of_rgb(r, g, b);
    assert(turn(h0, angle) == (h0 + angle) % 360);
}

/// A color given as `HSL(350, s, l)` and rotated by 20 degrees has hue 10,
/// not 370, wherever its own HSL form has the hue 350 that it was given
/// with. (The rotation starts from the HSL form computed from the RGB
/// channels; for a gray, for instance, that form has hue 0.)
pub proof fn law_hue_rotate_wraps(s: i32, l: i32)
    requires
        ColorView::HSL(350, s, l).to_hsl() matches Ok(ColorView::HSL(h0, _, _)) && h0 == 350,
    ensures
        ColorView::HSL(350, s, l).hue_rotate(20) matches Ok(ColorView::HSL(h, _, _)) && h == 10,
{
}

/// The grayscale of every color is the same gray, `RGB(128, 128, 128)`:
/// its three channels are equal and its HSL form has saturation 0.
pub proof fn law_grayscale(c: ColorView)
    requires
        c.valid(),
    ensures
        c.grayscale() == Ok::<ColorView, ColorError>(ColorView::RGB(128, 128, 128)),
        ColorView::RGB(128, 128, 128).to_hsl() matches Ok(ColorView::HSL(h, s, _)) && h == 0 && s
            == 0,
{
    let (r, g, b) = c.split()->Ok_0;
    lemma_half_gray();
    lemma_blend_channel_ends(r, 128);
    lemma_blend_channel_ends(g, 128);
    lemma_blend_channel_ends(b, 128);
}

/// The color `HSL(0, 0.0, 0.5)` is the gray `RGB(128, 128, 128)`.
pub proof fn lemma_half_gray()
    ensures
        rgb_of_hsl(0, 0, 500_000) == (128u8, 128u8, 128u8),
{
    assert(UNIT == 1_000_000);
    assert(SCALE == 60_000_000_000_000);
    assert(span(500_000) == 1_000_000);
    assert(area(0, 500_000) == 0);
    assert(offset(0, 500_000) == 30_000_000_000_000);
    assert(round_div(7_650_000_000_000_000, 60_000_000_000_000) == (2
        * 7_650_000_000_000_000int + 60_000_000_000_000) / 120_000_000_000_000);
}

} // verus!
