//! The color type and its operations.

use vstd::prelude::*;
use vstd::string::*;
use crate::fixed::{UNIT, blend_channel, blend_fraction, blend_hue, turn, mix_channel, mix_fraction, mix_hue, rotate};
use crate::hex::{decode, unpack, hex_text, is_lower_hex_digit, parse_hex, format_hex, split_channels, lemma_hex_text_shape};
use crate::space::{rgb_of_hsl, hsl_of_rgb, hsl_to_rgb, rgb_to_hsl};

verus! {

/// Why an operation on a color failed.
#[derive(Clone, Copy, Debug, PartialEq, Eq)]
pub enum ColorError {
    /// The text of a `Hex` color writes no base-16 number that fits in 24
    /// bits.
    InvalidHex,
    /// The name of a color space is neither `"RGB"` nor `"HSL"`.
    InvalidColorSpace,
}

/// A color in one of three notations.
///
/// Any value can be built; whether the text of a `Hex` color can be read is
/// found out when the color is first converted.
#[derive(Clone, Debug, PartialEq, Eq)]
pub enum Color {
    /// Hexadecimal text without a leading `#`, two digits per channel, red
    /// first.
    Hex(String),
    /// Red, green and blue.
    RGB(u8, u8, u8),
    /// Hue in degrees, then saturation and lightness as fixed-point
    /// fractions (see [`crate::fixed`]).
    HSL(u16, i32, i32),
}

/// What a [`Color`] stands for in contracts: the same three notations, with
/// the text as a sequence of characters.
pub enum ColorView {
    Hex(Seq<char>),
    RGB(u8, u8, u8),
    HSL(u16, i32, i32),
}

impl View for Color {
    type V = ColorView;

    open spec fn view(&self) -> ColorView {
        match self {
            Color::Hex(text) => ColorView::Hex(text@),
            Color::RGB(r, g, b) => ColorView::RGB(*r, *g, *b),
            Color::HSL(h, s, l) => ColorView::HSL(*h, *s, *l),
        }
    }
}

/// The name that selects blending in RGB space.
pub open spec fn rgb_space() -> Seq<char> {
    seq!['R', 'G', 'B']
}

/// The name that selects blending in HSL space.
pub open spec fn hsl_space() -> Seq<char> {
    seq!['H', 'S', 'L']
}

/// Whether an executable result is the one that the model gives.
pub open spec fn agree(res: Result<Color, ColorError>, model: Result<ColorView, ColorError>) -> bool {
    match res {
        Ok(c) => model == Ok::<ColorView, ColorError>(c@),
        Err(e) => model == Err::<ColorView, ColorError>(e),
    }
}

impl ColorView {
    /// Whether the color can be converted: every color but a `Hex` whose
    /// text cannot be read.
    pub open spec fn valid(self) -> bool {
        self matches ColorView::Hex(text) ==> decode(text) is Some
    }

    /// The RGB channels of the color.
    pub open spec fn split(self) -> Result<(u8, u8, u8), ColorError> {
        match self {
            ColorView::Hex(text) => match decode(text) {
                Some(v) => Ok(unpack(v)),
                None => Err(ColorError::InvalidHex),
            },
            ColorView::RGB(r, g, b) => Ok((r, g, b)),
            ColorView::HSL(h, s, l) => Ok(rgb_of_hsl(h, s, l)),
        }
    }

    /// The color in RGB notation.
    pub open spec fn to_rgb(self) -> Result<ColorView, ColorError> {
        match self.split() {
            Ok((r, g, b)) => Ok(ColorView::RGB(r, g, b)),
            Err(e) => Err(e),
        }
    }

    /// The color in hexadecimal notation.
    pub open spec fn to_hex(self) -> Result<ColorView, ColorError> {
        match self.split() {
            Ok((r, g, b)) => Ok(ColorView::Hex(hex_text(r, g, b))),
            Err(e) => Err(e),
        }
    }

    /// The color in HSL notation, always computed from its RGB channels.
    pub open spec fn to_hsl(self) -> Result<ColorView, ColorError> {
        match self.split() {
            Ok((r, g, b)) => {
                let (h, s, l) = hsl_of_rgb(r, g, b);
                Ok(ColorView::HSL(h, s, l))
            },
            Err(e) => Err(e),
        }
    }

    /// The blend of two colors in RGB space, with weight `p` on `other`.
    pub open spec fn combine_rgb(self, other: ColorView, p: i32) -> Result<ColorView, ColorError> {
        match (self.split(), other.split()) {
            (Ok((r1, g1, b1)), Ok((r2, g2, b2))) => Ok(
                ColorView::RGB(
                    blend_channel(r1, r2, p),
                    blend_channel(g1, g2, p),
                    blend_channel(b1, b2, p),
                ),
            ),
            _ => Err(ColorError::InvalidHex),
        }
    }

    /// The blend of two colors in HSL space, with weight `p` on `other`.
    pub open spec fn combine_hsl(self, other: ColorView, p: i32) -> Result<ColorView, ColorError> {
        match (self.split(), other.split()) {
            (Ok((r1, g1, b1)), Ok((r2, g2, b2))) => {
                let (h1, s1, l1) = hsl_of_rgb(r1, g1, b1);
                let (h2, s2, l2) = hsl_of_rgb(r2, g2, b2);
                Ok(
                    ColorView::HSL(
                        blend_hue(h1, h2, p),
                        blend_fraction(s1, s2, p),
                        blend_fraction(l1, l2, p),
                    ),
                )
            },
            _ => Err(ColorError::InvalidHex),
        }
    }

    /// The blend of two colors in the space that `space` names. The name is
    /// looked at first: with an unknown name the colors are not read.
    pub open spec fn combine(self, other: ColorView, p: i32, space: Seq<char>) -> Result<
        ColorView,
        ColorError,
    > {
        if space == rgb_space() {
            self.combine_rgb(other, p)
        } else if space == hsl_space() {
            self.combine_hsl(other, p)
        } else {
            Err(ColorError::InvalidColorSpace)
        }
    }

    /// The color blended toward black.
    pub open spec fn darken(self, p: i32) -> Result<ColorView, ColorError> {
        self.combine(ColorView::RGB(0, 0, 0), p, rgb_space())
    }

    /// The color blended toward white.
    pub open spec fn lighten(self, p: i32) -> Result<ColorView, ColorError> {
        self.combine(ColorView::RGB(255, 255, 255), p, rgb_space())
    }

    /// The color blended, in RGB space, toward the fully saturated red of
    /// half lightness.
    pub open spec fn saturate(self, p: i32) -> Result<ColorView, ColorError> {
        self.combine(ColorView::HSL(0, UNIT, 500_000), p, rgb_space())
    }

    /// The color blended, in RGB space, toward the gray of half lightness.
    pub open spec fn desaturate(self, p: i32) -> Result<ColorView, ColorError> {
        self.combine(ColorView::HSL(0, 0, 500_000), p, rgb_space())
    }

    /// The color fully desaturated.
    pub open spec fn grayscale(self) -> Result<ColorView, ColorError> {
        self.desaturate(UNIT)
    }

    /// The color in HSL notation with its hue moved on by `angle` degrees.
    pub open spec fn hue_rotate(self, angle: u16) -> Result<ColorView, ColorError> {
        match self.split() {
            Ok((r, g, b)) => {
                let (h, s, l) = hsl_of_rgb(r, g, b);
                Ok(ColorView::HSL(turn(h, angle), s, l))
            },
            Err(e) => Err(e),
        }
    }

    /// The color with its hue moved to the opposite side of the circle.
    pub open spec fn invert(self) -> Result<ColorView, ColorError> {
        self.hue_rotate(180)
    }
}

impl ColorError {
    /// The message of the error, as a sequence of characters.
    pub open spec fn message_text(self) -> Seq<char> {
        match self {
            ColorError::InvalidHex => "Failed to convert"@,
            ColorError::InvalidColorSpace => "Invalid color space"@,
        }
    }

    /// A short description of the error.
    pub fn message(&self) -> (text: &'static str)
        ensures
            text@ == self.message_text(),
    {
        match self {
            ColorError::InvalidHex => "Failed to convert",
            ColorError::InvalidColorSpace => "Invalid color space",
        }
    }
}

/// Whether `text` is exactly the three characters given.
fn spells(text: &str, a: char, b: char, c: char) -> (yes: bool)
    ensures
        yes == (text@ == seq![a, b, c]),
{
    if text.unicode_len() != 3 {
        return false;
    }
    let yes = text.get_char(0) == a && text.get_char(1) == b && text.get_char(2) == c;
    assert(yes == (text@ =~= seq![a, b, c]));
    yes
}

impl Color {
    /// Blends this color with `other` in the color space that `color_space`
    /// names, `"RGB"` or `"HSL"` (the case matters). `percentage` is the
    /// weight of `other`, a fixed-point fraction: at 0 the result is this
    /// color, at [`UNIT`] it is `other`.
    ///
    /// Fails with [`ColorError::InvalidColorSpace`] for any other name,
    /// before either color is read, and with [`ColorError::InvalidHex`] when
    /// one of the two colors cannot be read.
    pub fn combine(&self, other: &Color, percentage: i32, color_space: &str) -> (res: Result<
        Color,
        ColorError,
    >)
        ensures
            agree(res, self@.combine(other@, percentage, color_space@)),
            res == Err::<Color, ColorError>(ColorError::InvalidColorSpace) <==> color_space@
                != rgb_space() && color_space@ != hsl_space(),
            res == Err::<Color, ColorError>(ColorError::InvalidHex) <==> (color_space@
                == rgb_space() || color_space@ == hsl_space()) && !(self@.valid()
                && other@.valid()),
    {
        if spells(color_space, 'R', 'G', 'B') {
            self.combine_rgb(other, percentage)
        } else if spells(color_space, 'H', 'S', 'L') {
            self.combine_hsl(other, percentage)
        } else {
            Err(ColorError::InvalidColorSpace)
        }
    }

    /// Blends this color with `other` channel by channel in RGB space. Each
    /// channel is `c1 * (1 - percentage) + c2 * percentage`, rounded down
    /// and clamped to `[0, 255]`; `percentage` may lie outside `[0, 1]`.
    ///
    /// Fails with [`ColorError::InvalidHex`] when one of the two colors
    /// cannot be read.
    pub fn combine_rgb(&self, other: &Color, percentage: i32) -> (res: Result<Color, ColorError>)
        ensures
            agree(res, self@.combine_rgb(other@, percentage)),
            res is Ok <==> self@.valid() && other@.valid(),
            res is Ok ==> res->Ok_0 is RGB,
    {
        let (r1, g1, b1) = match self.split() {
            Ok(rgb) => rgb,
            Err(_) => {
                return Err(ColorError::InvalidHex);
            },
        };
        let (r2, g2, b2) = match other.split() {
            Ok(rgb) => rgb,
            Err(_) => {
                return Err(ColorError::InvalidHex);
            },
        };
        Ok(
            Color::RGB(
                mix_channel(r1, r2, percentage),
                mix_channel(g1, g2, percentage),
                mix_channel(b1, b2, percentage),
            ),
        )
    }

    /// Blends this color with `other` in HSL space. The hue is
    /// `h1 * (1 - percentage) + h2 * percentage`, rounded down and taken
    /// modulo 360, which goes the long way round where the two hues lie
    /// across 0; saturation and lightness are blended the same way, rounded
    /// to the nearest millionth, and are not clamped to `[0, 1]`.
    ///
    /// Fails with [`ColorError::InvalidHex`] when one of the two colors
    /// cannot be read.
    pub fn combine_hsl(&self, other: &Color, percentage: i32) -> (res: Result<Color, ColorError>)
        ensures
            agree(res, self@.combine_hsl(other@, percentage)),
            res is Ok <==> self@.valid() && other@.valid(),
            res matches Ok(c) ==> c matches Color::HSL(h, _, _) && h < 360,
    {
        let (r1, g1, b1) = match self.split() {
            Ok(rgb) => rgb,
            Err(_) => {
                return Err(ColorError::InvalidHex);
            },
        };
        let (r2, g2, b2) = match other.split() {
            Ok(rgb) => rgb,
            Err(_) => {
                return Err(ColorError::InvalidHex);
            },
        };
        let (h1, s1, l1) = rgb_to_hsl(r1, g1, b1);
        let (h2, s2, l2) = rgb_to_hsl(r2, g2, b2);
        Ok(
            Color::HSL(
                mix_hue(h1, h2, percentage),
                mix_fraction(s1, s2, percentage),
                mix_fraction(l1, l2, percentage),
            ),
        )
    }

    /// The red, green and blue channels of the color, whatever its
    /// notation.
    ///
    /// Fails with [`ColorError::InvalidHex`] when the color is a `Hex` whose
    /// text cannot be read.
    pub fn split(&self) -> (res: Result<(u8, u8, u8), ColorError>)
        ensures
            res == self@.split(),
            res is Ok <==> self@.valid(),
            res is Err ==> res == Err::<(u8, u8, u8), ColorError>(ColorError::InvalidHex),
    {
        match self {
            Color::Hex(text) => match parse_hex(text.as_str()) {
                Some(v) => Ok(split_channels(v)),
                None => Err(ColorError::InvalidHex),
            },
            Color::RGB(r, g, b) => Ok((*r, *g, *b)),
            Color::HSL(h, s, l) => Ok(hsl_to_rgb(*h, *s, *l)),
        }
    }

    /// The color in RGB notation. An `RGB` color comes back unchanged.
    ///
    /// Fails with [`ColorError::InvalidHex`] when the color is a `Hex` whose
    /// text cannot be read.
    pub fn to_rgb(&self) -> (res: Result<Color, ColorError>)
        ensures
            agree(res, self@.to_rgb()),
            res is Ok <==> self@.valid(),
            res is Ok ==> res->Ok_0 is RGB,
            self is RGB ==> res == Ok::<Color, ColorError>(*self),
    {
        match self.split() {
            Ok((r, g, b)) => Ok(Color::RGB(r, g, b)),
            Err(e) => Err(e),
        }
    }

    /// The color in hexadecimal notation: exactly six lowercase digits, two
    /// per channel, red first.
    ///
    /// Fails with [`ColorError::InvalidHex`] when the color is a `Hex` whose
    /// text cannot be read.
    pub fn to_hex(&self) -> (res: Result<Color, ColorError>)
        ensures
            agree(res, self@.to_hex()),
            res is Ok <==> self@.valid(),
            res matches Ok(c) ==> c matches Color::Hex(text) && text@.len() == 6 && forall|i: int|
                0 <= i < 6 ==> is_lower_hex_digit(#[trigger] text@[i]),
    {
        match self.split() {
            Ok((r, g, b)) => {
                proof {
                    lemma_hex_text_shape(r, g, b);
                }
                Ok(Color::Hex(format_hex(r, g, b)))
            },
            Err(e) => Err(e),
        }
    }

    /// The color in HSL notation, always computed from its RGB channels:
    /// the hue lies in `[0, 360)`, saturation and lightness in `[0, 1]`.
    ///
    /// Fails with [`ColorError::InvalidHex`] when the color is a `Hex` whose
    /// text cannot be read.
    pub fn to_hsl(&self) -> (res: Result<Color, ColorError>)
        ensures
            agree(res, self@.to_hsl()),
            res is Ok <==> self@.valid(),
            res matches Ok(c) ==> c matches Color::HSL(h, s, l) && h < 360 && 0 <= s <= UNIT && 0
                <= l <= UNIT,
    {
        match self.split() {
            Ok((r, g, b)) => {
                let (h, s, l) = rgb_to_hsl(r, g, b);
                Ok(Color::HSL(h, s, l))
            },
            Err(e) => Err(e),
        }
    }

    /// Blends the color toward black in RGB space.
    pub fn darken(&self, percentage: i32) -> (res: Result<Color, ColorError>)
        ensures
            agree(res, self@.darken(percentage)),
            res is Ok <==> self@.valid(),
    {
        self.combine_rgb(&Color::RGB(0, 0, 0), percentage)
    }

    /// Blends the color toward white in RGB space.
    pub fn lighten(&self, percentage: i32) -> (res: Result<Color, ColorError>)
        ensures
            agree(res, self@.lighten(percentage)),
            res is Ok <==> self@.valid(),
    {
        self.combine_rgb(&Color::RGB(255, 255, 255), percentage)
    }

    /// Blends the color, in RGB space, toward `HSL(0, 1.0, 0.5)`. This is a
    /// blend of channels toward one fixed color; the saturation of the
    /// result in the HSL sense is whatever that blend gives.
    pub fn saturate(&self, percentage: i32) -> (res: Result<Color, ColorError>)
        ensures
            agree(res, self@.saturate(percentage)),
            res is Ok <==> self@.valid(),
    {
        self.combine_rgb(&Color::HSL(0, UNIT, 500_000), percentage)
    }

    /// Blends the color, in RGB space, toward `HSL(0, 0.0, 0.5)`.
    pub fn desaturate(&self, percentage: i32) -> (res: Result<Color, ColorError>)
        ensures
            agree(res, self@.desaturate(percentage)),
            res is Ok <==> self@.valid(),
    {
        self.combine_rgb(&Color::HSL(0, 0, 500_000), percentage)
    }

    /// Desaturates the color fully.
    pub fn grayscale(&self) -> (res: Result<Color, ColorError>)
        ensures
            agree(res, self@.grayscale()),
            res is Ok <==> self@.valid(),
    {
        self.desaturate(UNIT)
    }

    /// Converts the color to HSL and moves its hue on by `angle` degrees,
    /// modulo 360. Saturation and lightness are those of the conversion.
    pub fn hue_rotate(&self, angle: u16) -> (res: Result<Color, ColorError>)
        ensures
            agree(res, self@.hue_rotate(angle)),
            res is Ok <==> self@.valid(),
            res matches Ok(c) ==> c matches Color::HSL(h, _, _) && h < 360,
    {
        match self.split() {
            Ok((r, g, b)) => {
                let (h, s, l) = rgb_to_hsl(r, g, b);
                Ok(Color::HSL(rotate(h, angle), s, l))
            },
            Err(e) => Err(e),
        }
    }

    /// Moves the hue of the color by half a turn.
    pub fn invert(&self) -> (res: Result<Color, ColorError>)
        ensures
            agree(res, self@.invert()),
            res is Ok <==> self@.valid(),
    {
        self.hue_rotate(180)
    }
}

} // verus!
