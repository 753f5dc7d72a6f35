//! Colors as one line of text.
//!
//! The line names the notation and then gives each field: a `Hex` color as
//! `Hex - #ff6347`, an `RGB` color as `RGB - R: 255, G: 99, B: 71`, an `HSL`
//! color as `HSL - H: 9, S: 1, L: 0.639216`. Whole numbers are written in
//! decimal; a fraction is written with as many decimals as it needs, six at
//! most, and with none where it is whole.

use vstd::prelude::*;
use vstd::string::*;
use crate::color::{Color, ColorView};
use crate::fixed::magnitude;
use crate::hex::digit_text;

verus! {

/// The character that writes the decimal digit `d`.
pub open spec fn decimal_digit(d: int) -> char
    recommends
        0 <= d < 10,
{
    ('0' as int + d) as char
}

/// A natural number in decimal, without leading zeros.
pub open spec fn decimal_text(n: nat) -> Seq<char>
    decreases n,
{
    if n < 10 {
        seq![decimal_digit(n as int)]
    } else {
        decimal_text(n / 10).push(decimal_digit((n % 10) as int))
    }
}

/// Whether `place` is the weight of one of the six decimals of a fraction:
/// a power of ten from 1 to 100 000.
pub open spec fn is_place(place: nat) -> bool {
    place == 1 || place == 10 || place == 100 || place == 1_000 || place == 10_000 || place
        == 100_000
}

/// The decimals of `rest`, starting with the digit of weight `place`,
/// without trailing zeros.
pub open spec fn decimals(rest: nat, place: nat) -> Seq<char>
    decreases place,
{
    if rest == 0 || place == 0 {
        Seq::empty()
    } else {
        seq![decimal_digit((rest / place) as int)] + decimals(rest % place, place / 10)
    }
}

/// A fixed-point fraction in decimal: a `-` where it is negative, its whole
/// part, and, where it is not whole, a point and its decimals.
pub open spec fn fraction_text(v: int) -> Seq<char> {
    let m = magnitude(v) as nat;
    let sign = if v < 0 {
        seq!['-']
    } else {
        Seq::empty()
    };
    let tail = if m % 1_000_000 == 0 {
        Seq::empty()
    } else {
        seq!['.'] + decimals(m % 1_000_000, 100_000)
    };
    sign + decimal_text(m / 1_000_000) + tail
}

impl ColorView {
    /// The color as one line of text.
    pub open spec fn render(self) -> Seq<char> {
        match self {
            ColorView::Hex(text) => "Hex - #"@ + text,
            ColorView::RGB(r, g, b) => "RGB - R: "@ + decimal_text(r as nat) + ", G: "@
                + decimal_text(g as nat) + ", B: "@ + decimal_text(b as nat),
            ColorView::HSL(h, s, l) => "HSL - H: "@ + decimal_text(h as nat) + ", S: "@
                + fraction_text(s as int) + ", L: "@ + fraction_text(l as int),
        }
    }
}

/// Appends a natural number in decimal.
fn push_decimal(out: &mut String, n: u32)
    ensures
        final(out)@ == old(out)@ + decimal_text(n as nat),
    decreases n,
{
    if n >= 10 {
        push_decimal(out, n / 10);
    }
    out.append(digit_text((n % 10) as u8));
    assert(out@ =~= old(out)@ + decimal_text(n as nat));
}

/// Appends the decimals of `rest` from the digit of weight `place` on.
fn push_decimals(out: &mut String, rest: u32, place: u32)
    requires
        rest == 0 || (is_place(place as nat) && rest < 10 * place),
    ensures
        final(out)@ == old(out)@ + decimals(rest as nat, place as nat),
    decreases place,
{
    if rest == 0 || place == 0 {
        assert(out@ =~= old(out)@ + decimals(rest as nat, place as nat));
        return;
    }
    out.append(digit_text((rest / place) as u8));
    push_decimals(out, rest % place, place / 10);
    assert(out@ =~= old(out)@ + decimals(rest as nat, place as nat));
}

/// Appends a fixed-point fraction in decimal.
fn push_fraction(out: &mut String, v: i32)
    ensures
        final(out)@ == old(out)@ + fraction_text(v as int),
{
    proof {
        reveal_strlit("-");
        reveal_strlit(".");
    }
    let m: u32 = if v < 0 {
        out.append("-");
        (-(v as i64)) as u32
    } else {
        v as u32
    };
    push_decimal(out, m / 1_000_000);
    let part: u32 = m % 1_000_000;
    if part != 0 {
        out.append(".");
        push_decimals(out, part, 100_000);
    }
    assert(out@ =~= old(out)@ + fraction_text(v as int));
}

impl Color {
    /// The color as one line of text: the name of its notation, then its
    /// fields. The text depends on the color alone.
    pub fn render(&self) -> (text: String)
        ensures
            text@ == self@.render(),
    {
        match self {
            Color::Hex(hex) => {
                let mut out = String::from_str("Hex - #");
                out.append(hex.as_str());
                out
            },
            Color::RGB(r, g, b) => {
                let mut out = String::from_str("RGB - R: ");
                push_decimal(&mut out, *r as u32);
                out.append(", G: ");
                push_decimal(&mut out, *g as u32);
                out.append(", B: ");
                push_decimal(&mut out, *b as u32);
                out
            },
            Color::HSL(h, s, l) => {
                let mut out = String::from_str("HSL - H: ");
                push_decimal(&mut out, *h as u32);
                out.append(", S: ");
                push_fraction(&mut out, *s);
                out.append(", L: ");
                push_fraction(&mut out, *l);
                out
            },
        }
    }
}

} // verus!
