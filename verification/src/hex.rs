//! Hexadecimal notation: six digits, two per channel, red first.
//!
//! Reading is lenient in the way integer parsing usually is: one leading `+`
//! is allowed, digits may be of either case, and leading zeros may be left
//! out or added. The number read must fit in 24 bits. Writing always gives
//! exactly six lowercase digits.

use vstd::prelude::*;
use vstd::string::*;

verus! {

/// The numbers that six hexadecimal digits can write are those below this.
pub const LIMIT: u32 = 0x100_0000;

/// Whether `c` is a hexadecimal digit, of either case.
pub open spec fn is_hex_digit(c: char) -> bool {
    ('0' <= c && c <= '9') || ('a' <= c && c <= 'f') || ('A' <= c && c <= 'F')
}

/// Whether `c` is a decimal digit or one of `a` to `f`.
pub open spec fn is_lower_hex_digit(c: char) -> bool {
    ('0' <= c && c <= '9') || ('a' <= c && c <= 'f')
}

/// The value of a hexadecimal digit.
pub open spec fn hex_digit_value(c: char) -> int
    recommends
        is_hex_digit(c),
{
    if '0' <= c && c <= '9' {
        c as int - '0' as int
    } else if 'a' <= c && c <= 'f' {
        c as int - 'a' as int + 10
    } else {
        c as int - 'A' as int + 10
    }
}

/// The lowercase digit that writes `d`: `0` to `9`, then `a` to `f`.
pub open spec fn lower_hex_digit(d: int) -> char
    recommends
        0 <= d < 16,
{
    if d < 10 {
        ('0' as int + d) as char
    } else {
        ('a' as int + d - 10) as char
    }
}

/// Whether every character of `s` is a hexadecimal digit.
pub open spec fn all_hex_digits(s: Seq<char>) -> bool {
    forall|i: int| 0 <= i < s.len() ==> is_hex_digit(#[trigger] s[i])
}

/// The number that a run of hexadecimal digits writes, most significant
/// digit first.
pub open spec fn digits_value(s: Seq<char>) -> int
    decreases s.len(),
{
    if s.len() == 0 {
        0
    } else {
        16 * digits_value(s.drop_last()) + hex_digit_value(s.last())
    }
}

/// The text without its sign, if it has one.
pub open spec fn unsigned_part(text: Seq<char>) -> Seq<char> {
    if text.len() > 0 && text[0] == '+' {
        text.subrange(1, text.len() as int)
    } else {
        text
    }
}

/// The number that `text` writes in base 16, or `None` where it writes none
/// that fits in 24 bits: where no digit follows the optional `+`, where a
/// character is not a hexadecimal digit, or where the number is too large.
pub open spec fn decode(text: Seq<char>) -> Option<int> {
    let body = unsigned_part(text);
    if body.len() > 0 && all_hex_digits(body) && digits_value(body) < LIMIT {
        Some(digits_value(body))
    } else {
        None
    }
}

/// The channels packed in a 24-bit number: red in bits 16 to 23, green in
/// bits 8 to 15, blue in bits 0 to 7.
pub open spec fn unpack(v: int) -> (u8, u8, u8) {
    ((v / 0x1_0000 % 0x100) as u8, (v / 0x100 % 0x100) as u8, (v % 0x100) as u8)
}

/// The 24-bit number that packs three channels.
pub open spec fn pack(r: u8, g: u8, b: u8) -> int {
    r * 0x1_0000 + g * 0x100 + b
}

/// The six lowercase digits that write three channels.
pub open spec fn hex_text(r: u8, g: u8, b: u8) -> Seq<char> {
    seq![
        lower_hex_digit(r as int / 16),
        lower_hex_digit(r as int % 16),
        lower_hex_digit(g as int / 16),
        lower_hex_digit(g as int % 16),
        lower_hex_digit(b as int / 16),
        lower_hex_digit(b as int % 16),
    ]
}

/// A run of digits never writes a negative number.
pub proof fn lemma_digits_value_nonnegative(s: Seq<char>)
    requires
        all_hex_digits(s),
    ensures
        0 <= digits_value(s),
    decreases s.len(),
{
    if s.len() > 0 {
        lemma_digits_value_nonnegative(s.drop_last());
        assert(is_hex_digit(s[s.len() - 1]));
    }
}

/// More digits never write a smaller number: the first `k` digits of `s`
/// write at most what all of `s` writes.
pub proof fn lemma_digits_value_grows(s: Seq<char>, k: int)
    requires
        all_hex_digits(s),
        0 <= k <= s.len(),
    ensures
        digits_value(s.take(k)) <= digits_value(s),
    decreases s.len(),
{
    if k == s.len() {
        assert(s.take(k) =~= s);
    } else {
        let front = s.drop_last();
        lemma_digits_value_grows(front, k);
        lemma_digits_value_nonnegative(front);
        assert(front.take(k) =~= s.take(k));
        assert(is_hex_digit(s[s.len() - 1]));
    }
}

/// One more digit multiplies by 16 and adds the digit.
pub proof fn lemma_digits_value_push(s: Seq<char>, c: char)
    ensures
        digits_value(s.push(c)) == 16 * digits_value(s) + hex_digit_value(c),
{
    assert(s.push(c).drop_last() =~= s);
}

/// A lowercase digit reads back as the number it writes.
pub proof fn lemma_lower_hex_digit(d: int)
    requires
        0 <= d < 16,
    ensures
        is_lower_hex_digit(lower_hex_digit(d)),
        is_hex_digit(lower_hex_digit(d)),
        hex_digit_value(lower_hex_digit(d)) == d,
{
}

/// What six digits write, from the left.
proof fn lemma_six_digits(t: Seq<char>)
    requires
        t.len() == 6,
    ensures
        digits_value(t) == 0x10_0000 * hex_digit_value(t[0]) + 0x1_0000 * hex_digit_value(t[1])
            + 0x1000 * hex_digit_value(t[2]) + 0x100 * hex_digit_value(t[3]) + 0x10
            * hex_digit_value(t[4]) + hex_digit_value(t[5]),
{
    let e = Seq::<char>::empty();
    let t1 = e.push(t[0]);
    let t2 = t1.push(t[1]);
    let t3 = t2.push(t[2]);
    let t4 = t3.push(t[3]);
    let t5 = t4.push(t[4]);
    let t6 = t5.push(t[5]);
    assert(t6 =~= t);
    lemma_digits_value_push(e, t[0]);
    lemma_digits_value_push(t1, t[1]);
    lemma_digits_value_push(t2, t[2]);
    lemma_digits_value_push(t3, t[3]);
    lemma_digits_value_push(t4, t[4]);
    lemma_digits_value_push(t5, t[5]);
}

/// Unpacking undoes packing.
pub proof fn lemma_unpack_pack(r: u8, g: u8, b: u8)
    ensures
        0 <= pack(r, g, b) < LIMIT,
        unpack(pack(r, g, b)) == (r, g, b),
{
    let v = pack(r, g, b);
    assert(v / 0x1_0000 == r as int);
    assert(v / 0x100 == r * 0x100 + g);
    assert(v % 0x100 == b as int);
}

/// What is written is six lowercase digits.
pub proof fn lemma_hex_text_shape(r: u8, g: u8, b: u8)
    ensures
        hex_text(r, g, b).len() == 6,
        forall|i: int| 0 <= i < 6 ==> is_lower_hex_digit(#[trigger] hex_text(r, g, b)[i]),
{
    lemma_lower_hex_digit(r as int / 16);
    lemma_lower_hex_digit(r as int % 16);
    lemma_lower_hex_digit(g as int / 16);
    lemma_lower_hex_digit(g as int % 16);
    lemma_lower_hex_digit(b as int / 16);
    lemma_lower_hex_digit(b as int % 16);
}

/// Reading what was written gives the channels back.
pub proof fn lemma_decode_hex_text(r: u8, g: u8, b: u8)
    ensures
        decode(hex_text(r, g, b)) == Some(pack(r, g, b)),
{
    let t = hex_text(r, g, b);
    lemma_hex_text_shape(r, g, b);
    lemma_unpack_pack(r, g, b);
    assert(is_lower_hex_digit(t[0]));
    assert(unsigned_part(t) == t);
    assert(all_hex_digits(t)) by {
        assert forall|i: int| 0 <= i < t.len() implies is_hex_digit(#[trigger] t[i]) by {
            assert(is_lower_hex_digit(t[i]));
        }
    }
    assert(digits_value(t) == pack(r, g, b)) by {
        lemma_six_digits(t);
        lemma_lower_hex_digit(r as int / 16);
        lemma_lower_hex_digit(r as int % 16);
        lemma_lower_hex_digit(g as int / 16);
        lemma_lower_hex_digit(g as int % 16);
        lemma_lower_hex_digit(b as int / 16);
        lemma_lower_hex_digit(b as int % 16);
    }
}

/// Text that writes a number is plain ASCII.
pub proof fn lemma_decodable_is_ascii(text: Seq<char>)
    requires
        decode(text) is Some,
    ensures
        vstd::utf8::is_ascii_chars(text),
{
    let body = unsigned_part(text);
    assert forall|i: int| 0 <= i < text.len() implies '\0' <= #[trigger] text[i] <= '\u{7f}' by {
        if text[0] == '+' {
            if i > 0 {
                assert(body[i - 1] == text[i]);
                assert(is_hex_digit(body[i - 1]));
            }
        } else {
            assert(is_hex_digit(body[i]));
        }
    }
}

/// The value of one ASCII character as a hexadecimal digit.
fn digit_of(byte: u8) -> (d: Option<u32>)
    ensures
        match d {
            Some(v) => is_hex_digit(byte as char) && v == hex_digit_value(byte as char) && v < 16,
            None => !is_hex_digit(byte as char),
        },
{
    if 0x30 <= byte && byte <= 0x39 {
        // '0' to '9'
        Some((byte - 0x30) as u32)
    } else if 0x61 <= byte && byte <= 0x66 {
        // 'a' to 'f'
        Some((byte - 0x61) as u32 + 10)
    } else if 0x41 <= byte && byte <= 0x46 {
        // 'A' to 'F'
        Some((byte - 0x41) as u32 + 10)
    } else {
        None
    }
}

/// The one-character text of a lowercase digit.
pub(crate) fn digit_text(d: u8) -> (t: &'static str)
    requires
        d < 16,
    ensures
        t@ == seq![lower_hex_digit(d as int)],
{
    proof {
        reveal_strlit("0");
        reveal_strlit("1");
        reveal_strlit("2");
        reveal_strlit("3");
        reveal_strlit("4");
        reveal_strlit("5");
        reveal_strlit("6");
        reveal_strlit("7");
        reveal_strlit("8");
        reveal_strlit("9");
        reveal_strlit("a");
        reveal_strlit("b");
        reveal_strlit("c");
        reveal_strlit("d");
        reveal_strlit("e");
        reveal_strlit("f");
    }
    let t = match d {
        0 => "0",
        1 => "1",
        2 => "2",
        3 => "3",
        4 => "4",
        5 => "5",
        6 => "6",
        7 => "7",
        8 => "8",
        9 => "9",
        10 => "a",
        11 => "b",
        12 => "c",
        13 => "d",
        14 => "e",
        _ => "f",
    };
    assert(t@ =~= seq![lower_hex_digit(d as int)]);
    t
}

/// Reads a number in base 16 that fits in 24 bits.
pub fn parse_hex(text: &str) -> (v: Option<u32>)
    ensures
        match v {
            Some(n) => decode(text@) == Some(n as int),
            None => decode(text@) is None,
        },
{
    if !text.is_ascii() {
        proof {
            if decode(text@) is Some {
                lemma_decodable_is_ascii(text@);
            }
        }
        return None;
    }
    let bytes = text.as_bytes();
    proof {
        is_ascii_spec_bytes(text);
    }
    let n = bytes.len();
    if n == 0 {
        return None;
    }
    let start: usize = if bytes[0] == 0x2b {
        // '+'
        1
    } else {
        0
    };
    let ghost body = unsigned_part(text@);
    assert(body =~= text@.subrange(start as int, n as int));
    if start == n {
        return None;
    }
    let mut i: usize = start;
    let mut acc: u32 = 0;
    while i < n
        invariant
            start <= i <= n,
            n == text@.len(),
            n == bytes@.len(),
            vstd::utf8::is_ascii_chars(text@),
            forall|j: int| 0 <= j < n ==> bytes@[j] == #[trigger] text@[j] as u8,
            body == text@.subrange(start as int, n as int),
            body == unsigned_part(text@),
            all_hex_digits(body.take(i - start)),
            acc == digits_value(body.take(i - start)),
            acc < LIMIT,
        decreases n - i,
    {
        let byte = bytes[i];
        let ghost k = i - start;
        assert(body[k] == text@[i as int]);
        assert(byte as char == body[k]);
        assert(body.take(k + 1).drop_last() =~= body.take(k));
        match digit_of(byte) {
            None => {
                return None;
            },
            Some(d) => {
                let next: u32 = acc * 16 + d;
                if next >= LIMIT {
                    proof {
                        if all_hex_digits(body) {
                            lemma_digits_value_grows(body, k + 1);
                        }
                    }
                    return None;
                }
                acc = next;
            },
        }
        i += 1;
    }
    assert(body.take(n - start) =~= body);
    Some(acc)
}

/// Writes three channels as six lowercase hexadecimal digits.
pub fn format_hex(r: u8, g: u8, b: u8) -> (text: String)
    ensures
        text@ == hex_text(r, g, b),
{
    let mut text = String::new();
    text.append(digit_text(r / 16));
    text.append(digit_text(r % 16));
    text.append(digit_text(g / 16));
    text.append(digit_text(g % 16));
    text.append(digit_text(b / 16));
    text.append(digit_text(b % 16));
    assert(text@ =~= hex_text(r, g, b));
    text
}

/// Splits a 24-bit number into its channels.
pub fn split_channels(v: u32) -> (rgb: (u8, u8, u8))
    ensures
        rgb == unpack(v as int),
{
    ((v / 0x1_0000 % 0x100) as u8, (v / 0x100 % 0x100) as u8, (v % 0x100) as u8)
}

} // verus!
