use color::hex::{format_hex, parse_hex};
use color::space::{hsl_to_rgb, rgb_to_hsl};
use color::{Color, ColorError, UNIT};

fn hex(text: &str) -> Color {
    Color::Hex(String::from(text))
}

#[test]
fn tomato_from_hex() {
    assert_eq!(hex("ff6347").to_rgb(), Ok(Color::RGB(255, 99, 71)));
    assert_eq!(hex("ff6347").split(), Ok((255, 99, 71)));
}

#[test]
fn tomato_to_hsl() {
    assert_eq!(Color::RGB(255, 99, 71).to_hsl(), Ok(Color::HSL(9, 1_000_000, 639_216)));
    assert_eq!(hex("ff6347").to_hsl(), Ok(Color::HSL(9, 1_000_000, 639_216)));
}

#[test]
fn tomato_to_hex() {
    assert_eq!(Color::RGB(255, 99, 71).to_hex(), Ok(hex("ff6347")));
    assert_eq!(Color::RGB(0, 10, 171).to_hex(), Ok(hex("000aab")));
    assert_eq!(Color::HSL(9, 1_000_000, 639_216).to_hex(), Ok(hex("ff6347")));
    assert_eq!(Color::HSL(243, 1_000_000, 380_000).to_hex(), Ok(hex("0a00c2")));
}

#[test]
fn rgb_is_its_own_rgb_form() {
    for &(r, g, b) in &[(0u8, 0u8, 0u8), (255, 255, 255), (1, 2, 3), (255, 99, 71)] {
        assert_eq!(Color::RGB(r, g, b).to_rgb(), Ok(Color::RGB(r, g, b)));
        assert_eq!(Color::RGB(r, g, b).split(), Ok((r, g, b)));
    }
}

#[test]
fn hex_form_is_six_lowercase_digits() {
    let colors = [
        Color::RGB(0, 0, 0),
        Color::RGB(171, 205, 239),
        Color::HSL(200, 700_000, 300_000),
        hex("ABCDEF"),
        hex("+f"),
    ];
    for c in &colors {
        match c.to_hex() {
            Ok(Color::Hex(text)) => {
                assert_eq!(text.len(), 6);
                assert!(text.chars().all(|ch| matches!(ch, '0'..='9' | 'a'..='f')));
            }
            other => panic!("not a hex color: {:?}", other),
        }
    }
    assert_eq!(hex("ABCDEF").to_hex(), Ok(hex("abcdef")));
    assert_eq!(hex("+f").to_hex(), Ok(hex("00000f")));
}

#[test]
fn hex_round_trip_is_exact() {
    let mut r: u32 = 0;
    while r < 256 {
        let mut g: u32 = 0;
        while g < 256 {
            let mut b: u32 = 0;
            while b < 256 {
                let c = Color::RGB(r as u8, g as u8, b as u8);
                let back = c.to_hex().unwrap().to_rgb();
                assert_eq!(back, Ok(Color::RGB(r as u8, g as u8, b as u8)));
                b += 17;
            }
            g += 15;
        }
        r += 1;
    }
}

#[test]
fn format_and_parse_agree() {
    assert_eq!(format_hex(255, 99, 71), "ff6347");
    assert_eq!(format_hex(0, 0, 0), "000000");
    assert_eq!(format_hex(1, 35, 69), "012345");
    assert_eq!(format_hex(103, 137, 171), "6789ab");
    assert_eq!(format_hex(205, 239, 255), "cdefff");
    assert_eq!(parse_hex("ff6347"), Some(0xff6347));
    assert_eq!(parse_hex("012345"), Some(0x012345));
    assert_eq!(parse_hex("6789ab"), Some(0x6789ab));
    assert_eq!(parse_hex("CDEFff"), Some(0xcdefff));
}

#[test]
fn lenient_hex_text_is_read() {
    assert_eq!(hex("FFFFFF").to_rgb(), Ok(Color::RGB(255, 255, 255)));
    assert_eq!(hex("fFfF0a").to_rgb(), Ok(Color::RGB(255, 255, 10)));
    assert_eq!(hex("+ff6347").to_rgb(), Ok(Color::RGB(255, 99, 71)));
    assert_eq!(hex("fff").to_rgb(), Ok(Color::RGB(0, 15, 255)));
    assert_eq!(hex("0").to_rgb(), Ok(Color::RGB(0, 0, 0)));
    assert_eq!(hex("0000ff6347").to_rgb(), Ok(Color::RGB(255, 99, 71)));
    assert_eq!(
        hex("00000000000000000000000000ffffff").to_rgb(),
        Ok(Color::RGB(255, 255, 255))
    );
}

#[test]
fn unreadable_hex_text_is_an_error() {
    let bad = [
        "", "+", "zz", "ff 6347", "#ff6347", "-1", "++1", "1000000", "ffffffff",
        "ffffffffffffffffffffffff", "ff6347\u{e9}", "0x10", " ff6347", "ff6347 ",
    ];
    for text in &bad {
        assert_eq!(parse_hex(text), None, "{:?}", text);
        let c = hex(text);
        assert_eq!(c.split(), Err(ColorError::InvalidHex), "{:?}", text);
        assert_eq!(c.to_rgb(), Err(ColorError::InvalidHex), "{:?}", text);
        assert_eq!(c.to_hex(), Err(ColorError::InvalidHex), "{:?}", text);
        assert_eq!(c.to_hsl(), Err(ColorError::InvalidHex), "{:?}", text);
    }
}

#[test]
fn a_hex_color_is_checked_only_when_converted() {
    let c = hex("not a color");
    assert_eq!(c, Color::Hex(String::from("not a color")));
    assert_eq!(c.to_rgb(), Err(ColorError::InvalidHex));
}

#[test]
fn largest_readable_number_has_24_bits() {
    assert_eq!(parse_hex("ffffff"), Some(0xff_ffff));
    assert_eq!(parse_hex("1000000"), None);
    assert_eq!(parse_hex("0ffffff"), Some(0xff_ffff));
}

#[test]
fn hsl_to_rgb_in_every_sextant() {
    let full: [(u16, (u8, u8, u8)); 17] = [
        (0, (255, 0, 0)),
        (30, (255, 128, 0)),
        (59, (255, 251, 0)),
        (60, (255, 255, 0)),
        (90, (128, 255, 0)),
        (119, (4, 255, 0)),
        (120, (0, 255, 0)),
        (150, (0, 255, 128)),
        (180, (0, 255, 255)),
        (210, (0, 128, 255)),
        (239, (0, 4, 255)),
        (240, (0, 0, 255)),
        (270, (128, 0, 255)),
        (299, (251, 0, 255)),
        (300, (255, 0, 255)),
        (330, (255, 0, 128)),
        (359, (255, 0, 4)),
    ];
    for &(h, rgb) in &full {
        assert_eq!(hsl_to_rgb(h, UNIT, 500_000), rgb, "hue {}", h);
        assert_eq!(Color::HSL(h, UNIT, 500_000).split(), Ok(rgb), "hue {}", h);
    }
    let muted: [(u16, (u8, u8, u8)); 6] = [
        (30, (96, 64, 32)),
        (90, (64, 96, 32)),
        (150, (32, 96, 64)),
        (210, (32, 64, 96)),
        (270, (64, 32, 96)),
        (330, (96, 32, 64)),
    ];
    for &(h, rgb) in &muted {
        assert_eq!(hsl_to_rgb(h, 500_000, 250_000), rgb, "hue {}", h);
    }
}

#[test]
fn half_steps_of_gray_go_up() {
    // 0.5 * 255 = 127.5, 0.3 * 255 = 76.5
    assert_eq!(hsl_to_rgb(0, 0, 500_000), (128, 128, 128));
    assert_eq!(hsl_to_rgb(0, 0, 300_000), (77, 77, 77));
    assert_eq!(hsl_to_rgb(0, 0, 100_000), (26, 26, 26));
    assert_eq!(hsl_to_rgb(0, 0, 700_000), (179, 179, 179));
    assert_eq!(hsl_to_rgb(0, 0, 900_000), (230, 230, 230));
    // whatever hue a gray is given with
    assert_eq!(hsl_to_rgb(90, 0, 500_000), (128, 128, 128));
    assert_eq!(hsl_to_rgb(350, 0, 300_000), (77, 77, 77));
}

#[test]
fn half_steps_of_the_largest_and_smallest_channel_go_up() {
    // 0.7 * 255 = 178.5 and 0.3 * 255 = 76.5
    assert_eq!(hsl_to_rgb(0, 400_000, 500_000), (179, 77, 77));
    assert_eq!(hsl_to_rgb(120, 400_000, 500_000), (77, 179, 77));
    assert_eq!(hsl_to_rgb(240, 400_000, 500_000), (77, 77, 179));
    // 0.1 * 255 = 25.5, 0.9 * 255 = 229.5, 0.5 * 255 = 127.5
    assert_eq!(hsl_to_rgb(0, UNIT, 550_000), (255, 26, 26));
    assert_eq!(hsl_to_rgb(0, UNIT, 450_000), (230, 0, 0));
    assert_eq!(hsl_to_rgb(0, UNIT, 750_000), (255, 128, 128));
}

#[test]
fn half_steps_of_the_middle_channel_go_up_where_the_hue_is_held_exactly() {
    // half of 255 is 127.5; 30 / 60, 90 / 60, ... are binary fractions
    assert_eq!(hsl_to_rgb(30, UNIT, 500_000), (255, 128, 0));
    assert_eq!(hsl_to_rgb(90, UNIT, 500_000), (128, 255, 0));
    assert_eq!(hsl_to_rgb(150, UNIT, 500_000), (0, 255, 128));
    assert_eq!(hsl_to_rgb(210, UNIT, 500_000), (0, 128, 255));
    assert_eq!(hsl_to_rgb(270, UNIT, 500_000), (128, 0, 255));
    assert_eq!(hsl_to_rgb(330, UNIT, 500_000), (255, 0, 128));
}

#[test]
fn half_steps_of_the_middle_channel_follow_the_held_hue() {
    // a sixth of 255 is 42.5
    // 10 / 60 and 130 / 60 are held a little high, on a climbing ramp
    assert_eq!(hsl_to_rgb(10, UNIT, 500_000), (255, 43, 0));
    assert_eq!(hsl_to_rgb(130, UNIT, 500_000), (0, 255, 43));
    // 110 / 60 and 350 / 60 are held a little high, on a falling ramp
    assert_eq!(hsl_to_rgb(110, UNIT, 500_000), (42, 255, 0));
    assert_eq!(hsl_to_rgb(350, UNIT, 500_000), (255, 0, 42));
    // 250 / 60 is held a little low, on a climbing ramp
    assert_eq!(hsl_to_rgb(250, UNIT, 500_000), (42, 0, 255));
    // 230 / 60 is held a little low, on a falling ramp
    assert_eq!(hsl_to_rgb(230, UNIT, 500_000), (0, 43, 255));
    // with less chroma
    assert_eq!(hsl_to_rgb(350, 500_000, 250_000), (96, 32, 42));
    assert_eq!(hsl_to_rgb(110, 500_000, 250_000), (42, 96, 32));
    assert_eq!(hsl_to_rgb(350, UNIT, 300_000), (153, 0, 25));
    // and the hue of 350 reads back
    assert_eq!(rgb_to_hsl(255, 0, 42).0, 350);
    assert_eq!(rgb_to_hsl(255, 43, 0).0, 10);
}

#[test]
fn sample_hsl_color_to_rgb() {
    assert_eq!(Color::HSL(243, 1_000_000, 380_000).to_rgb(), Ok(Color::RGB(10, 0, 194)));
    assert_eq!(
        Color::HSL(243, 1_000_000, 380_000).to_hsl(),
        Ok(Color::HSL(243, 1_000_000, 380_392))
    );
}

#[test]
fn hue_beyond_the_circle_falls_in_the_last_sextant() {
    assert_eq!(hsl_to_rgb(360, UNIT, 500_000), (255, 0, 0));
    assert_eq!(hsl_to_rgb(400, UNIT, 500_000), (255, 0, 170));
    assert_eq!(hsl_to_rgb(65535, UNIT, 500_000), (255, 0, 64));
    assert_eq!(hsl_to_rgb(65535, 500_000, 250_000), (96, 32, 48));
}

#[test]
fn fractions_out_of_range_give_clamped_channels() {
    assert_eq!(hsl_to_rgb(120, 2 * UNIT, 500_000), (0, 255, 0));
    assert_eq!(hsl_to_rgb(120, UNIT, 2 * UNIT), (255, 255, 255));
    assert_eq!(hsl_to_rgb(120, UNIT, -UNIT), (0, 0, 0));
    assert_eq!(hsl_to_rgb(0, -UNIT, 500_000), (0, 255, 255));
    assert_eq!(hsl_to_rgb(200, i32::MAX, i32::MIN), (255, 0, 0));
    assert_eq!(hsl_to_rgb(200, i32::MIN, i32::MAX), (0, 255, 255));
}

#[test]
fn rgb_to_hsl_of_plain_colors() {
    assert_eq!(rgb_to_hsl(255, 255, 255), (0, 0, 1_000_000));
    assert_eq!(rgb_to_hsl(0, 0, 0), (0, 0, 0));
    assert_eq!(rgb_to_hsl(17, 17, 17), (0, 0, 66_667));
    assert_eq!(rgb_to_hsl(128, 128, 128), (0, 0, 501_961));
    assert_eq!(rgb_to_hsl(255, 0, 0), (0, 1_000_000, 500_000));
    assert_eq!(rgb_to_hsl(255, 255, 0), (60, 1_000_000, 500_000));
    assert_eq!(rgb_to_hsl(0, 255, 0), (120, 1_000_000, 500_000));
    assert_eq!(rgb_to_hsl(0, 255, 255), (180, 1_000_000, 500_000));
    assert_eq!(rgb_to_hsl(0, 0, 255), (240, 1_000_000, 500_000));
    assert_eq!(rgb_to_hsl(255, 0, 255), (300, 1_000_000, 500_000));
}

#[test]
fn rgb_to_hsl_with_each_channel_largest() {
    // red largest, green above blue and below it
    assert_eq!(rgb_to_hsl(200, 30, 30), (0, 739_130, 450_980));
    assert_eq!(rgb_to_hsl(255, 43, 0), (10, 1_000_000, 500_000));
    assert_eq!(rgb_to_hsl(255, 0, 21), (355, 1_000_000, 500_000));
    assert_eq!(rgb_to_hsl(255, 0, 43), (349, 1_000_000, 500_000));
    // green largest
    assert_eq!(rgb_to_hsl(12, 200, 99), (147, 886_792, 415_686));
    assert_eq!(rgb_to_hsl(254, 255, 253), (90, 1_000_000, 996_078));
    // blue largest
    assert_eq!(rgb_to_hsl(1, 2, 3), (210, 500_000, 7_843));
    assert_eq!(rgb_to_hsl(0, 4, 226), (238, 1_000_000, 443_137));
    assert_eq!(rgb_to_hsl(30, 30, 200), (240, 739_130, 450_980));
}

#[test]
fn hsl_form_stays_in_range() {
    let mut r: u32 = 0;
    while r < 256 {
        let mut g: u32 = 0;
        while g < 256 {
            let mut b: u32 = 0;
            while b < 256 {
                let (h, s, l) = rgb_to_hsl(r as u8, g as u8, b as u8);
                assert!(h < 360);
                assert!(0 <= s && s <= UNIT);
                assert!(0 <= l && l <= UNIT);
                b += 5;
            }
            g += 5;
        }
        r += 5;
    }
}

fn remainder(r: i32, g: i32, b: i32) -> i32 {
    let hi = r.max(g).max(b);
    let lo = r.min(g).min(b);
    let delta = hi - lo;
    if delta == 0 {
        0
    } else if hi == r {
        (60 * (g - b)).rem_euclid(delta)
    } else if hi == g {
        (60 * (b - r)).rem_euclid(delta)
    } else {
        (60 * (r - g)).rem_euclid(delta)
    }
}

fn held_high(h: i128) -> i32 {
    let mut n = h;
    while 0 < n && n < 503_316_480 {
        n *= 2;
    }
    let held = (2 * n + 60) / 120;
    (60 * held > n) as i32 - (60 * held < n) as i32
}

fn returns_within_one(r: u8, g: u8, b: u8) -> bool {
    let rest = remainder(r as i32, g as i32, b as i32);
    if rest != 90 {
        return rest < 90;
    }
    let (h, s, l) = rgb_to_hsl(r, g, b);
    let (h, s, l) = (h as i128, s as i128, l as i128);
    let unit: i128 = 1_000_000;
    let area = (unit - (2 * l - unit).abs()) * s;
    let ramp = 60 - (h % 120 - 60).abs();
    let low = r.min(g).min(b) as i128;
    let high = r.max(g).max(b) as i128;
    let lean = 510 * (area * ramp + 60 * l * unit - 30 * area)
        - 2 * unit * unit * (60 * low + (high - low) * ramp);
    if h % 120 > 60 {
        lean < 0 || (lean == 0 && held_high(h) > 0)
    } else {
        lean > 0 || (lean == 0 && held_high(h) >= 0)
    }
}

fn comes_back_within_one(r: u8, g: u8, b: u8) -> bool {
    let (h, s, l) = rgb_to_hsl(r, g, b);
    let (r2, g2, b2) = hsl_to_rgb(h, s, l);
    (r as i32 - r2 as i32).abs() <= 1
        && (g as i32 - g2 as i32).abs() <= 1
        && (b as i32 - b2 as i32).abs() <= 1
}

#[test]
fn hsl_round_trip_is_within_one_exactly_where_stated() {
    let mut seen = [0u32; 4];
    let mut high: u32 = 1;
    while high < 256 {
        let mut mid: u32 = 0;
        while mid <= high {
            let (x, y) = (high as u8, mid as u8);
            for &(r, g, b) in &[(x, y, 0), (x, 0, y), (y, x, 0), (0, x, y), (y, 0, x), (0, y, x)] {
                let stated = returns_within_one(r, g, b);
                assert_eq!(comes_back_within_one(r, g, b), stated, "{:?}", (r, g, b));
                if remainder(r as i32, g as i32, b as i32) == 90 {
                    seen[stated as usize] += 1;
                }
            }
            mid += 1;
        }
        high += 1;
    }
    assert!(seen[0] > 0 && seen[1] > 0);
    assert!(returns_within_one(150, 4, 0));
    assert!(!returns_within_one(0, 1, 150));
    assert!(!returns_within_one(255, 3, 0));
}

#[test]
fn hsl_round_trip_is_close() {
    let mut r: i32 = 0;
    while r < 256 {
        let mut g: i32 = 0;
        while g < 256 {
            let mut b: i32 = 0;
            while b < 256 {
                let (h, s, l) = rgb_to_hsl(r as u8, g as u8, b as u8);
                let (r2, g2, b2) = hsl_to_rgb(h, s, l);
                let hi = r.max(g).max(b);
                let lo = r.min(g).min(b);
                let rest = remainder(r, g, b);
                let slack = (rest + 30) / 60;
                let mut distance = 0;
                for &(x, y) in &[(r, r2 as i32), (g, g2 as i32), (b, b2 as i32)] {
                    assert!((x - y).abs() <= slack, "{:?}", (r, g, b));
                    if x == hi || x == lo {
                        assert_eq!(x, y, "{:?}", (r, g, b));
                    }
                    if hi - lo <= 90 || rest <= 89 {
                        assert!((x - y).abs() <= 1, "{:?}", (r, g, b));
                    }
                    distance += (x - y).abs();
                }
                assert!(rest - 30 <= 60 * distance && 60 * distance <= rest + 30);
                if rest >= 91 {
                    assert!(distance >= 2, "{:?}", (r, g, b));
                }
                if rest == 90 {
                    assert!(distance == 1 || distance == 2, "{:?}", (r, g, b));
                }
                assert_eq!(
                    distance <= 1,
                    returns_within_one(r as u8, g as u8, b as u8),
                    "{:?}",
                    (r, g, b)
                );
                b += 3;
            }
            g += 3;
        }
        r += 3;
    }
}

#[test]
fn hsl_round_trip_through_colors() {
    for &(r, g, b) in &[(255u8, 99u8, 71u8), (1, 2, 3), (254, 255, 253), (17, 17, 17)] {
        let back = Color::RGB(r, g, b).to_hsl().unwrap().to_rgb().unwrap();
        match back {
            Color::RGB(r2, g2, b2) => {
                assert!((r as i32 - r2 as i32).abs() <= 1);
                assert!((g as i32 - g2 as i32).abs() <= 1);
                assert!((b as i32 - b2 as i32).abs() <= 1);
            }
            other => panic!("not an RGB color: {:?}", other),
        }
    }
    assert_eq!(
        Color::RGB(255, 99, 71).to_hsl().unwrap().to_rgb(),
        Ok(Color::RGB(255, 99, 71))
    );
}

#[test]
fn a_step_and_a_half_can_fall_either_way() {
    // both hues leave out exactly a step and a half of the middle channel
    assert_eq!(rgb_to_hsl(150, 4, 0), (1, 1_000_000, 294_118));
    assert_eq!(hsl_to_rgb(1, 1_000_000, 294_118), (150, 3, 0));
    assert_eq!(rgb_to_hsl(0, 1, 150), (239, 1_000_000, 294_118));
    assert_eq!(hsl_to_rgb(239, 1_000_000, 294_118), (0, 3, 150));
}

#[test]
fn whole_degrees_can_cost_several_steps() {
    // the hue of (255, 4, 0) is a little under one degree
    assert_eq!(rgb_to_hsl(255, 4, 0), (0, 1_000_000, 500_000));
    assert_eq!(hsl_to_rgb(0, 1_000_000, 500_000), (255, 0, 0));
    assert_eq!(rgb_to_hsl(12, 200, 99), (147, 886_792, 415_686));
    assert_eq!(hsl_to_rgb(147, 886_792, 415_686), (12, 200, 97));
}
