use color::fixed::rotate;
use color::{Color, ColorError, UNIT};

fn tomato() -> Color {
    Color::Hex(String::from("ff6347"))
}

fn unreadable() -> Color {
    Color::Hex(String::from("tomato"))
}

#[test]
fn darken_blends_toward_black() {
    assert_eq!(tomato().darken(200_000), Ok(Color::RGB(204, 79, 56)));
    assert_eq!(tomato().darken(0), Ok(Color::RGB(255, 99, 71)));
    assert_eq!(tomato().darken(UNIT), Ok(Color::RGB(0, 0, 0)));
    assert_eq!(
        tomato().darken(200_000),
        tomato().combine(&Color::RGB(0, 0, 0), 200_000, "RGB")
    );
}

#[test]
fn lighten_blends_toward_white() {
    assert_eq!(tomato().lighten(200_000), Ok(Color::RGB(255, 130, 107)));
    assert_eq!(tomato().lighten(0), Ok(Color::RGB(255, 99, 71)));
    assert_eq!(tomato().lighten(UNIT), Ok(Color::RGB(255, 255, 255)));
    assert_eq!(
        tomato().lighten(200_000),
        tomato().combine(&Color::RGB(255, 255, 255), 200_000, "RGB")
    );
}

#[test]
fn saturate_blends_toward_pure_red() {
    assert_eq!(tomato().saturate(200_000), Ok(Color::RGB(255, 79, 56)));
    assert_eq!(tomato().saturate(UNIT), Ok(Color::RGB(255, 0, 0)));
    assert_eq!(Color::RGB(0, 0, 255).saturate(500_000), Ok(Color::RGB(127, 0, 127)));
    assert_eq!(
        tomato().saturate(200_000),
        tomato().combine(&Color::HSL(0, UNIT, 500_000), 200_000, "RGB")
    );
}

#[test]
fn desaturate_blends_toward_middle_gray() {
    assert_eq!(tomato().desaturate(200_000), Ok(Color::RGB(229, 104, 82)));
    assert_eq!(tomato().desaturate(UNIT), Ok(Color::RGB(128, 128, 128)));
    assert_eq!(
        tomato().desaturate(200_000),
        tomato().combine(&Color::HSL(0, 0, 500_000), 200_000, "RGB")
    );
}

#[test]
fn grayscale_is_middle_gray() {
    let colors = [
        tomato(),
        Color::RGB(0, 0, 0),
        Color::RGB(255, 255, 255),
        Color::RGB(12, 200, 99),
        Color::HSL(243, 1_000_000, 380_000),
    ];
    for c in &colors {
        let gray = c.grayscale().unwrap();
        assert_eq!(gray, Color::RGB(128, 128, 128));
        let (r, g, b) = gray.split().unwrap();
        assert!(r == g && g == b);
        match gray.to_hsl() {
            Ok(Color::HSL(_, s, _)) => assert_eq!(s, 0),
            other => panic!("not an HSL color: {:?}", other),
        }
        assert_eq!(c.grayscale(), c.desaturate(UNIT));
    }
    assert_eq!(Color::RGB(128, 128, 128).to_hsl(), Ok(Color::HSL(0, 0, 501_961)));
}

#[test]
fn hue_rotate_adds_degrees() {
    assert_eq!(tomato().hue_rotate(90), Ok(Color::HSL(99, 1_000_000, 639_216)));
    assert_eq!(tomato().hue_rotate(90).unwrap().to_rgb(), Ok(Color::RGB(135, 255, 71)));
    assert_eq!(tomato().hue_rotate(0), tomato().to_hsl());
    assert_eq!(tomato().hue_rotate(360), tomato().to_hsl());
}

#[test]
fn hue_rotate_wraps_at_a_full_turn() {
    let c = Color::HSL(350, 1_000_000, 500_000);
    assert_eq!(c.to_rgb(), Ok(Color::RGB(255, 0, 42)));
    assert_eq!(c.to_hsl(), Ok(Color::HSL(350, 1_000_000, 500_000)));
    assert_eq!(c.hue_rotate(20), Ok(Color::HSL(10, 1_000_000, 500_000)));
    assert_eq!(
        Color::HSL(350, 1_000_000, 494_118).hue_rotate(20),
        Ok(Color::HSL(10, 1_000_000, 494_118))
    );
    assert_eq!(
        Color::HSL(350, 500_000, 250_000).hue_rotate(20),
        Ok(Color::HSL(10, 500_000, 250_980))
    );
    assert_eq!(
        Color::HSL(350, 1_000_000, 300_000).hue_rotate(20),
        Ok(Color::HSL(10, 1_000_000, 300_000))
    );
    assert_eq!(Color::RGB(255, 0, 21).hue_rotate(20), Ok(Color::HSL(15, 1_000_000, 500_000)));
    assert_eq!(Color::RGB(255, 0, 21).hue_rotate(5), Ok(Color::HSL(0, 1_000_000, 500_000)));
}

#[test]
fn hue_rotate_starts_from_the_computed_hue() {
    // one degree is a quarter of a step more than 4 of 255, and 4 of 255 is short of a degree
    let c = Color::HSL(1, 1_000_000, 500_000);
    assert_eq!(c.to_rgb(), Ok(Color::RGB(255, 4, 0)));
    assert_eq!(c.to_hsl(), Ok(Color::HSL(0, 1_000_000, 500_000)));
    assert_eq!(c.hue_rotate(20), Ok(Color::HSL(20, 1_000_000, 500_000)));
    // a gray has hue 0 whatever hue it was given with
    assert_eq!(Color::HSL(350, 0, 500_000).hue_rotate(20), Ok(Color::HSL(20, 0, 501_961)));
}

#[test]
fn hue_rotate_takes_any_angle() {
    assert_eq!(tomato().hue_rotate(65535), Ok(Color::HSL(24, 1_000_000, 639_216)));
    assert_eq!(Color::RGB(255, 0, 4).hue_rotate(65535), Ok(Color::HSL(14, 1_000_000, 500_000)));
    assert_eq!(rotate(359, 65535), 14);
    assert_eq!(rotate(350, 20), 10);
    assert_eq!(rotate(0, 0), 0);
    assert_eq!(rotate(65535, 65535), 30);
    let mut angle: u32 = 0;
    while angle < 65536 {
        match Color::RGB(255, 0, 4).hue_rotate(angle as u16) {
            Ok(Color::HSL(h, _, _)) => assert!(h < 360),
            other => panic!("not an HSL color: {:?}", other),
        }
        angle += 7;
    }
}

#[test]
fn invert_is_half_a_turn() {
    assert_eq!(Color::RGB(255, 99, 71).invert(), Ok(Color::HSL(189, 1_000_000, 639_216)));
    assert_eq!(Color::RGB(255, 99, 71).invert(), Color::RGB(255, 99, 71).hue_rotate(180));
    assert_eq!(tomato().invert().unwrap().to_rgb(), Ok(Color::RGB(71, 227, 255)));
    assert_eq!(Color::RGB(0, 255, 255).invert(), Ok(Color::HSL(0, 1_000_000, 500_000)));
}

#[test]
fn effects_fail_on_an_unreadable_color() {
    let c = unreadable();
    assert_eq!(c.darken(100_000), Err(ColorError::InvalidHex));
    assert_eq!(c.lighten(100_000), Err(ColorError::InvalidHex));
    assert_eq!(c.saturate(100_000), Err(ColorError::InvalidHex));
    assert_eq!(c.desaturate(100_000), Err(ColorError::InvalidHex));
    assert_eq!(c.grayscale(), Err(ColorError::InvalidHex));
    assert_eq!(c.hue_rotate(90), Err(ColorError::InvalidHex));
    assert_eq!(c.invert(), Err(ColorError::InvalidHex));
}

#[test]
fn effects_leave_the_color_alone() {
    let c = tomato();
    let _ = c.darken(500_000);
    let _ = c.hue_rotate(90);
    let _ = c.grayscale();
    assert_eq!(c, Color::Hex(String::from("ff6347")));
}

#[test]
fn sample_walk() {
    let first = tomato().to_rgb().unwrap();
    let second = Color::HSL(243, 1_000_000, 380_000).to_rgb().unwrap();
    assert_eq!(first, Color::RGB(255, 99, 71));
    assert_eq!(second, Color::RGB(10, 0, 194));
    let steps = [
        (first.combine(&second, 500_000, "RGB"), (132, 49, 132), "843184"),
        (first.combine(&second, 500_000, "HSL"), (5, 255, 30), "05ff1e"),
        (first.darken(200_000), (204, 79, 56), "cc4f38"),
        (first.lighten(200_000), (255, 130, 107), "ff826b"),
        (first.saturate(200_000), (255, 79, 56), "ff4f38"),
        (first.desaturate(200_000), (229, 104, 82), "e56852"),
        (first.grayscale(), (128, 128, 128), "808080"),
        (first.hue_rotate(90), (135, 255, 71), "87ff47"),
        (first.invert(), (71, 227, 255), "47e3ff"),
    ];
    for (step, rgb, text) in &steps {
        let c = step.clone().unwrap();
        assert_eq!(c.split(), Ok(*rgb));
        assert_eq!(c.to_hex(), Ok(Color::Hex(String::from(*text))));
    }
}
