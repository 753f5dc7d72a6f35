use color::{Color, UNIT};

#[test]
fn renders_each_notation() {
    assert_eq!(Color::Hex(String::from("ff6347")).render(), "Hex - #ff6347");
    assert_eq!(Color::RGB(255, 99, 71).render(), "RGB - R: 255, G: 99, B: 71");
    assert_eq!(Color::HSL(9, 1_000_000, 639_216).render(), "HSL - H: 9, S: 1, L: 0.639216");
}

#[test]
fn renders_numbers_in_decimal() {
    assert_eq!(Color::RGB(0, 10, 100).render(), "RGB - R: 0, G: 10, B: 100");
    assert_eq!(Color::RGB(9, 90, 109).render(), "RGB - R: 9, G: 90, B: 109");
    assert_eq!(Color::HSL(65535, 0, 0).render(), "HSL - H: 65535, S: 0, L: 0");
    assert_eq!(Color::HSL(360, UNIT, 2 * UNIT).render(), "HSL - H: 360, S: 1, L: 2");
}

#[test]
fn renders_fractions_with_the_decimals_they_need() {
    assert_eq!(Color::HSL(0, 0, 500_000).render(), "HSL - H: 0, S: 0, L: 0.5");
    assert_eq!(Color::HSL(243, 1_000_000, 380_000).render(), "HSL - H: 243, S: 1, L: 0.38");
    assert_eq!(Color::HSL(1, 1, 100).render(), "HSL - H: 1, S: 0.000001, L: 0.0001");
    assert_eq!(Color::HSL(1, 100_000, 10).render(), "HSL - H: 1, S: 0.1, L: 0.00001");
    assert_eq!(Color::HSL(1, 999_999, 1_000_001).render(), "HSL - H: 1, S: 0.999999, L: 1.000001");
    assert_eq!(Color::HSL(1, 120_030, 12_345_678).render(), "HSL - H: 1, S: 0.12003, L: 12.345678");
}

#[test]
fn renders_negative_and_extreme_fractions() {
    assert_eq!(
        Color::HSL(10, -250_000, 1_500_001).render(),
        "HSL - H: 10, S: -0.25, L: 1.500001"
    );
    assert_eq!(Color::HSL(10, -1_000_000, -1).render(), "HSL - H: 10, S: -1, L: -0.000001");
    assert_eq!(
        Color::HSL(10, i32::MAX, i32::MIN).render(),
        "HSL - H: 10, S: 2147.483647, L: -2147.483648"
    );
}

#[test]
fn renders_hex_text_as_it_is() {
    assert_eq!(Color::Hex(String::new()).render(), "Hex - #");
    assert_eq!(Color::Hex(String::from("not a color")).render(), "Hex - #not a color");
    assert_eq!(Color::Hex(String::from("FF6347")).render(), "Hex - #FF6347");
}

#[test]
fn rendering_is_repeatable() {
    let c = Color::HSL(126, 1_000_000, 509_804);
    assert_eq!(c.render(), c.render());
    assert_eq!(c.render(), "HSL - H: 126, S: 1, L: 0.509804");
}
