use lemonade::format::{Colour, FormatError};

#[test]
fn from_hex_three_digits_is_rgb_full_alpha() {
    let c = Colour::from_hex("f00").unwrap();
    assert_eq!(c, Colour { r: 255, g: 0, b: 0, a: 255 });
}

#[test]
fn from_hex_accepts_leading_hash() {
    let c = Colour::from_hex("#f00").unwrap();
    assert_eq!(c, Colour { r: 255, g: 0, b: 0, a: 255 });
}

#[test]
fn from_hex_eight_digits_is_argb() {
    // 0x80 / 255 is roughly 0.502 of full opacity.
    let c = Colour::from_hex("80ff0000").unwrap();
    assert_eq!(c, Colour { a: 128, r: 255, g: 0, b: 0 });
}

#[test]
fn from_hex_four_digits_is_argb_scaled_by_17() {
    let c = Colour::from_hex("1234").unwrap();
    assert_eq!(c, Colour { a: 17, r: 34, g: 51, b: 68 });
}

#[test]
fn from_hex_six_digits_is_rgb() {
    let c = Colour::from_hex("12ab9C").unwrap();
    assert_eq!(c, Colour { r: 0x12, g: 0xab, b: 0x9c, a: 255 });
}

#[test]
fn from_hex_single_digit_scaling_is_lossless() {
    // v / 15 == (17 * v) / 255 exactly, so "8" scales to 0x88.
    let c = Colour::from_hex("888").unwrap();
    assert_eq!(c, Colour { r: 136, g: 136, b: 136, a: 255 });
}

#[test]
fn from_hex_rejects_bad_lengths() {
    assert_eq!(Colour::from_hex("").unwrap_err(), FormatError::InvalidLength);
    assert_eq!(Colour::from_hex("#").unwrap_err(), FormatError::InvalidLength);
    assert_eq!(Colour::from_hex("12345").unwrap_err(), FormatError::InvalidLength);
    assert_eq!(Colour::from_hex("1234567").unwrap_err(), FormatError::InvalidLength);
}

#[test]
fn from_hex_rejects_non_hex_digits() {
    assert_eq!(Colour::from_hex("xyz").unwrap_err(), FormatError::InvalidDigit);
    assert_eq!(Colour::from_hex("#ff00gg").unwrap_err(), FormatError::InvalidDigit);
}

#[test]
fn new_stores_channels() {
    let c = Colour::new(1, 2, 3, 4);
    assert_eq!(c, Colour { r: 1, g: 2, b: 3, a: 4 });
}

#[test]
fn is_colo_accepts_hash_forms() {
    assert!(lemonade::format::is_colo(String::from("#fff")).is_ok());
    assert!(lemonade::format::is_colo(String::from("#abcd")).is_ok());
    assert!(lemonade::format::is_colo(String::from("#00ff00")).is_ok());
    assert!(lemonade::format::is_colo(String::from("#80ff0000")).is_ok());
}

#[test]
fn is_colo_names_the_failed_check() {
    assert_eq!(
        lemonade::format::is_colo(String::new()).unwrap_err(),
        "The colour string must not be empty"
    );
    assert_eq!(
        lemonade::format::is_colo(String::from("fff")).unwrap_err(),
        "Format must be either: #rgb, #argb, #rrggbb, #aarrggbb"
    );
    assert_eq!(
        lemonade::format::is_colo(String::from("#fffff")).unwrap_err(),
        "Invalid number of digits"
    );
    assert_eq!(
        lemonade::format::is_colo(String::from("#ggg")).unwrap_err(),
        "Digits must be hex"
    );
}
