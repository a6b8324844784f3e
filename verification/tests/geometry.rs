use lemonade::geometry::{parse_geometry, GeomError};

#[test]
fn full_geometry_parses() {
    assert_eq!(parse_geometry("100x20+5+7").unwrap(), (100, 20, 5, 7));
}

#[test]
fn width_alone_parses() {
    assert_eq!(parse_geometry("300").unwrap(), (300, 0, 0, 0));
}

#[test]
fn width_and_height_parse() {
    assert_eq!(parse_geometry("300x25").unwrap(), (300, 25, 0, 0));
}

#[test]
fn empty_width_reads_as_zero() {
    assert_eq!(parse_geometry("x20").unwrap(), (0, 20, 0, 0));
}

#[test]
fn empty_string_reads_as_zeros() {
    assert_eq!(parse_geometry("").unwrap(), (0, 0, 0, 0));
}

#[test]
fn single_offset_is_x() {
    assert_eq!(parse_geometry("+15").unwrap(), (0, 0, 15, 0));
    assert_eq!(parse_geometry("200x30+10").unwrap(), (200, 30, 10, 0));
}

#[test]
fn negative_numbers_parse() {
    assert_eq!(parse_geometry("-5x10").unwrap(), (-5, 10, 0, 0));
    assert_eq!(parse_geometry("10x10+-3+-4").unwrap(), (10, 10, -3, -4));
}

#[test]
fn malformed_numbers_are_rejected() {
    assert_eq!(parse_geometry("axb").unwrap_err(), GeomError::InvalidNumber);
    assert_eq!(parse_geometry("10x2q").unwrap_err(), GeomError::InvalidNumber);
    assert_eq!(parse_geometry("10x10+z+1").unwrap_err(), GeomError::InvalidNumber);
}

#[test]
fn thirty_two_bit_bounds_are_exact() {
    assert_eq!(parse_geometry("2147483647").unwrap(), (2147483647, 0, 0, 0));
    assert_eq!(parse_geometry("2147483648").unwrap_err(), GeomError::InvalidNumber);
    assert_eq!(parse_geometry("+-2147483648").unwrap(), (0, 0, -2147483648, 0));
    assert_eq!(parse_geometry("+-2147483649").unwrap_err(), GeomError::InvalidNumber);
    assert_eq!(parse_geometry("12x9999999999+1+2").unwrap_err(), GeomError::InvalidNumber);
}

#[test]
fn plus_signed_numbers_parse() {
    assert_eq!(parse_geometry("+7x3").unwrap_err(), GeomError::InvalidNumber);
    // The lone `+` starts the offsets, so the `3` is the x offset and the
    // height field is empty.
    assert_eq!(parse_geometry("7x+3").unwrap(), (7, 0, 3, 0));
}
