use dggal::bbox::{parse_bbox, parse_number, split_commas, BboxError};

#[test]
fn valid_box_parses_to_nanodegrees() {
    let e = parse_bbox(b"0,-10,10,10").unwrap();
    assert_eq!(e.ll.lat, 0);
    assert_eq!(e.ll.lon, -10_000_000_000);
    assert_eq!(e.ur.lat, 10_000_000_000);
    assert_eq!(e.ur.lon, 10_000_000_000);
}

#[test]
fn fractional_coordinates_parse_exactly() {
    let e = parse_bbox(b"45.5,-120.25,46,-119").unwrap();
    assert_eq!(e.ll.lat, 45_500_000_000);
    assert_eq!(e.ll.lon, -120_250_000_000);
    assert_eq!(e.ur.lat, 46_000_000_000);
    assert_eq!(e.ur.lon, -119_000_000_000);
}

#[test]
fn north_pole_latitude_is_rejected() {
    assert_eq!(parse_bbox(b"90,0,10,10"), Err(BboxError::LatitudeOutOfRange));
}

#[test]
fn south_pole_latitude_is_rejected() {
    assert_eq!(parse_bbox(b"-90,0,10,10"), Err(BboxError::LatitudeOutOfRange));
}

#[test]
fn latitude_just_inside_the_pole_is_accepted() {
    let e = parse_bbox(b"89.999999999,0,10,10").unwrap();
    assert_eq!(e.ll.lat, 89_999_999_999);
}

#[test]
fn three_tokens_are_rejected() {
    assert_eq!(parse_bbox(b"0,-10,10"), Err(BboxError::WrongTokenCount));
}

#[test]
fn five_tokens_are_rejected() {
    assert_eq!(parse_bbox(b"0,-10,10,10,5"), Err(BboxError::WrongTokenCount));
}

#[test]
fn empty_string_is_one_token() {
    assert_eq!(parse_bbox(b""), Err(BboxError::WrongTokenCount));
}

#[test]
fn empty_tokens_are_not_numbers() {
    assert_eq!(parse_bbox(b",,,"), Err(BboxError::NotANumber));
}

#[test]
fn letters_are_not_numbers() {
    assert_eq!(parse_bbox(b"a,b,c,d"), Err(BboxError::NotANumber));
}

#[test]
fn two_decimal_points_are_not_a_number() {
    assert_eq!(parse_bbox(b"1.2.3,0,0,0"), Err(BboxError::NotANumber));
}

#[test]
fn exponent_notation_is_not_accepted() {
    assert_eq!(parse_bbox(b"1e5,0,0,0"), Err(BboxError::NotANumber));
}

#[test]
fn second_latitude_is_not_range_checked() {
    // only the first latitude is range-checked
    let e = parse_bbox(b"0,0,95,0").unwrap();
    assert_eq!(e.ur.lat, 95_000_000_000);
}

#[test]
fn plus_sign_is_accepted() {
    assert_eq!(parse_number(b"+5"), Some(5_000_000_000));
}

#[test]
fn bare_sign_is_not_a_number() {
    assert_eq!(parse_number(b"-"), None);
    assert_eq!(parse_number(b"+"), None);
}

#[test]
fn bare_decimal_point_is_not_a_number() {
    assert_eq!(parse_number(b"."), None);
}

#[test]
fn leading_and_trailing_point_forms_parse() {
    assert_eq!(parse_number(b".5"), Some(500_000_000));
    assert_eq!(parse_number(b"5."), Some(5_000_000_000));
}

#[test]
fn tenth_fractional_digit_is_ignored() {
    assert_eq!(parse_number(b"0.1234567891"), Some(123_456_789));
}

#[test]
fn ten_integer_digits_do_not_fit_the_coordinate_range() {
    assert_eq!(parse_number(b"1234567890"), None);
}

#[test]
fn nine_integer_digits_fit() {
    assert_eq!(parse_number(b"999999999"), Some(999_999_999_000_000_000));
}

#[test]
fn negative_fraction_parses() {
    assert_eq!(parse_number(b"-0.000000001"), Some(-1));
}

#[test]
fn split_keeps_empty_tokens() {
    let toks = split_commas(b"0,,10");
    assert_eq!(toks.len(), 3);
    assert_eq!(toks[0], b"0".to_vec());
    assert_eq!(toks[1], Vec::<u8>::new());
    assert_eq!(toks[2], b"10".to_vec());
}
