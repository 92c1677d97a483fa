use tiled::text::{is_float_text, parse_bool, parse_i32, parse_u32, parse_u8, IntErrorKind};
use tiled::util::floor_div;

#[test]
fn floor_div_rounds_towards_negative_infinity() {
    assert_eq!(floor_div(7, 2), 3);
    assert_eq!(floor_div(-7, 2), -4);
    assert_eq!(floor_div(7, -2), -4);
    assert_eq!(floor_div(-7, -2), 3);
    assert_eq!(floor_div(6, 3), 2);
    assert_eq!(floor_div(-6, 3), -2);
    assert_eq!(floor_div(0, 5), 0);
    assert_eq!(floor_div(i32::MIN, 1), i32::MIN);
    assert_eq!(floor_div(i32::MIN, 2), -1073741824);
    assert_eq!(floor_div(i32::MAX, -1), -i32::MAX);
    assert_eq!(floor_div(-1, 16), -1);
}

#[test]
fn integers_read_like_the_standard_library() {
    assert_eq!(parse_i32("42"), Ok(42));
    assert_eq!(parse_i32("-42"), Ok(-42));
    assert_eq!(parse_i32("+7"), Ok(7));
    assert_eq!(parse_i32("-2147483648"), Ok(i32::MIN));
    assert_eq!(parse_i32("2147483647"), Ok(i32::MAX));
    assert_eq!(parse_i32("2147483648"), Err(IntErrorKind::PosOverflow));
    assert_eq!(parse_i32("-2147483649"), Err(IntErrorKind::NegOverflow));
    assert_eq!(parse_i32(""), Err(IntErrorKind::Empty));
    assert_eq!(parse_i32("-"), Err(IntErrorKind::InvalidDigit));
    assert_eq!(parse_i32("+"), Err(IntErrorKind::InvalidDigit));
    assert_eq!(parse_i32("1x"), Err(IntErrorKind::InvalidDigit));
    assert_eq!(parse_i32(" 1"), Err(IntErrorKind::InvalidDigit));
    assert_eq!(parse_u32("-1"), Err(IntErrorKind::InvalidDigit));
    assert_eq!(parse_u32("4294967295"), Ok(u32::MAX));
    assert_eq!(parse_u32("4294967296"), Err(IntErrorKind::PosOverflow));
    assert_eq!(parse_u8("255"), Ok(255));
    assert_eq!(parse_u8("256"), Err(IntErrorKind::PosOverflow));
    assert_eq!(parse_u8("0007"), Ok(7));
    assert_eq!(parse_u8("99999x"), Err(IntErrorKind::PosOverflow));
}

#[test]
fn integers_agree_with_std_parse() {
    for s in ["0", "12", "-12", "+12", "", "-", "+", "abc", "1_000", "99999999999", "-99999999999", "٣"] {
        let ours = parse_i32(s).map_err(|k| k.message());
        let theirs = s.parse::<i32>().map_err(|e| e.to_string());
        assert_eq!(ours, theirs, "{:?}", s);
        let ours = parse_u32(s).map_err(|k| k.message());
        let theirs = s.parse::<u32>().map_err(|e| e.to_string());
        assert_eq!(ours, theirs, "{:?}", s);
        let ours = parse_u8(s).map_err(|k| k.message());
        let theirs = s.parse::<u8>().map_err(|e| e.to_string());
        assert_eq!(ours, theirs, "{:?}", s);
    }
}

#[test]
fn booleans_are_true_or_false_exactly() {
    assert_eq!(parse_bool("true"), Some(true));
    assert_eq!(parse_bool("false"), Some(false));
    assert_eq!(parse_bool("True"), None);
    assert_eq!(parse_bool(""), None);
    assert_eq!(parse_bool("1"), None);
}

#[test]
fn float_literals_follow_the_standard_grammar() {
    for s in [
        "1", "1.", ".5", "1.5", "-1.5", "+0.25", "1e5", "1E-5", "2.5e+10", "inf", "-Infinity", "NaN",
        "", ".", "e5", "1e", "1e+", "--1", "1.2.3", "0x10", " 1", "1 ", "infinit", "nan1", "1.5f",
    ] {
        assert_eq!(is_float_text(s), s.parse::<f32>().is_ok(), "{:?}", s);
    }
}
