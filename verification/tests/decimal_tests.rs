use sniper_bot::decimal::format_hex;
use sniper_bot::decimal::format_u64;
use sniper_bot::decimal::parse_scaled;
use sniper_bot::decimal::parse_u64;

#[test]
fn parse_scaled_integers() {
    assert_eq!(parse_scaled("0"), Some(0));
    assert_eq!(parse_scaled("1"), Some(100_000_000));
    assert_eq!(parse_scaled("100"), Some(10_000_000_000));
    assert_eq!(parse_scaled("99999999999"), Some(9_999_999_999_900_000_000));
}

#[test]
fn parse_scaled_fractions() {
    assert_eq!(parse_scaled("96.2"), Some(9_620_000_000));
    assert_eq!(parse_scaled("95.8"), Some(9_580_000_000));
    assert_eq!(parse_scaled("0.00000001"), Some(1));
    assert_eq!(parse_scaled("0.5"), Some(50_000_000));
    assert_eq!(parse_scaled("25.00000000"), Some(2_500_000_000));
}

#[test]
fn parse_scaled_rejects_bad_grammar() {
    assert_eq!(parse_scaled(""), None);
    assert_eq!(parse_scaled("."), None);
    assert_eq!(parse_scaled(".5"), None);
    assert_eq!(parse_scaled("1."), None);
    assert_eq!(parse_scaled("1..2"), None);
    assert_eq!(parse_scaled("12a"), None);
    assert_eq!(parse_scaled("-1"), None);
    assert_eq!(parse_scaled("1.2.3"), None);
    assert_eq!(parse_scaled(" 1"), None);
}

#[test]
fn parse_scaled_rejects_out_of_range() {
    // Twelve integer digits: one too many.
    assert_eq!(parse_scaled("123456789012"), None);
    // Nine fraction digits: one more than the scale carries.
    assert_eq!(parse_scaled("1.123456789"), None);
}

#[test]
fn parse_u64_values() {
    assert_eq!(parse_u64("0"), Some(0));
    assert_eq!(parse_u64("1597026383085"), Some(1_597_026_383_085));
    assert_eq!(parse_u64("9999999999999999999"), Some(9_999_999_999_999_999_999));
    assert_eq!(parse_u64(""), None);
    assert_eq!(parse_u64("12.5"), None);
    assert_eq!(parse_u64("99999999999999999999"), None);
}

#[test]
fn format_u64_values() {
    assert_eq!(format_u64(0), "0");
    assert_eq!(format_u64(7), "7");
    assert_eq!(format_u64(25), "25");
    assert_eq!(format_u64(1234567890), "1234567890");
    assert_eq!(format_u64(u64::MAX), "18446744073709551615");
}

#[test]
fn format_hex_values() {
    assert_eq!(format_hex(0), "0");
    assert_eq!(format_hex(10), "a");
    assert_eq!(format_hex(0x270f), "270f");
    assert_eq!(format_hex(0xdeadbeef), "deadbeef");
}

#[test]
fn decimal_round_trip_through_wire_form() {
    // A value formatted as whole units parses back to the scaled value.
    let s = format_u64(25);
    assert_eq!(parse_scaled(&s), Some(25 * 100_000_000));
}
