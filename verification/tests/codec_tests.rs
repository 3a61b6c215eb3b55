use home_buyer::codec::{parse_count, parse_micro, push_money, push_rate};

fn parse(s: &str) -> Option<i64> {
    parse_micro(&s.as_bytes().to_vec())
}

fn money(v: i64) -> String {
    let mut out: Vec<u8> = Vec::new();
    push_money(&mut out, v);
    String::from_utf8(out).unwrap()
}

fn rate(v: i64) -> String {
    let mut out: Vec<u8> = Vec::new();
    push_rate(&mut out, v);
    String::from_utf8(out).unwrap()
}

#[test]
fn parse_whole_numbers() {
    assert_eq!(parse("0"), Some(0));
    assert_eq!(parse("7"), Some(7_000_000));
    assert_eq!(parse("300000"), Some(300_000_000_000));
    assert_eq!(parse("099"), Some(99_000_000));
}

#[test]
fn parse_decimals() {
    assert_eq!(parse("123.45"), Some(123_450_000));
    assert_eq!(parse("0.35"), Some(350_000));
    assert_eq!(parse("6.5"), Some(6_500_000));
    assert_eq!(parse("1."), Some(1_000_000));
    assert_eq!(parse(".5"), Some(500_000));
    assert_eq!(parse("2.000001"), Some(2_000_001));
}

#[test]
fn parse_truncates_past_six_decimals() {
    assert_eq!(parse("0.0000019"), Some(1));
    assert_eq!(parse("1.9999999"), Some(1_999_999));
}

#[test]
fn parse_signed() {
    assert_eq!(parse("-3.5"), Some(-3_500_000));
    assert_eq!(parse("-0"), Some(0));
    assert_eq!(parse("3-5"), None);
    assert_eq!(parse("--1"), None);
    assert_eq!(parse("-"), None);
}

#[test]
fn parse_rejects_malformed() {
    assert_eq!(parse(""), None);
    assert_eq!(parse("."), None);
    assert_eq!(parse("1.2.3"), None);
    assert_eq!(parse("12a"), None);
    assert_eq!(parse(" 1"), None);
}

#[test]
fn parse_rejects_out_of_range() {
    assert_eq!(parse("99999999"), Some(99_999_999_000_000));
    assert_eq!(parse("100000000"), None);
    assert_eq!(parse("123456789123"), None);
}

#[test]
fn parse_count_accepts_terms() {
    assert_eq!(parse_count(&b"30".to_vec(), 1, 100), Some(30));
    assert_eq!(parse_count(&b"1".to_vec(), 1, 100), Some(1));
    assert_eq!(parse_count(&b"100".to_vec(), 1, 100), Some(100));
}

#[test]
fn parse_count_rejects() {
    assert_eq!(parse_count(&b"0".to_vec(), 1, 100), None);
    assert_eq!(parse_count(&b"101".to_vec(), 1, 100), None);
    assert_eq!(parse_count(&b"30.5".to_vec(), 1, 100), None);
    assert_eq!(parse_count(&b"".to_vec(), 1, 100), None);
}

#[test]
fn money_formats_two_decimals() {
    assert_eq!(money(0), "0.00");
    assert_eq!(money(1_000_000), "1.00");
    assert_eq!(money(119_000_000_000), "119000.00");
    assert_eq!(money(1_234_560_000), "1234.56");
}

#[test]
fn money_rounds_half_away_from_zero() {
    assert_eq!(money(1_439_325_000), "1439.33");
    assert_eq!(money(1_439_324_999), "1439.32");
    assert_eq!(money(-1_439_325_000), "-1439.33");
    assert_eq!(money(-500), "-0.00");
    assert_eq!(money(4_999), "0.00");
    assert_eq!(money(5_000), "0.01");
}

#[test]
fn rate_formats_four_decimals() {
    assert_eq!(rate(0), "0.0000");
    assert_eq!(rate(65_000), "0.0650");
    assert_eq!(rate(60_000), "0.0600");
    assert_eq!(rate(1_000_000), "1.0000");
    assert_eq!(rate(123_456), "0.1235");
    assert_eq!(rate(-30_000), "-0.0300");
}

#[test]
fn format_then_parse_round_trips_at_printed_precision() {
    let values: [i64; 7] = [
        0,
        1_000_000,
        1_439_321_234,
        -250_004_999,
        99_999_999_000_000,
        123,
        5_000,
    ];
    for &v in values.iter() {
        let text = money(v);
        let reparsed = parse(&text).unwrap();
        let m = v.abs();
        let cents = (m + 5000) / 10_000;
        let rounded = cents * 10_000 * if v < 0 { -1 } else { 1 };
        assert_eq!(reparsed, rounded);
    }
}
