use seqhash::text::{decimal_string, hex_string, parse_decimal};

#[test]
fn decimal_string_writes_numerals_without_leading_zeros() {
    assert_eq!(decimal_string(0), "0");
    assert_eq!(decimal_string(7), "7");
    assert_eq!(decimal_string(10), "10");
    assert_eq!(decimal_string(109), "109");
    assert_eq!(decimal_string(1234567890), "1234567890");
    assert_eq!(decimal_string(u64::MAX), "18446744073709551615");
}

#[test]
fn decimal_string_agrees_with_the_standard_library() {
    let mut value: u64 = 1;
    for _ in 0..64 {
        assert_eq!(decimal_string(value), value.to_string());
        assert_eq!(decimal_string(value - 1), (value - 1).to_string());
        value = value.wrapping_mul(2);
    }
    let mut value: u64 = 1;
    for _ in 0..19 {
        assert_eq!(decimal_string(value), value.to_string());
        assert_eq!(decimal_string(value - 1), (value - 1).to_string());
        value *= 10;
    }
}

#[test]
fn hex_string_writes_two_lower_case_digits_for_each_byte() {
    assert_eq!(hex_string(&[]), "");
    assert_eq!(hex_string(&[0]), "00");
    assert_eq!(hex_string(&[1, 2, 3, 15, 16]), "0102030f10");
    assert_eq!(hex_string(&[0xf9, 0xb4, 0xca]), "f9b4ca");
    assert_eq!(hex_string(&[0xff, 0xa0, 0x0a]), "ffa00a");
    assert_eq!(hex_string(b"Hello world!"), "48656c6c6f20776f726c6421");
}

#[test]
fn hex_string_agrees_with_the_hex_crate() {
    let all: Vec<u8> = (0..=255u8).collect();
    assert_eq!(hex_string(&all), hex::encode(&all));
    assert_eq!(hex_string(&all).len(), 512);
}

#[test]
fn parse_decimal_reads_numerals() {
    assert_eq!(parse_decimal("0"), Some(0));
    assert_eq!(parse_decimal("7"), Some(7));
    assert_eq!(parse_decimal("42"), Some(42));
    assert_eq!(parse_decimal("18446744073709551615"), Some(u64::MAX));
}

#[test]
fn parse_decimal_accepts_a_plus_sign_and_leading_zeros() {
    assert_eq!(parse_decimal("+5"), Some(5));
    assert_eq!(parse_decimal("007"), Some(7));
    assert_eq!(parse_decimal("+000"), Some(0));
    assert_eq!(parse_decimal("0000000000000000000000000000000000000001"), Some(1));
}

#[test]
fn parse_decimal_refuses_what_is_no_numeral() {
    assert_eq!(parse_decimal(""), None);
    assert_eq!(parse_decimal("+"), None);
    assert_eq!(parse_decimal("-"), None);
    assert_eq!(parse_decimal("-5"), None);
    assert_eq!(parse_decimal("++5"), None);
    assert_eq!(parse_decimal("5+"), None);
    assert_eq!(parse_decimal(" 5"), None);
    assert_eq!(parse_decimal("5 "), None);
    assert_eq!(parse_decimal("12a"), None);
    assert_eq!(parse_decimal("0x10"), None);
    assert_eq!(parse_decimal("1_000"), None);
    assert_eq!(parse_decimal("\u{663}"), None);
    assert_eq!(parse_decimal("0afb83810ccda4270ccbb36128d7258b"), None);
}

#[test]
fn parse_decimal_refuses_numbers_beyond_64_bits() {
    assert_eq!(parse_decimal("18446744073709551616"), None);
    assert_eq!(parse_decimal("18446744073709551620"), None);
    assert_eq!(parse_decimal("99999999999999999999"), None);
    assert_eq!(parse_decimal("100000000000000000000000"), None);
    assert_eq!(parse_decimal("+18446744073709551616"), None);
}

#[test]
fn parse_decimal_agrees_with_the_standard_library() {
    let samples = vec![
        "", "+", "-", "0", "+0", "-0", "1", "01", "+1", "-1", "+-1", "1+", "12a", "a12", " 12",
        "12 ", "1.5", "1e3", "18446744073709551615", "18446744073709551616",
        "018446744073709551615", "+18446744073709551615", "184467440737095516150",
        "\u{ff11}", "\u{967}", "9223372036854775808",
    ];
    for sample in samples {
        assert_eq!(parse_decimal(sample), sample.parse::<u64>().ok());
    }
}

#[test]
fn reading_back_a_written_numeral_gives_the_number() {
    let values = vec![0u64, 1, 9, 10, 99, 100, 12345, u64::MAX - 1, u64::MAX, 1 << 63, 1 << 32];
    for value in values {
        assert_eq!(parse_decimal(&decimal_string(value)), Some(value));
    }
}
