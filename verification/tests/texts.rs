use rhythm_core::number::{
    digit, only_digits, parse_decimal, parse_int, read_digits, read_fraction,
};
use rhythm_core::text::{blank, split, strip_blanks, COLON, COMMA, DOT};

#[test]
fn blanks_are_the_five_ascii_ones() {
    for b in 0..=255u8 {
        let expected = matches!(b, b' ' | b'\t' | b'\n' | b'\r' | 0x0c);
        assert_eq!(blank(b), expected, "byte {}", b);
    }
}

#[test]
fn stripping_keeps_the_rest_in_order() {
    assert_eq!(strip_blanks(b" a b\tc\n\r\x0cd "), b"abcd".to_vec());
    assert_eq!(strip_blanks(b""), Vec::<u8>::new());
    assert_eq!(strip_blanks(b" \n "), Vec::<u8>::new());
    assert_eq!(strip_blanks(b"\x0bx"), b"\x0bx".to_vec());
}

#[test]
fn splitting_gives_one_piece_more_than_separators() {
    assert_eq!(split(b"a,b,c", COMMA), vec![b"a".to_vec(), b"b".to_vec(), b"c".to_vec()]);
    assert_eq!(split(b"", COMMA), vec![Vec::<u8>::new()]);
    assert_eq!(split(b",", COMMA), vec![Vec::<u8>::new(), Vec::<u8>::new()]);
    assert_eq!(split(b"a,,b,", COMMA), vec![b"a".to_vec(), vec![], b"b".to_vec(), vec![]]);
    assert_eq!(split(b"R:1", COLON), vec![b"R".to_vec(), b"1".to_vec()]);
    assert_eq!(split(b"1.5", DOT), vec![b"1".to_vec(), b"5".to_vec()]);
    assert_eq!(split(b"abc", COMMA), vec![b"abc".to_vec()]);
}

#[test]
fn splitting_and_joining_gives_the_text_back() {
    let text = b"R:1,,B:2,:,";
    let pieces = split(text, COMMA);
    assert_eq!(pieces.join(&COMMA), text.to_vec());
    assert!(pieces.iter().all(|p| !p.contains(&COMMA)));
}

#[test]
fn digits_are_zero_to_nine() {
    for b in 0..=255u8 {
        assert_eq!(digit(b), b.is_ascii_digit());
    }
}

#[test]
fn digit_runs_are_read_up_to_a_greatest_value() {
    assert_eq!(read_digits(b"", 9), Some(0));
    assert_eq!(read_digits(b"0", 0), Some(0));
    assert_eq!(read_digits(b"1", 0), None);
    assert_eq!(read_digits(b"9", 9), Some(9));
    assert_eq!(read_digits(b"10", 9), None);
    assert_eq!(read_digits(b"007", 9), Some(7));
    assert_eq!(read_digits(b"00000000000000000000000000000001", 1), Some(1));
    assert_eq!(read_digits(b"999999999", 999_999_999), Some(999_999_999));
    assert_eq!(read_digits(b"1000000000", 999_999_999), None);
    let most: u64 = 1_000_000_000_000_000_000;
    assert_eq!(read_digits(b"1000000000000000000", most), Some(most));
    assert_eq!(read_digits(b"1000000000000000001", most), None);
    assert_eq!(read_digits(b"99999999999999999999999999999999999999999", most), None);
    assert_eq!(read_digits(b"12a", 999), None);
    assert_eq!(read_digits(b"9999999999999999999999999999a", 999), None);
    assert_eq!(read_digits(b"-1", 999), None);
}

#[test]
fn digit_runs_are_told_from_other_text() {
    assert!(only_digits(b""));
    assert!(only_digits(b"0123456789"));
    assert!(!only_digits(b"12.3"));
    assert!(!only_digits(b" 1"));
    assert!(!only_digits(b"1/"));
    assert!(!only_digits(b"1:"));
}

#[test]
fn fractions_are_read_to_the_sixth_place() {
    assert_eq!(read_fraction(b""), Some(0));
    assert_eq!(read_fraction(b"5"), Some(500_000));
    assert_eq!(read_fraction(b"05"), Some(50_000));
    assert_eq!(read_fraction(b"49999"), Some(499_990));
    assert_eq!(read_fraction(b"000001"), Some(1));
    assert_eq!(read_fraction(b"999999"), Some(999_999));
    assert_eq!(read_fraction(b"9999999"), Some(999_999));
    assert_eq!(read_fraction(b"0000009"), Some(0));
    assert_eq!(read_fraction(b"33333333333333333333333333"), Some(333_333));
    assert_eq!(read_fraction(b"5x"), None);
    assert_eq!(read_fraction(b"1234567x"), None);
}

#[test]
fn decimals_are_read_in_millionths() {
    assert_eq!(parse_decimal(b"10"), Some(10_000_000));
    assert_eq!(parse_decimal(b"1.5"), Some(1_500_000));
    assert_eq!(parse_decimal(b"1.49999"), Some(1_499_990));
    assert_eq!(parse_decimal(b"0.000001"), Some(1));
    assert_eq!(parse_decimal(b"-2.25"), Some(-2_250_000));
    assert_eq!(parse_decimal(b"+3"), Some(3_000_000));
    assert_eq!(parse_decimal(b"5."), Some(5_000_000));
    assert_eq!(parse_decimal(b".5"), Some(500_000));
    assert_eq!(parse_decimal(b"-.5"), Some(-500_000));
    assert_eq!(parse_decimal(b"000000000000001.100000"), Some(1_100_000));
    assert_eq!(parse_decimal(b"999999999.999999"), Some(999_999_999_999_999));
    assert_eq!(parse_decimal(b"-999999999.999999"), Some(-999_999_999_999_999));
}

#[test]
fn digits_after_the_sixth_place_are_dropped() {
    assert_eq!(parse_decimal(b"0.1234567"), Some(123_456));
    assert_eq!(parse_decimal(b"0.9999999999"), Some(999_999));
    assert_eq!(parse_decimal(b"-0.9999999999"), Some(-999_999));
    assert_eq!(parse_decimal(b"0.0000009"), Some(0));
    assert_eq!(parse_decimal(b"-0.0000009"), Some(0));
    assert_eq!(parse_decimal(b"999999999.9999999"), Some(999_999_999_999_999));
    assert_eq!(parse_decimal(b"0.33333333333333333333333333333"), Some(333_333));
}

#[test]
fn malformed_decimals_are_refused() {
    for text in [
        &b""[..], b".", b"+", b"-", b"+.", b"1.2.3", b"1..", b"..1", b"1,5", b"1e5", b"inf",
        b"NaN", b"0x10", b"1 ", b" 1", b"--1", b"+-1", b"1-", b"1.-5", b"0.12345x",
        b"0.1234567x", b"1_000",
    ] {
        assert_eq!(parse_decimal(text), None, "{:?}", text);
    }
}

#[test]
fn decimals_of_a_thousand_million_and_more_are_refused() {
    assert_eq!(parse_decimal(b"1000000000"), None);
    assert_eq!(parse_decimal(b"-1000000000"), None);
    assert_eq!(parse_decimal(b"1000000000.0"), None);
    assert_eq!(parse_decimal(b"123456789012345678901234567890"), None);
    assert_eq!(parse_decimal(b"0999999999"), Some(999_999_999_000_000));
}

#[test]
fn whole_numbers_are_read() {
    assert_eq!(parse_int(b"0"), Some(0));
    assert_eq!(parse_int(b"111"), Some(111));
    assert_eq!(parse_int(b"+90"), Some(90));
    assert_eq!(parse_int(b"-5"), Some(-5));
    assert_eq!(parse_int(b"-0"), Some(0));
    assert_eq!(parse_int(b"000000000000000090"), Some(90));
    assert_eq!(parse_int(b"2147483647"), Some(i32::MAX));
    assert_eq!(parse_int(b"+0002147483647"), Some(i32::MAX));
    assert_eq!(parse_int(b"-2147483648"), Some(i32::MIN));
}

#[test]
fn malformed_whole_numbers_are_refused() {
    for text in [
        &b""[..], b"+", b"-", b"1.0", b"1.", b"a", b"12a", b"2147483648", b"-2147483649",
        b"9999999999", b"99999999999999999999999999999999", b" 1", b"+-1", b"1+",
    ] {
        assert_eq!(parse_int(text), None, "{:?}", text);
    }
}

#[test]
fn whole_numbers_agree_with_the_standard_parser() {
    for text in [
        "0", "7", "-7", "+7", "0042", "2147483647", "2147483648", "-2147483648", "-2147483649",
        "", "+", "-", "1 ", "١", "1e3", "0x1f", "--1", "4294967296", "-00000000000000000001",
    ] {
        assert_eq!(parse_int(text.as_bytes()), text.parse::<i32>().ok(), "{:?}", text);
    }
}
