use ansi_parser::digits::{parse_int, parse_int_or_one, push_decimal};

#[test]
fn parse_int_takes_the_longest_run_of_digits() {
    assert_eq!(parse_int(b"123abc"), Some((123, 3)));
    assert_eq!(parse_int(b"12x"), Some((12, 2)));
    assert_eq!(parse_int(b"7"), Some((7, 1)));
    assert_eq!(parse_int(b"0"), Some((0, 1)));
    assert_eq!(parse_int(b"42;17"), Some((42, 2)));
    assert_eq!(parse_int(b"1234567890"), Some((1234567890, 10)));
}

#[test]
fn parse_int_needs_a_digit_in_front() {
    assert_eq!(parse_int(b""), None);
    assert_eq!(parse_int(b"abc"), None);
    assert_eq!(parse_int(b" 1"), None);
    assert_eq!(parse_int(b"-1"), None);
    assert_eq!(parse_int(b"+1"), None);
    assert_eq!(parse_int(b";1"), None);
    assert_eq!(parse_int(b"/1"), None);
    assert_eq!(parse_int(b":1"), None);
}

#[test]
fn parse_int_does_not_treat_zeros_specially() {
    assert_eq!(parse_int(b"000"), Some((0, 3)));
    assert_eq!(parse_int(b"0012"), Some((12, 4)));
    assert_eq!(
        parse_int(b"000000000000000000000000000001"),
        Some((1, 30))
    );
}

#[test]
fn parse_int_fails_where_the_value_does_not_fit() {
    assert_eq!(parse_int(b"4294967295"), Some((4294967295, 10)));
    assert_eq!(parse_int(b"4294967296"), None);
    assert_eq!(parse_int(b"4294967295x"), Some((4294967295, 10)));
    assert_eq!(parse_int(b"42949672950"), None);
    assert_eq!(parse_int(b"18446744073709551616"), None);
    assert_eq!(parse_int(b"99999999999999999999999999999999999999999"), None);
}

#[test]
fn parse_int_only_knows_ascii_digits() {
    assert_eq!(parse_int("١٢٣".as_bytes()), None);
    assert_eq!(parse_int("1٢".as_bytes()), Some((1, 1)));
}

#[test]
fn parse_int_or_one_puts_one_for_nothing() {
    assert_eq!(parse_int_or_one(b""), Some((1, 0)));
    assert_eq!(parse_int_or_one(b"H"), Some((1, 0)));
    assert_eq!(parse_int_or_one(b";5H"), Some((1, 0)));
    assert_eq!(parse_int_or_one(b"5H"), Some((5, 1)));
    assert_eq!(parse_int_or_one(b"0H"), Some((0, 1)));
    assert_eq!(parse_int_or_one(b"123456H"), Some((123456, 6)));
}

#[test]
fn parse_int_or_one_fails_where_the_value_does_not_fit() {
    assert_eq!(parse_int_or_one(b"4294967296H"), None);
    assert_eq!(parse_int_or_one(b"4294967295H"), Some((4294967295, 10)));
}

#[test]
fn push_decimal_writes_the_shortest_spelling() {
    let mut out = Vec::new();
    push_decimal(&mut out, 0);
    assert_eq!(out, b"0".to_vec());
    push_decimal(&mut out, 7);
    assert_eq!(out, b"07".to_vec());
    push_decimal(&mut out, 10);
    assert_eq!(out, b"0710".to_vec());
    push_decimal(&mut out, 4294967295);
    assert_eq!(out, b"07104294967295".to_vec());
}

#[test]
fn push_decimal_is_read_back_by_parse_int() {
    let values: [u32; 8] = [0, 1, 9, 10, 99, 100, 65535, 4294967295];
    for value in values {
        let mut out = Vec::new();
        push_decimal(&mut out, value);
        let digits = out.len();
        out.push(b';');
        assert_eq!(parse_int(&out), Some((value, digits)));
    }
}
