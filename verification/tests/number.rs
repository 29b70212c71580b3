use string_ops::number::{padded_decimal, parse_number, push_decimal};

#[test]
fn digits_are_read_as_a_number() {
    assert_eq!(parse_number("0"), Some(0));
    assert_eq!(parse_number("00"), Some(0));
    assert_eq!(parse_number("07"), Some(7));
    assert_eq!(parse_number("42"), Some(42));
    assert_eq!(parse_number("99"), Some(99));
    assert_eq!(parse_number("0000000000000123"), Some(123));
}

#[test]
fn what_is_no_number_is_not_read() {
    assert_eq!(parse_number(""), None);
    assert_eq!(parse_number("4a"), None);
    assert_eq!(parse_number("a4"), None);
    assert_eq!(parse_number(" 4"), None);
    assert_eq!(parse_number("-4"), None);
    assert_eq!(parse_number("+4"), None);
    assert_eq!(parse_number("٣٤"), None);
    assert_eq!(parse_number("４"), None);
}

#[test]
fn numbers_are_read_up_to_the_limit() {
    assert_eq!(parse_number("2147483647"), Some(2147483647));
    assert_eq!(parse_number("2147483648"), None);
    assert_eq!(parse_number("4294967296"), None);
    assert_eq!(parse_number("99999999999999999999"), None);
    assert_eq!(parse_number("99999999999999999999x"), None);
}

#[test]
fn numbers_are_written_to_a_width() {
    assert_eq!(padded_decimal(0, 2), "00");
    assert_eq!(padded_decimal(1, 2), "01");
    assert_eq!(padded_decimal(10, 2), "10");
    assert_eq!(padded_decimal(99, 2), "99");
    assert_eq!(padded_decimal(7, 5), "00007");
    assert_eq!(padded_decimal(7, 1), "7");
    assert_eq!(padded_decimal(7, 0), "7");
    assert_eq!(padded_decimal(0, 0), "0");
}

#[test]
fn number_too_wide_is_written_in_full() {
    assert_eq!(padded_decimal(100, 2), "100");
    assert_eq!(padded_decimal(4294967295, 3), "4294967295");
}

#[test]
fn digits_are_put_at_the_end() {
    let mut out = String::from("n=");
    push_decimal(&mut out, 1203);
    assert_eq!(out, "n=1203");
    push_decimal(&mut out, 0);
    assert_eq!(out, "n=12030");
}

#[test]
fn written_numbers_read_back() {
    for n in [0u32, 1, 9, 10, 99, 100, 101, 65535, 2147483647] {
        for width in [0usize, 1, 2, 3, 12] {
            assert_eq!(parse_number(&padded_decimal(n, width)), Some(n));
            assert_eq!(padded_decimal(n, width), format!("{:0>w$}", n, w = width));
        }
    }
}
