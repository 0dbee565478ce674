use literary_clock::text::{
    append_decimal, append_signed, append_two_wide, last_char, parse_number, remove_char,
};

#[test]
fn last_char_of_text_and_of_nothing() {
    assert_eq!(last_char("abc/"), Some('/'));
    assert_eq!(last_char("né"), Some('é'));
    assert_eq!(last_char(""), None);
}

#[test]
fn remove_char_takes_out_every_occurrence() {
    assert_eq!(remove_char("a\r\nb\r", '\r'), "a\nb");
    assert_eq!(remove_char("\r\r", '\r'), "");
    assert_eq!(remove_char("plain", '\r'), "plain");
    assert_eq!(remove_char("", '\r'), "");
}

#[test]
fn parse_number_reads_digits() {
    assert_eq!(parse_number(b"x42y", 1, 3), Some(42));
    assert_eq!(parse_number(b"007", 0, 3), Some(7));
    assert_eq!(parse_number(b"0", 0, 1), Some(0));
    assert_eq!(parse_number(b"2147483647", 0, 10), Some(i32::MAX));
}

#[test]
fn parse_number_rejects_what_is_no_number() {
    assert_eq!(parse_number(b"42", 1, 1), None);
    assert_eq!(parse_number(b"4a", 0, 2), None);
    assert_eq!(parse_number(b"-4", 0, 2), None);
    assert_eq!(parse_number(b"2147483648", 0, 10), None);
    assert_eq!(parse_number(b"99999999999999999999", 0, 20), None);
    assert_eq!(parse_number("٣".as_bytes(), 0, 2), None);
}

#[test]
fn decimal_of_unsigned_numbers() {
    let mut out = String::from("n=");
    append_decimal(&mut out, 0);
    assert_eq!(out, "n=0");
    let mut out = String::new();
    append_decimal(&mut out, 10);
    append_decimal(&mut out, 907);
    assert_eq!(out, "10907");
    let mut out = String::new();
    append_decimal(&mut out, u64::MAX);
    assert_eq!(out, "18446744073709551615");
}

#[test]
fn decimal_of_signed_numbers() {
    let mut out = String::new();
    append_signed(&mut out, -5);
    assert_eq!(out, "-5");
    let mut out = String::new();
    append_signed(&mut out, i32::MIN);
    assert_eq!(out, format!("{}", i32::MIN));
    let mut out = String::new();
    append_signed(&mut out, 24);
    assert_eq!(out, "24");
}

#[test]
fn two_wide_pads_single_digits() {
    for n in [0, 5, 9, 10, 30, 59, 123, -3, -30] {
        let mut out = String::new();
        append_two_wide(&mut out, n);
        assert_eq!(out, format!("{:02}", n));
    }
}
