use log_grabber::text::{decimal_string, join, join3, parse_decimal_bytes, parse_decimal_text};

#[test]
fn decimal_numbers_are_read() {
    assert_eq!(parse_decimal_text("0"), Some(0));
    assert_eq!(parse_decimal_text("42"), Some(42));
    assert_eq!(parse_decimal_text("007"), Some(7));
    assert_eq!(parse_decimal_text("+13"), Some(13));
    assert_eq!(parse_decimal_text("18446744073709551615"), Some(u64::MAX));
    assert_eq!(parse_decimal_bytes(b"1000"), Some(1000));
}

#[test]
fn what_is_no_decimal_number_is_not_read() {
    assert_eq!(parse_decimal_text(""), None);
    assert_eq!(parse_decimal_text("+"), None);
    assert_eq!(parse_decimal_text("-1"), None);
    assert_eq!(parse_decimal_text("++1"), None);
    assert_eq!(parse_decimal_text("1+"), None);
    assert_eq!(parse_decimal_text(" 1"), None);
    assert_eq!(parse_decimal_text("1 "), None);
    assert_eq!(parse_decimal_text("12a"), None);
    assert_eq!(parse_decimal_text("1.5"), None);
    assert_eq!(parse_decimal_text("\u{663}"), None);
    assert_eq!(parse_decimal_text("18446744073709551616"), None);
    assert_eq!(parse_decimal_text("99999999999999999999999"), None);
    assert_eq!(parse_decimal_text("99999999999999999999999x"), None);
}

#[test]
fn reading_agrees_with_std() {
    for text in ["0", "1", "+1", "-0", "", "+", "00", "123456789", "18446744073709551615",
        "18446744073709551616", "1_000", "0x10", "٣"]
    {
        assert_eq!(parse_decimal_text(text), text.parse::<u64>().ok());
    }
}

#[test]
fn numbers_are_written_in_decimal() {
    assert_eq!(decimal_string(0), "0");
    assert_eq!(decimal_string(7), "7");
    assert_eq!(decimal_string(10), "10");
    assert_eq!(decimal_string(1234567890), "1234567890");
    assert_eq!(decimal_string(u64::MAX), "18446744073709551615");
}

#[test]
fn what_is_written_is_read_back() {
    for n in [0u64, 1, 9, 10, 99, 100, 65535, 65536, u64::MAX - 1, u64::MAX] {
        assert_eq!(parse_decimal_text(&decimal_string(n)), Some(n));
        assert_eq!(decimal_string(n), n.to_string());
    }
}

#[test]
fn texts_are_joined() {
    assert_eq!(join("ab", "cd"), "abcd");
    assert_eq!(join("", ""), "");
    assert_eq!(join3("(", "x", ")"), "(x)");
}
