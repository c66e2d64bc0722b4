use auction_bot::text::{
    first_char, int_to_string, parse_i16, parse_i32, parse_integer, push_int_right_aligned,
    push_right_aligned, str_eq, to_ascii_upper, utf8_longer_than,
};

#[test]
fn decimal_numerals() {
    assert_eq!(int_to_string(0), "0");
    assert_eq!(int_to_string(7), "7");
    assert_eq!(int_to_string(-42), "-42");
    assert_eq!(int_to_string(1234567890), "1234567890");
    assert_eq!(int_to_string(i64::MIN), i64::MIN.to_string());
    assert_eq!(int_to_string(i64::MAX), i64::MAX.to_string());
}

#[test]
fn decimal_reads_back() {
    for n in [-32768i64, -1, 0, 1, 9, 10, 99, 100, 32767, 123456] {
        let s = int_to_string(n);
        assert_eq!(parse_integer(&s, -1_000_000, 1_000_000), Some(n));
    }
}

#[test]
fn right_aligned_columns() {
    let mut s = String::new();
    push_int_right_aligned(&mut s, 5, 3);
    assert_eq!(s, "  5");
    let mut s = String::new();
    push_int_right_aligned(&mut s, -12, 4);
    assert_eq!(s, format!("{:>4}", -12));
    let mut s = String::new();
    push_int_right_aligned(&mut s, 123456, 3);
    assert_eq!(s, "123456");
    let mut s = String::from("x");
    push_right_aligned(&mut s, "äb", 4);
    assert_eq!(s, format!("x{:>4}", "äb"));
}

#[test]
fn parsing_like_str_parse() {
    for text in ["0", "+5", "-5", "", "+", "-", "32767", "32768", "-32768", "-32769", "1a", " 1", "007", "99999999999999999999", "--1", "+-1"] {
        assert_eq!(parse_i16(text), text.parse::<i16>().ok(), "{:?}", text);
        assert_eq!(parse_i32(text), text.parse::<i32>().ok(), "{:?}", text);
    }
    assert_eq!(parse_i32("2147483647"), Some(i32::MAX));
    assert_eq!(parse_i32("-2147483648"), Some(i32::MIN));
    assert_eq!(parse_i32("2147483648"), None);
    assert_eq!(parse_i32("٣"), None);
}

#[test]
fn ascii_upper_case() {
    assert_eq!(to_ascii_upper("magePriests"), "MAGEPRIESTS");
    assert_eq!(to_ascii_upper("ärger-1z"), "äRGER-1Z");
    assert_eq!(to_ascii_upper(""), "");
}

#[test]
fn utf8_lengths() {
    assert!(!utf8_longer_than("abc", 3));
    assert!(utf8_longer_than("abcd", 3));
    assert!(utf8_longer_than("ää", 3));
    assert!(!utf8_longer_than("äa", 3));
    assert!(utf8_longer_than("€a", 3));
    assert!(!utf8_longer_than("😀", 4));
    assert!(utf8_longer_than("😀", 3));
    let thirty = "A".repeat(30);
    assert!(!utf8_longer_than(&thirty, 30));
}

#[test]
fn string_equality_and_first_char() {
    assert!(str_eq("bid", "bid"));
    assert!(!str_eq("bid", "bids"));
    assert!(!str_eq("bid", "bad"));
    assert_eq!(first_char("äx"), 'ä');
}
