use ex3::text::{contains, parse_u64, parse_u8, parse_unsigned_str, str_eq, u64_to_decimal};

#[test]
fn parse_like_std() {
    for s in ["0", "255", "+7", "007", "256", "", "+", "-1", " 1", "1 ", "12a", "++1", "٣"] {
        assert_eq!(parse_u8(s), s.parse::<u8>().ok(), "{}", s);
    }
    for s in ["18446744073709551615", "18446744073709551616", "0", "+0", "99999999999999999999"] {
        assert_eq!(parse_u64(s), s.parse::<u64>().ok(), "{}", s);
    }
}

#[test]
fn decimal_rendering() {
    for n in [0u64, 7, 10, 1234567890, u64::MAX] {
        assert_eq!(u64_to_decimal(n), n.to_string());
        assert_eq!(parse_u64(&u64_to_decimal(n)), Some(n));
    }
}

#[test]
fn equality_and_search() {
    assert!(str_eq("héllo", "héllo"));
    assert!(!str_eq("hello", "hell"));
    assert!(contains("abcabd", "abd"));
    assert!(!contains("abc", "abcd"));
    assert!(contains("", ""));
}

#[test]
fn parse_with_small_bounds() {
    assert_eq!(parse_unsigned_str("0", 0), Some(0));
    assert_eq!(parse_unsigned_str("1", 0), None);
    assert_eq!(parse_unsigned_str("5", 5), Some(5));
    assert_eq!(parse_unsigned_str("6", 5), None);
    assert_eq!(parse_unsigned_str("10", 5), None);
    assert_eq!(parse_unsigned_str("+05", 5), Some(5));
    assert_eq!(parse_unsigned_str("12", 12), Some(12));
    assert_eq!(parse_unsigned_str("13", 12), None);
    assert_eq!(parse_unsigned_str("x", 12), None);
}
