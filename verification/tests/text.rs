use lof::text::{decimal_i64, decimal_u64, parse_i32, parse_usize, starts_with, str_chars, str_eq};

#[test]
fn test_decimal_rendering() {
    assert_eq!(decimal_u64(0), "0");
    assert_eq!(decimal_u64(1234567890), "1234567890");
    assert_eq!(decimal_u64(u64::MAX), u64::MAX.to_string());
    assert_eq!(decimal_i64(-42), "-42");
    assert_eq!(decimal_i64(i64::MIN), i64::MIN.to_string());
}

#[test]
fn test_parse_i32_as_std_does() {
    for text in ["0", "+7", "-7", "2147483647", "-2147483648", "2147483648", "", "-", "+", "1a", " 1", "007"] {
        assert_eq!(parse_i32(text), text.parse::<i32>().ok(), "{:?}", text);
    }
    // a rendered integer reads back as itself
    for i in [0i32, 1, -1, 99, i32::MAX, i32::MIN] {
        assert_eq!(parse_i32(&decimal_i64(i as i64)), Some(i));
    }
}

#[test]
fn test_parse_usize_as_std_does() {
    let max = usize::MAX.to_string();
    let over = "9".repeat(max.len() + 1);
    for text in ["0", "+12", "-1", "", "+", "12x", max.as_str(), over.as_str()] {
        assert_eq!(parse_usize(text), text.parse::<usize>().ok(), "{:?}", text);
    }
}

#[test]
fn test_string_helpers() {
    assert!(str_eq("abc", "abc"));
    assert!(!str_eq("abc", "abd"));
    assert!(starts_with("$answer_3", "$answer_"));
    assert!(!starts_with("$ans", "$answer_"));
    assert_eq!(lof::text::concat("a", "βc"), "aβc");
    assert_eq!(str_chars("héllo"), vec!['h', 'é', 'l', 'l', 'o']);
}
