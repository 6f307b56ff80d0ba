use commit_report::text::{
    bytes_equal, bytes_to_hex, digit_str, i64_to_decimal, join_strings, starts_with, str_equal,
    u64_to_decimal, usize_to_decimal,
};

#[test]
fn digits_are_lower_case_hexadecimal() {
    let all: Vec<&str> = (0u8..16).map(digit_str).collect();
    assert_eq!(all.concat(), "0123456789abcdef");
}

#[test]
fn decimal_of_naturals() {
    assert_eq!(u64_to_decimal(0), "0");
    assert_eq!(u64_to_decimal(7), "7");
    assert_eq!(u64_to_decimal(10), "10");
    assert_eq!(u64_to_decimal(1700000000), "1700000000");
    assert_eq!(u64_to_decimal(u64::MAX), "18446744073709551615");
    assert_eq!(usize_to_decimal(0), "0");
    assert_eq!(usize_to_decimal(42), "42");
    assert_eq!(usize_to_decimal(usize::MAX), format!("{}", usize::MAX));
}

#[test]
fn decimal_of_signed_integers() {
    assert_eq!(i64_to_decimal(0), "0");
    assert_eq!(i64_to_decimal(-1), "-1");
    assert_eq!(i64_to_decimal(-120), "-120");
    assert_eq!(i64_to_decimal(1700000000), "1700000000");
    assert_eq!(i64_to_decimal(i64::MAX), "9223372036854775807");
    assert_eq!(i64_to_decimal(i64::MIN), "-9223372036854775808");
}

#[test]
fn decimal_agrees_with_std() {
    let mut n: i64 = 1;
    for _ in 0..62 {
        assert_eq!(i64_to_decimal(n), format!("{}", n));
        assert_eq!(i64_to_decimal(-n), format!("{}", -n));
        assert_eq!(i64_to_decimal(n - 1), format!("{}", n - 1));
        n *= 2;
    }
}

#[test]
fn hex_of_bytes() {
    assert_eq!(bytes_to_hex(&[]), "");
    assert_eq!(bytes_to_hex(&[0x00]), "00");
    assert_eq!(bytes_to_hex(&[0x00, 0xab, 0xff, 0x10, 0x09]), "00abff1009");
    let all: Vec<u8> = (0u8..=255).collect();
    let expected: String = all.iter().map(|b| format!("{:02x}", b)).collect();
    assert_eq!(bytes_to_hex(&all), expected);
}

#[test]
fn joining_puts_the_separator_between() {
    let none: Vec<String> = vec![];
    assert_eq!(join_strings(&none, ","), "");
    assert_eq!(join_strings(&vec!["a".to_string()], ","), "a");
    assert_eq!(join_strings(&vec!["".to_string()], ","), "");
    assert_eq!(join_strings(&vec!["a".to_string(), "b".to_string(), "c".to_string()], ","), "a,b,c");
    assert_eq!(join_strings(&vec!["".to_string(), "".to_string()], ","), ",");
    assert_eq!(join_strings(&vec!["x".to_string(), "y".to_string()], " - "), "x - y");
}

#[test]
fn equality_of_texts() {
    assert!(str_equal("", ""));
    assert!(str_equal("an", "an"));
    assert!(!str_equal("an", "aN"));
    assert!(!str_equal("an", "a"));
    assert!(!str_equal("a", "an"));
    assert!(str_equal("héllo", "héllo"));
    assert!(!str_equal("héllo", "hello"));
}

#[test]
fn beginning_of_texts() {
    assert!(starts_with("abcdef", ""));
    assert!(starts_with("abcdef", "abc"));
    assert!(starts_with("abcdef", "abcdef"));
    assert!(!starts_with("abcdef", "abd"));
    assert!(!starts_with("abc", "abcd"));
    assert!(!starts_with("", "a"));
}

#[test]
fn equality_of_bytes() {
    assert!(bytes_equal(&[], &[]));
    assert!(bytes_equal(&[1, 2, 3], &[1, 2, 3]));
    assert!(!bytes_equal(&[1, 2, 3], &[1, 2, 4]));
    assert!(!bytes_equal(&[1, 2, 3], &[1, 2]));
    assert!(!bytes_equal(&[], &[0]));
}
