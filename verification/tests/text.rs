use rebarr::text::{
    eq_ignore_ascii_case, i64_to_string, parse_i64, parse_u32, parse_u64, replace_all, str_lt, trim, u64_to_string,
};

#[test]
fn numbers_read_like_str_parse() {
    assert_eq!(parse_u32("4294967295"), Some(u32::MAX));
    assert_eq!(parse_u32("4294967296"), None);
    assert_eq!(parse_u32("+12"), Some(12));
    assert_eq!(parse_u32(""), None);
    assert_eq!(parse_u32(" 1"), None);
    assert_eq!(parse_u64("18446744073709551615"), Some(u64::MAX));
    assert_eq!(parse_i64("-9223372036854775808"), Some(i64::MIN));
    assert_eq!(parse_i64("9223372036854775808"), None);
    assert_eq!(parse_i64("-"), None);
    for n in [0u64, 7, 10, 1234567890, u64::MAX] {
        assert_eq!(parse_u64(&u64_to_string(n)), Some(n));
        assert_eq!(u64_to_string(n), n.to_string());
    }
    assert_eq!(i64_to_string(i64::MIN), i64::MIN.to_string());
}

#[test]
fn text_helpers() {
    assert_eq!(trim("\t a b \n"), "a b");
    assert!(eq_ignore_ascii_case("Local", "lOCAL"));
    assert!(!eq_ignore_ascii_case("Local", "Locale"));
    assert_eq!(replace_all("a{{x}}b{{x}}", "{{x}}", "-"), "a-b-");
    let a: Vec<char> = "abc".chars().collect();
    let b: Vec<char> = "abd".chars().collect();
    assert!(str_lt(&a, &b));
    assert!(!str_lt(&b, &a));
    assert!(str_lt(&a[..2], &a));
}
