use blog_listing::number::{parse_i64, parse_usize};

#[test]
fn plain_digits_are_read() {
    assert_eq!(parse_usize("0"), Some(0));
    assert_eq!(parse_usize("13"), Some(13));
    assert_eq!(parse_usize("007"), Some(7));
}

#[test]
fn a_plus_sign_is_accepted() {
    assert_eq!(parse_usize("+5"), Some(5));
    assert_eq!(parse_i64("+5"), Some(5));
}

#[test]
fn unsigned_refuses_what_is_no_number() {
    assert_eq!(parse_usize(""), None);
    assert_eq!(parse_usize("+"), None);
    assert_eq!(parse_usize("-1"), None);
    assert_eq!(parse_usize(" 1"), None);
    assert_eq!(parse_usize("1 "), None);
    assert_eq!(parse_usize("1a"), None);
    assert_eq!(parse_usize("++1"), None);
    assert_eq!(parse_usize("all"), None);
}

#[test]
fn unsigned_agrees_with_std_at_the_limit() {
    let max = usize::MAX.to_string();
    assert_eq!(parse_usize(&max), Some(usize::MAX));
    let beyond = format!("{}0", max);
    assert_eq!(parse_usize(&beyond), None);
    assert_eq!(parse_usize("18446744073709551616"), "18446744073709551616".parse::<usize>().ok());
}

#[test]
fn signed_numbers_are_read() {
    assert_eq!(parse_i64("-42"), Some(-42));
    assert_eq!(parse_i64("42"), Some(42));
    assert_eq!(parse_i64("-0"), Some(0));
    assert_eq!(parse_i64("9223372036854775807"), Some(i64::MAX));
    assert_eq!(parse_i64("-9223372036854775808"), Some(i64::MIN));
}

#[test]
fn signed_refuses_what_does_not_fit() {
    assert_eq!(parse_i64("9223372036854775808"), None);
    assert_eq!(parse_i64("-9223372036854775809"), None);
    assert_eq!(parse_i64("-"), None);
    assert_eq!(parse_i64("--1"), None);
    assert_eq!(parse_i64("1.5"), None);
}

#[test]
fn parsing_agrees_with_std() {
    for text in ["", "+", "-", "0", "-0", "+0", "12", "-12", "+12", "1 2", "12x", "٣", "0012"] {
        assert_eq!(parse_i64(text), text.parse::<i64>().ok());
        assert_eq!(parse_usize(text), text.parse::<usize>().ok());
    }
}
