use lexkit::text::{parse_int, render_int, text_is};

#[test]
fn parse_int_accepts_signs_and_digits() {
    assert_eq!(parse_int("2345"), Some(2345));
    assert_eq!(parse_int("-9956"), Some(-9956));
    assert_eq!(parse_int("+7"), Some(7));
    assert_eq!(parse_int("007"), Some(7));
}

#[test]
fn parse_int_refuses_other_text() {
    assert_eq!(parse_int(""), None);
    assert_eq!(parse_int("-"), None);
    assert_eq!(parse_int("+"), None);
    assert_eq!(parse_int("12a"), None);
    assert_eq!(parse_int("abc"), None);
}

#[test]
fn parse_int_bounds() {
    assert_eq!(parse_int("9223372036854775807"), Some(isize::MAX));
    assert_eq!(parse_int("-9223372036854775808"), Some(isize::MIN));
    assert_eq!(parse_int("9223372036854775808"), None);
    assert_eq!(parse_int("123456789012345678901234567890123"), None);
}

#[test]
fn render_int_writes_decimal() {
    assert_eq!(render_int(0), "0");
    assert_eq!(render_int(10), "10");
    assert_eq!(render_int(-9956), "-9956");
    assert_eq!(render_int(isize::MIN), "-9223372036854775808");
    assert_eq!(render_int(isize::MAX), "9223372036854775807");
}

#[test]
fn text_is_compares_whole_text() {
    assert!(text_is("define", "define"));
    assert!(!text_is("defin", "define"));
    assert!(!text_is("defina", "define"));
    assert!(text_is("", ""));
}
