use tc_tui_rs::text::{is_blank, push_decimal, push_decimal_digits};

fn digits(n: u64) -> String {
    let mut out = String::new();
    push_decimal_digits(&mut out, n);
    out
}

fn signed(n: i64) -> String {
    let mut out = String::from(">");
    push_decimal(&mut out, n);
    out
}

#[test]
fn decimal_digits_of_naturals() {
    assert_eq!(digits(0), "0");
    assert_eq!(digits(7), "7");
    assert_eq!(digits(10), "10");
    assert_eq!(digits(45), "45");
    assert_eq!(digits(1000), "1000");
    assert_eq!(digits(u64::MAX), "18446744073709551615");
}

#[test]
fn decimal_of_integers_appends_to_the_text() {
    assert_eq!(signed(0), ">0");
    assert_eq!(signed(-1), ">-1");
    assert_eq!(signed(907), ">907");
    assert_eq!(signed(i64::MIN), ">-9223372036854775808");
    assert_eq!(signed(i64::MAX), ">9223372036854775807");
}

#[test]
fn blank_texts_hold_white_space_only() {
    assert!(is_blank(""));
    assert!(is_blank(" "));
    assert!(is_blank(" \t\r\n"));
    assert!(is_blank("\u{a0}\u{2003}"));
    assert!(!is_blank("a"));
    assert!(!is_blank("  a  "));
    assert!(!is_blank("\t."));
}
