use emlak::key::{block_label, normalize, property_key};
use emlak::text::{i64_text, is_blank_text, parse_i32, trim, u64_text};

#[test]
fn normalize_splits_block_and_door() {
    assert_eq!(normalize("A12005"), "A12-5");
    assert_eq!(normalize("005"), "0-5");
    assert_eq!(normalize("AB"), "AB");
}

#[test]
fn normalize_keeps_door_without_leading_zero() {
    assert_eq!(normalize("100123"), "100-123");
}

#[test]
fn normalize_gathers_letters_and_digits_apart() {
    assert_eq!(normalize("A12-005"), "A-12-5");
    assert_eq!(normalize("B1C2003"), "BC12-3");
    assert_eq!(normalize("000"), "0-0");
    assert_eq!(normalize("A12"), "A12");
    assert_eq!(normalize(""), "");
}

#[test]
fn normalize_is_stable_under_writing_back() {
    let key = normalize("A012005");
    assert_eq!(key, "A12-5");
    assert_eq!(normalize("A12005"), key);
    assert_eq!(normalize("C0000"), "C0-0");
    assert_eq!(normalize("C0000"), normalize("C0000000"));
    assert_eq!(normalize("C7042"), normalize("C007042"));
    assert_eq!(normalize("A12-005"), "A-12-5");
    assert_eq!(normalize("A-12005"), normalize("A12-005"));
}

#[test]
fn property_key_concatenates_block_and_door() {
    assert_eq!(property_key("A-", 5), "A-5");
    assert_eq!(property_key("B", 12), "B12");
    assert_eq!(property_key("C", -3), "C-3");
}

#[test]
fn block_label_drops_trailing_dashes() {
    assert_eq!(block_label("A-"), "A");
    assert_eq!(block_label("A--"), "A");
    assert_eq!(block_label("A-B"), "A-B");
    assert_eq!(block_label("--"), "");
}

#[test]
fn trim_removes_unicode_whitespace() {
    assert_eq!(trim("  abc \t"), "abc");
    assert_eq!(trim("\u{a0}x y\u{3000}"), "x y");
    assert_eq!(trim("   "), "");
    assert_eq!(trim(""), "");
    assert!(is_blank_text(" \n "));
    assert!(is_blank_text(""));
    assert!(!is_blank_text(" a "));
}

#[test]
fn integers_have_decimal_text() {
    assert_eq!(u64_text(0), "0");
    assert_eq!(u64_text(907), "907");
    assert_eq!(i64_text(-120), "-120");
    assert_eq!(i64_text(i64::MIN), "-9223372036854775808");
    assert_eq!(i64_text(i64::MAX), "9223372036854775807");
}

#[test]
fn parse_i32_reads_signed_digits() {
    assert_eq!(parse_i32("42"), Some(42));
    assert_eq!(parse_i32("-7"), Some(-7));
    assert_eq!(parse_i32("+5"), Some(5));
    assert_eq!(parse_i32("007"), Some(7));
    assert_eq!(parse_i32("2147483647"), Some(i32::MAX));
    assert_eq!(parse_i32("-2147483648"), Some(i32::MIN));
    assert_eq!(parse_i32("2147483648"), None);
    assert_eq!(parse_i32("99999999999999"), None);
    assert_eq!(parse_i32(""), None);
    assert_eq!(parse_i32("-"), None);
    assert_eq!(parse_i32("1a"), None);
    assert_eq!(parse_i32(" 1"), None);
    assert_eq!(parse_i32("5.0"), None);
}
