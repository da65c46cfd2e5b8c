//! Tests of the numeric normalizer.

use patronite_db::parse_number;

#[test]
fn test_parse_number() {
    assert_eq!(parse_number("7112"), 7112);
    assert_eq!(parse_number("112430 zł"), 112430);
    assert_eq!(parse_number("4.23 mln zł"), 4230000);
    assert_eq!(parse_number("40 mln zł"), 40000000);
    assert_eq!(parse_number("197 tys. zł"), 197000);
}

#[test]
fn magnitude_suffixes_and_fractions() {
    assert_eq!(parse_number("1.5 tys."), 1500);
    assert_eq!(parse_number("0.5 mln"), 500000);
    assert_eq!(parse_number("2 tys. zł"), 2000);
    assert_eq!(parse_number("3mln"), 3000000);
    assert_eq!(parse_number("0"), 0);
}

#[test]
fn truncates_toward_zero() {
    // 1.2345 tys. = 1234.5, truncated to 1234.
    assert_eq!(parse_number("1.2345 tys."), 1234);
    // Fraction digits beyond the suffix's reach are cut, not rounded.
    assert_eq!(parse_number("1.9999 tys. zł"), 1999);
    // A fraction too small to reach a whole unit vanishes.
    assert_eq!(parse_number("0.0000001 mln"), 0);
}

#[test]
fn surrounding_whitespace_is_tolerated() {
    assert_eq!(parse_number("  42  "), 42);
    assert_eq!(parse_number(" 197 tys. zł "), 197000);
}

#[test]
fn unicode_whitespace_counts_as_whitespace() {
    // No-break spaces, as Polish-language markup uses between number,
    // suffix and currency.
    assert_eq!(parse_number("4.23\u{a0}mln\u{a0}zł"), 4230000);
    assert_eq!(parse_number("\u{a0}7112\u{a0}"), 7112);
    assert_eq!(parse_number("197\u{202f}tys. zł"), 197000);
}

#[test]
fn malformed_strings_normalize_to_zero() {
    assert_eq!(parse_number(""), 0);
    assert_eq!(parse_number("abc"), 0);
    assert_eq!(parse_number("12x"), 0);
    assert_eq!(parse_number("4,23 mln"), 0);
    assert_eq!(parse_number(".5"), 0);
    assert_eq!(parse_number("5."), 0);
    assert_eq!(parse_number("197 tys zł"), 0);
    assert_eq!(parse_number("12 foo zł"), 0);
    assert_eq!(parse_number("zł"), 0);
}

#[test]
fn saturates_at_the_field_width() {
    assert_eq!(parse_number("4294967295"), u32::MAX);
    assert_eq!(parse_number("4294967296"), u32::MAX);
    assert_eq!(parse_number("99999 mln"), u32::MAX);
    assert_eq!(parse_number("4294967294"), 4294967294);
}
