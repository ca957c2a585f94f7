use engine::text::{decimal, join2, normalize, parse_decimal, parse_u32, signed_decimal};

#[test]
fn parse_decimal_reads_plain_numbers() {
    assert_eq!(parse_decimal("0"), Some(0));
    assert_eq!(parse_decimal("1"), Some(1));
    assert_eq!(parse_decimal("42"), Some(42));
    assert_eq!(parse_decimal("007"), Some(7));
    assert_eq!(parse_decimal("18446744073709551615"), Some(u64::MAX));
}

#[test]
fn parse_decimal_takes_one_leading_plus() {
    assert_eq!(parse_decimal("+7"), Some(7));
    assert_eq!(parse_decimal("++7"), None);
    assert_eq!(parse_decimal("+"), None);
    assert_eq!(parse_decimal("7+"), None);
}

#[test]
fn parse_decimal_refuses_what_is_no_number() {
    assert_eq!(parse_decimal(""), None);
    assert_eq!(parse_decimal("-1"), None);
    assert_eq!(parse_decimal("1a"), None);
    assert_eq!(parse_decimal("a1"), None);
    assert_eq!(parse_decimal(" 1"), None);
    assert_eq!(parse_decimal("1 "), None);
    assert_eq!(parse_decimal("bar"), None);
    assert_eq!(parse_decimal("١٢"), None);
}

#[test]
fn parse_decimal_refuses_what_does_not_fit() {
    assert_eq!(parse_decimal("18446744073709551616"), None);
    assert_eq!(parse_decimal("99999999999999999999999999"), None);
    assert_eq!(parse_decimal("18446744073709551616x"), None);
}

#[test]
fn parse_decimal_agrees_with_the_standard_parser() {
    for text in ["0", "5", "+5", "", "+", "-0", "12x", "4294967295", "4294967296", "000"] {
        assert_eq!(parse_decimal(text), text.parse::<u64>().ok(), "{text:?}");
        assert_eq!(parse_u32(text), text.parse::<u32>().ok(), "{text:?}");
    }
}

#[test]
fn parse_u32_stops_at_32_bits() {
    assert_eq!(parse_u32("4294967295"), Some(u32::MAX));
    assert_eq!(parse_u32("4294967296"), None);
    assert_eq!(parse_u32("10"), Some(10));
    assert_eq!(parse_u32("ten"), None);
}

#[test]
fn decimal_writes_numbers() {
    assert_eq!(decimal(0), "0");
    assert_eq!(decimal(9), "9");
    assert_eq!(decimal(10), "10");
    assert_eq!(decimal(256), "256");
    assert_eq!(decimal(u64::MAX), "18446744073709551615");
}

#[test]
fn signed_decimal_writes_the_sign() {
    assert_eq!(signed_decimal(0), "0");
    assert_eq!(signed_decimal(-1), "-1");
    assert_eq!(signed_decimal(100), "100");
    assert_eq!(signed_decimal(i64::MIN), "-9223372036854775808");
    assert_eq!(signed_decimal(i64::MAX), "9223372036854775807");
}

#[test]
fn decimal_and_parse_decimal_undo_each_other() {
    for n in [0u64, 1, 9, 10, 99, 100, 12345, u32::MAX as u64, u64::MAX] {
        assert_eq!(parse_decimal(&decimal(n)), Some(n));
    }
}

#[test]
fn normalize_trims_and_lowercases() {
    assert_eq!(normalize("  Build FARM \n"), "build farm");
    assert_eq!(normalize("END"), "end");
    assert_eq!(normalize("   "), "");
    assert_eq!(normalize("Attack  Rome  3"), "attack  rome  3");
    assert_eq!(normalize("ÉCOLE"), "école");
}

#[test]
fn join2_appends() {
    assert_eq!(join2("Unknown building: ", "farm"), "Unknown building: farm");
    assert_eq!(join2("", ""), "");
}
