use show_pipeline::num::{Decimal, parse_decimal, parse_u32_digits, parse_u64_digits};
use show_pipeline::text::{read_records, split_str, trim_str};

#[test]
fn parse_u32_plain() {
    assert_eq!(parse_u32_digits("120"), Some(120));
    assert_eq!(parse_u32_digits("0"), Some(0));
    assert_eq!(parse_u32_digits("01"), Some(1));
}

#[test]
fn parse_u32_rejects_non_digits() {
    assert_eq!(parse_u32_digits(""), None);
    assert_eq!(parse_u32_digits("\\N"), None);
    assert_eq!(parse_u32_digits("+5"), None);
    assert_eq!(parse_u32_digits("12a"), None);
    assert_eq!(parse_u32_digits("1 2"), None);
}

#[test]
fn parse_u32_bounds() {
    assert_eq!(parse_u32_digits("4294967295"), Some(u32::MAX));
    assert_eq!(parse_u32_digits("4294967296"), None);
}

#[test]
fn parse_u64_bounds() {
    assert_eq!(parse_u64_digits("18446744073709551615"), Some(u64::MAX));
    assert_eq!(parse_u64_digits("18446744073709551616"), None);
    assert_eq!(parse_u64_digits("184467440737095516151234"), None);
}

#[test]
fn parse_decimal_forms() {
    assert_eq!(parse_decimal("8.5"), Some(Decimal { digits: 85, scale: 1 }));
    assert_eq!(parse_decimal("8"), Some(Decimal { digits: 8, scale: 0 }));
    assert_eq!(parse_decimal("8.50"), Some(Decimal { digits: 850, scale: 2 }));
    assert_eq!(parse_decimal("10.0"), Some(Decimal { digits: 100, scale: 1 }));
}

#[test]
fn parse_decimal_rejects_malformed() {
    assert_eq!(parse_decimal(""), None);
    assert_eq!(parse_decimal("8."), None);
    assert_eq!(parse_decimal(".5"), None);
    assert_eq!(parse_decimal("8.5.1"), None);
    assert_eq!(parse_decimal("a.5"), None);
    assert_eq!(parse_decimal("-8.5"), None);
}

#[test]
fn split_keeps_empty_fields() {
    let parts = split_str("a\tb\t", '\t');
    assert_eq!(parts, vec!["a".to_string(), "b".to_string(), "".to_string()]);
    assert_eq!(split_str("", '\t'), vec!["".to_string()]);
    assert_eq!(
        split_str("a,,b", ','),
        vec!["a".to_string(), "".to_string(), "b".to_string()]
    );
}

#[test]
fn trim_removes_edges_only() {
    assert_eq!(trim_str("  x y \r\n"), "x y");
    assert_eq!(trim_str(""), "");
    assert_eq!(trim_str("\t\n"), "");
}

#[test]
fn records_skip_header() {
    let records = read_records("header\na\tb\nc\td\n");
    assert_eq!(
        records,
        vec![
            vec!["a".to_string(), "b".to_string()],
            vec!["c".to_string(), "d".to_string()],
        ]
    );
    assert_eq!(read_records("header only\n"), Vec::<Vec<String>>::new());
}
