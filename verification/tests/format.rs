//! Text forms: decimal values, escaping, line encoding, dates.

use glowmarkt::dates::{iso_format, parse_date, parse_end_date, parse_u63};
use glowmarkt::encode::{
    encode_line, escape_tag_value, i64_dec, sort_tags_by_key, unescape_tag_value,
};
use glowmarkt::measurement::{Measurement, Tag};
use glowmarkt::numfmt::{u64_dec, FieldValue};

fn tag(key: &str, value: &str) -> Tag {
    Tag { key: key.to_string(), value: value.to_string() }
}

#[test]
fn whole_numbers_format_without_a_point() {
    assert_eq!(FieldValue::new(false, 0, 0).text(), "0");
    assert_eq!(FieldValue::new(false, 42, 0).text(), "42");
    assert_eq!(FieldValue::new(true, 7, 0).text(), "-7");
}

#[test]
fn fractions_drop_trailing_zeros() {
    assert_eq!(FieldValue::new(false, 3, 500).text(), "3.5");
    assert_eq!(FieldValue::new(false, 0, 250).text(), "0.25");
    assert_eq!(FieldValue::new(false, 1, 205).text(), "1.205");
    assert_eq!(FieldValue::new(false, 1, 50).text(), "1.05");
    assert_eq!(FieldValue::new(true, 0, 1).text(), "-0.001");
}

#[test]
fn decimal_formatting_is_plain() {
    assert_eq!(u64_dec(0), "0");
    assert_eq!(u64_dec(10), "10");
    assert_eq!(u64_dec(18446744073709551615), "18446744073709551615");
    assert_eq!(i64_dec(-1), "-1");
    assert_eq!(i64_dec(-9223372036854775808), "-9223372036854775808");
    assert_eq!(i64_dec(1234567890), "1234567890");
}

#[test]
fn escaping_marks_reserved_characters() {
    assert_eq!(escape_tag_value("plain"), "plain");
    assert_eq!(escape_tag_value("a,b c=d"), "a\\,b\\ c\\=d");
    assert_eq!(escape_tag_value(""), "");
}

#[test]
fn escaped_values_read_back_unchanged() {
    for value in ["plain", "a,b c=d", "", "tail\\", "mix\\, deep=7", " , = \\"] {
        let escaped = escape_tag_value(value);
        assert_eq!(unescape_tag_value(&escaped), value);
    }
}

#[test]
fn tags_sort_stably_by_key() {
    let tags = vec![tag("b", "1"), tag("a", "2"), tag("b", "3"), tag("aa", "4")];
    let sorted = sort_tags_by_key(&tags);
    let pairs: Vec<(String, String)> =
        sorted.into_iter().map(|t| (t.key, t.value)).collect();
    assert_eq!(
        pairs,
        vec![
            ("a".to_string(), "2".to_string()),
            ("aa".to_string(), "4".to_string()),
            ("b".to_string(), "1".to_string()),
            ("b".to_string(), "3".to_string()),
        ]
    );
}

#[test]
fn encoded_lines_are_deterministic() {
    let mut m = Measurement::new(
        "glowmarkt".to_string(),
        1700000000,
        vec![tag("resource", "R2"), tag("device", "with space")],
    );
    m.add_field("cost".to_string(), FieldValue::new(false, 12, 340));
    let line = encode_line(&m);
    assert_eq!(line, "glowmarkt,device=with\\ space,resource=R2 cost=12.34 1700000000");
    // a second run over identical input is byte-identical
    assert_eq!(encode_line(&m), line);
}

#[test]
fn iso_text_is_utc_and_zero_padded() {
    assert_eq!(iso_format(0), "1970-01-01T00:00:00");
    assert_eq!(iso_format(1661072400), "2022-08-21T09:00:00");
    assert_eq!(iso_format(253402300799), "9999-12-31T23:59:59");
}

#[test]
fn unsigned_parse_accepts_digits_only() {
    assert_eq!(parse_u63("0"), Some(0));
    assert_eq!(parse_u63("1440"), Some(1440));
    assert_eq!(parse_u63("9223372036854775807"), Some(i64::MAX));
    assert_eq!(parse_u63("9223372036854775808"), None);
    assert_eq!(parse_u63(""), None);
    assert_eq!(parse_u63("12x"), None);
    assert_eq!(parse_u63("-5"), None);
}

#[test]
fn dates_accept_minute_offsets_and_iso_instants() {
    let now = 1_000_000i64;
    assert_eq!(parse_date("-1440", now), Ok(now - 1440 * 60));
    assert_eq!(parse_date("1970-01-02T00:00:00Z", now), Ok(86400));
    assert_eq!(parse_date("2022-08-21T09:00:00Z", now), Ok(1661072400));
    assert!(parse_date("not a date", now).is_err());
    assert!(parse_date("-", now).is_err());
}

#[test]
fn an_absent_end_date_means_now() {
    let now = 555i64;
    assert_eq!(parse_end_date(&None, now), Ok(now));
    assert_eq!(parse_end_date(&Some("-1".to_string()), now), Ok(now - 60));
}
