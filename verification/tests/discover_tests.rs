use sheet_merge::MergeError;
use sheet_merge::discover::{discover, parse_file_key};

fn entry(name: &str) -> (String, String) {
    (name.to_string(), format!("/in/{}", name))
}

#[test]
fn parse_key_simple() {
    assert_eq!(parse_file_key("1\u{3001}a.xlsx"), Some(1));
    assert_eq!(parse_file_key("42\u{3001}report.xlsx"), Some(42));
    assert_eq!(parse_file_key("0\u{3001}x"), Some(0));
}

#[test]
fn parse_key_rejects_missing_delimiter() {
    assert_eq!(parse_file_key("report.xlsx"), None);
    assert_eq!(parse_file_key(""), None);
}

#[test]
fn parse_key_rejects_empty_prefix() {
    assert_eq!(parse_file_key("\u{3001}a.xlsx"), None);
}

#[test]
fn parse_key_rejects_non_digit_prefix() {
    assert_eq!(parse_file_key("12a\u{3001}x.xlsx"), None);
    assert_eq!(parse_file_key("-3\u{3001}x.xlsx"), None);
}

#[test]
fn parse_key_rejects_overflowing_prefix() {
    assert_eq!(parse_file_key("99999999999999999999999\u{3001}x.xlsx"), None);
    // the largest value that still fits
    assert_eq!(
        parse_file_key("18446744073709551615\u{3001}x"),
        Some(u64::MAX)
    );
    assert_eq!(parse_file_key("18446744073709551616\u{3001}x"), None);
}

#[test]
fn parse_key_only_first_delimiter_counts() {
    assert_eq!(parse_file_key("7\u{3001}8\u{3001}x"), Some(7));
}

#[test]
fn discover_orders_numerically() {
    let entries = vec![entry("10\u{3001}c.xlsx"), entry("9\u{3001}b.xlsx"), entry("1\u{3001}a.xlsx")];
    let files = discover(&entries).unwrap();
    assert_eq!(files.len(), 3);
    assert_eq!(files[0].name, "1\u{3001}a.xlsx");
    assert_eq!(files[1].name, "9\u{3001}b.xlsx");
    assert_eq!(files[2].name, "10\u{3001}c.xlsx");
    for (i, f) in files.iter().enumerate() {
        assert_eq!(f.ordinal, i);
        assert_eq!(f.path, format!("/in/{}", f.name));
    }
}

#[test]
fn discover_breaks_ties_by_listing_order() {
    let entries = vec![entry("2\u{3001}b.xlsx"), entry("2\u{3001}a.xlsx")];
    let files = discover(&entries).unwrap();
    assert_eq!(files[0].name, "2\u{3001}b.xlsx");
    assert_eq!(files[1].name, "2\u{3001}a.xlsx");
}

#[test]
fn discover_twice_is_identical() {
    let entries = vec![
        entry("3\u{3001}c.xlsx"),
        entry("1\u{3001}a.xlsx"),
        entry("2\u{3001}b.xlsx"),
        entry("2\u{3001}z.xlsx"),
    ];
    let first = discover(&entries).unwrap();
    let second = discover(&entries).unwrap();
    assert_eq!(first.len(), second.len());
    for (a, b) in first.iter().zip(second.iter()) {
        assert_eq!(a.ordinal, b.ordinal);
        assert_eq!(a.name, b.name);
        assert_eq!(a.path, b.path);
    }
}

#[test]
fn discover_rejects_unprefixed_name() {
    let entries = vec![entry("1\u{3001}a.xlsx"), entry("b.xlsx")];
    let r = discover(&entries);
    assert_eq!(r.unwrap_err(), MergeError::NamingError);
}

#[test]
fn discover_of_empty_listing_is_empty() {
    let entries: Vec<(String, String)> = Vec::new();
    let files = discover(&entries).unwrap();
    assert_eq!(files.len(), 0);
}
