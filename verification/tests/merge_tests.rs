use sheet_merge::discover::discover;
use sheet_merge::ingest::aggregate_all;
use sheet_merge::merge::{OutputSheet, merge};
use sheet_merge::record::SheetRecord;
use sheet_merge::table::AggregationTable;
use sheet_merge::text::render_decimal;

fn grid(rows: &[&[&str]]) -> Vec<Vec<String>> {
    rows.iter()
        .map(|r| r.iter().map(|c| c.to_string()).collect())
        .collect()
}

fn sheet(name: &str, rows: &[&[&str]]) -> (String, Vec<Vec<String>>) {
    (name.to_string(), grid(rows))
}

fn run(
    entries: Vec<(String, String)>,
    decoded: Vec<Vec<(String, Vec<Vec<String>>)>>,
) -> Vec<OutputSheet> {
    let files = discover(&entries).unwrap();
    assert_eq!(files.len(), decoded.len());
    let table = aggregate_all(&files, decoded);
    merge(&table)
}

fn entry(name: &str) -> (String, String) {
    (name.to_string(), format!("/in/{}", name))
}

#[test]
fn two_files_one_sheet_scenario() {
    let entries = vec![entry("1\u{3001}a.xlsx"), entry("2\u{3001}b.xlsx")];
    let decoded = vec![
        vec![sheet("S", &[&["a", "b"], &["c", "d"]])],
        vec![sheet("S", &[&["e", "f"]])],
    ];
    let out = run(entries, decoded);
    assert_eq!(out.len(), 1);
    assert_eq!(out[0].name, "S");
    let expected = grid(&[
        &["index:0", "a", "b"],
        &["1\u{3001}a.xlsx", "c", "d"],
        &[""],
        &["index:1", "e", "f"],
        &[""],
    ]);
    assert_eq!(out[0].rows, expected);
}

#[test]
fn single_file_single_sheet_single_row() {
    let entries = vec![entry("1\u{3001}x.xlsx")];
    let decoded = vec![vec![sheet("Only", &[&["v"]])]];
    let out = run(entries, decoded);
    assert_eq!(out.len(), 1);
    assert_eq!(out[0].name, "Only");
    let expected = grid(&[&["index:0", "v"], &[""]]);
    assert_eq!(out[0].rows, expected);
}

#[test]
fn zero_sheet_file_contributes_nothing() {
    let entries = vec![entry("1\u{3001}a.xlsx"), entry("2\u{3001}b.xlsx")];
    let decoded = vec![vec![], vec![sheet("S", &[&["x"]])]];
    let out = run(entries, decoded);
    assert_eq!(out.len(), 1);
    // the file-ordinal-0 record for this sheet ordinal is absent, so the
    // sheet gets the placeholder name
    assert_eq!(out[0].name, "sheet unnamed");
    let expected = grid(&[&["index:1", "x"], &[""]]);
    assert_eq!(out[0].rows, expected);
}

#[test]
fn zero_files_yield_empty_workbook() {
    let out = run(Vec::new(), Vec::new());
    assert_eq!(out.len(), 0);
}

#[test]
fn sheet_count_is_maximum_over_files() {
    let entries = vec![entry("1\u{3001}a.xlsx"), entry("2\u{3001}b.xlsx")];
    let decoded = vec![
        vec![sheet("First", &[&["a"]]), sheet("Second", &[&["b"]])],
        vec![sheet("First", &[&["c"]])],
    ];
    let out = run(entries, decoded);
    assert_eq!(out.len(), 2);
    assert_eq!(out[0].name, "First");
    assert_eq!(out[1].name, "Second");
    let expected0 = grid(&[&["index:0", "a"], &[""], &["index:1", "c"], &[""]]);
    let expected1 = grid(&[&["index:0", "b"], &[""]]);
    assert_eq!(out[0].rows, expected0);
    assert_eq!(out[1].rows, expected1);
}

#[test]
fn missing_first_block_gets_placeholder_name() {
    let entries = vec![entry("1\u{3001}a.xlsx"), entry("2\u{3001}b.xlsx")];
    let decoded = vec![
        vec![sheet("S", &[&["a"]])],
        vec![sheet("S", &[&["b"]]), sheet("T", &[&["t1", "t2"], &["u1", "u2"], &["v1", "v2"]])],
    ];
    let out = run(entries, decoded);
    assert_eq!(out.len(), 2);
    assert_eq!(out[0].name, "S");
    assert_eq!(out[1].name, "sheet unnamed");
    let expected1 = grid(&[
        &["index:1", "t1", "t2"],
        &["2\u{3001}b.xlsx", "u1", "u2"],
        &["", "v1", "v2"],
        &[""],
    ]);
    assert_eq!(out[1].rows, expected1);
}

#[test]
fn empty_grid_block_is_just_a_separator() {
    let entries = vec![entry("1\u{3001}a.xlsx")];
    let decoded = vec![vec![sheet("Empty", &[])]];
    let out = run(entries, decoded);
    assert_eq!(out.len(), 1);
    assert_eq!(out[0].name, "Empty");
    let expected = grid(&[&[""]]);
    assert_eq!(out[0].rows, expected);
}

#[test]
fn record_counts_are_the_bounding_box() {
    let rec = SheetRecord::new(
        0,
        "1\u{3001}a.xlsx".to_string(),
        "S".to_string(),
        grid(&[&["a"], &["b", "c", "d"], &["e", "f"]]),
    );
    assert_eq!(rec.row_count, 3);
    assert_eq!(rec.column_count, 3);
    assert_eq!(rec.file_ordinal, 0);
}

#[test]
fn table_insert_and_read_back() {
    let mut table = AggregationTable::new();
    assert_eq!(table.sheet_count(), 0);
    let rec = SheetRecord::new(1, "2\u{3001}b.xlsx".to_string(), "S".to_string(), grid(&[&["x"]]));
    table.insert(2, 1, rec);
    assert_eq!(table.sheet_count(), 3);
    assert_eq!(table.row_len(0), 0);
    assert_eq!(table.row_len(2), 2);
    assert!(table.get(2, 0).is_none());
    let got = table.get(2, 1).as_ref().unwrap();
    assert_eq!(got.sheet_name, "S");
    assert_eq!(got.file_ordinal, 1);
}

#[test]
fn decimal_rendering_is_exact() {
    assert_eq!(render_decimal(0), "0");
    assert_eq!(render_decimal(7), "7");
    assert_eq!(render_decimal(10), "10");
    assert_eq!(render_decimal(1234567890), "1234567890");
    assert_eq!(render_decimal(u64::MAX), "18446744073709551615");
}
