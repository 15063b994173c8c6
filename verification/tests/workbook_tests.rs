use std::io::Cursor;

use calamine::{Reader, Xlsx, open_workbook_from_rs};

use sheet_merge::MergeError;
use sheet_merge::merge::OutputSheet;
use sheet_merge::writer::build_workbook;

fn grid(rows: &[&[&str]]) -> Vec<Vec<String>> {
    rows.iter()
        .map(|r| r.iter().map(|c| c.to_string()).collect())
        .collect()
}

#[test]
fn built_workbook_round_trips_through_a_reader() {
    let sheets = vec![
        OutputSheet {
            name: "S".to_string(),
            rows: grid(&[
                &["index:0", "a", "b"],
                &["1\u{3001}a.xlsx", "c", "d"],
                &[""],
                &["index:1", "e", "f"],
                &[""],
            ]),
        },
        OutputSheet {
            name: "Second".to_string(),
            rows: grid(&[&["index:0", "x"], &[""]]),
        },
    ];
    let mut workbook = match build_workbook(&sheets) {
        Ok(wb) => wb,
        Err(_) => panic!("workbook should build"),
    };
    let buffer = workbook.save_to_buffer().unwrap();
    let mut decoded: Xlsx<Cursor<Vec<u8>>> =
        open_workbook_from_rs(Cursor::new(buffer)).unwrap();
    let worksheets = decoded.worksheets();
    assert_eq!(worksheets.len(), 2);
    assert_eq!(worksheets[0].0, "S");
    assert_eq!(worksheets[1].0, "Second");

    let range = &worksheets[0].1;
    let cell = |r: u32, c: u32| range.get_value((r, c)).map(|v| v.to_string());
    assert_eq!(cell(0, 0), Some("index:0".to_string()));
    assert_eq!(cell(0, 1), Some("a".to_string()));
    assert_eq!(cell(0, 2), Some("b".to_string()));
    assert_eq!(cell(1, 0), Some("1\u{3001}a.xlsx".to_string()));
    assert_eq!(cell(1, 1), Some("c".to_string()));
    assert_eq!(cell(1, 2), Some("d".to_string()));
    assert_eq!(cell(3, 0), Some("index:1".to_string()));
    assert_eq!(cell(3, 1), Some("e".to_string()));
    assert_eq!(cell(3, 2), Some("f".to_string()));

    let range2 = &worksheets[1].1;
    assert_eq!(
        range2.get_value((0, 1)).map(|v| v.to_string()),
        Some("x".to_string())
    );
}

#[test]
fn invalid_sheet_name_is_a_write_error() {
    let sheets = vec![OutputSheet {
        name: "bad[name".to_string(),
        rows: grid(&[&["v"]]),
    }];
    match build_workbook(&sheets) {
        Err(e) => assert_eq!(e, MergeError::WriteError),
        Ok(_) => panic!("an invalid sheet name must be refused"),
    }
}

#[test]
fn empty_sheet_name_is_a_write_error() {
    let sheets = vec![OutputSheet {
        name: String::new(),
        rows: grid(&[&["v"]]),
    }];
    match build_workbook(&sheets) {
        Err(e) => assert_eq!(e, MergeError::WriteError),
        Ok(_) => panic!("an empty sheet name must be refused"),
    }
}
