use sheetpipe::cell::{CellError, CellValue};
use sheetpipe::search::{contains_substring, search_sheet, search_sheets, SheetCells};

#[test]
fn substring_containment() {
    assert!(contains_substring("hello world", "world"));
    assert!(contains_substring("hello", "hello"));
    assert!(contains_substring("hello", ""));
    assert!(contains_substring("", ""));
    assert!(!contains_substring("", "a"));
    assert!(!contains_substring("abc", "abd"));
    assert!(contains_substring("aaab", "aab"));
    assert!(contains_substring("naïve café", "café"));
    assert!(!contains_substring("short", "longer than hay"));
}

#[test]
fn sheet_scan_reports_coordinates_and_values() {
    let rows = vec![
        vec![CellValue::Text("alpha".to_string()), CellValue::Empty],
        vec![CellValue::Integer(-42), CellValue::Text("contains alp too".to_string())],
    ];
    let hits = search_sheet(&"f.xlsx".to_string(), &"S1".to_string(), &rows, "alp");
    assert_eq!(hits.len(), 2);
    assert_eq!((hits[0].row, hits[0].col, hits[0].value.as_str()), (0, 0, "alpha"));
    assert_eq!(
        (hits[1].row, hits[1].col, hits[1].value.as_str()),
        (1, 1, "contains alp too")
    );
    for h in &hits {
        assert_eq!(h.file, "f.xlsx");
        assert_eq!(h.sheet_name, "S1");
    }
}

#[test]
fn scan_uses_the_normalizer_rendering() {
    let rows = vec![vec![
        CellValue::Boolean(true),
        CellValue::ErrorValue(CellError::Div0),
        CellValue::Number("2.75".to_string()),
    ]];
    let sheets = vec![SheetCells { name: "S1".to_string(), rows }];
    let file = "f.xlsx".to_string();
    let t = search_sheets(&file, &sheets, "TRUE");
    assert_eq!(t.len(), 1);
    assert_eq!(t[0].value, "TRUE");
    let e = search_sheets(&file, &sheets, "Error: Div0");
    assert_eq!(e.len(), 1);
    let n = search_sheets(&file, &sheets, ".7");
    assert_eq!(n.len(), 1);
    assert_eq!(n[0].value, "2.75");
    let miss = search_sheets(&file, &sheets, "FALSE");
    assert_eq!(miss.len(), 0);
}

#[test]
fn skipped_cells_never_match() {
    let rows = vec![vec![CellValue::Empty, CellValue::Timestamp(None)]];
    let hits = search_sheet(&"f".to_string(), &"S".to_string(), &rows, "");
    // An empty query matches every rendered cell, but skipped cells have
    // no rendering at all.
    assert_eq!(hits.len(), 0);
}
