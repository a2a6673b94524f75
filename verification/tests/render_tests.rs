use sheetpipe::cell::{render_cell, render_stamp, CellError, CellValue, Stamp};
use sheetpipe::render::{render_four, render_i64, render_two, render_u64};

#[test]
fn unsigned_decimal_rendering() {
    assert_eq!(render_u64(0), "0");
    assert_eq!(render_u64(7), "7");
    assert_eq!(render_u64(10), "10");
    assert_eq!(render_u64(409), "409");
    assert_eq!(render_u64(u64::MAX), "18446744073709551615");
}

#[test]
fn signed_decimal_rendering() {
    assert_eq!(render_i64(0), "0");
    assert_eq!(render_i64(42), "42");
    assert_eq!(render_i64(-1), "-1");
    assert_eq!(render_i64(-987), "-987");
    assert_eq!(render_i64(i64::MIN), "-9223372036854775808");
    assert_eq!(render_i64(i64::MAX), "9223372036854775807");
}

#[test]
fn padded_rendering() {
    assert_eq!(render_two(0), "00");
    assert_eq!(render_two(5), "05");
    assert_eq!(render_two(59), "59");
    assert_eq!(render_four(0), "0000");
    assert_eq!(render_four(33), "0033");
    assert_eq!(render_four(2024), "2024");
    assert_eq!(render_four(9999), "9999");
}

#[test]
fn text_cell_is_kept_verbatim() {
    let c = CellValue::Text("hello world".to_string());
    assert_eq!(render_cell(&c), Some("hello world".to_string()));
    let spaced = CellValue::Text("a b c".to_string());
    assert_eq!(render_cell(&spaced), Some("a b c".to_string()));
}

#[test]
fn number_cell_carries_its_rendering() {
    let c = CellValue::Number("30".to_string());
    assert_eq!(render_cell(&c), Some("30".to_string()));
    let c2 = CellValue::Number("2.5".to_string());
    assert_eq!(render_cell(&c2), Some("2.5".to_string()));
}

#[test]
fn integer_cell_rendering() {
    assert_eq!(render_cell(&CellValue::Integer(30)), Some("30".to_string()));
    assert_eq!(render_cell(&CellValue::Integer(-7)), Some("-7".to_string()));
}

#[test]
fn boolean_cell_rendering() {
    assert_eq!(render_cell(&CellValue::Boolean(true)), Some("TRUE".to_string()));
    assert_eq!(render_cell(&CellValue::Boolean(false)), Some("FALSE".to_string()));
}

#[test]
fn timestamp_cell_rendering() {
    let s = Stamp::checked(2024, 1, 5, 13, 45, 0).unwrap();
    assert_eq!(render_stamp(&s), "2024-01-05 13:45:00");
    let c = CellValue::Timestamp(Some(s));
    assert_eq!(render_cell(&c), Some("2024-01-05 13:45:00".to_string()));
}

#[test]
fn undecodable_timestamp_is_skipped() {
    assert_eq!(render_cell(&CellValue::Timestamp(None)), None);
    assert!(Stamp::checked(2024, 13, 1, 0, 0, 0).is_none());
    assert!(Stamp::checked(2024, 0, 1, 0, 0, 0).is_none());
    assert!(Stamp::checked(-5, 1, 1, 0, 0, 0).is_none());
    assert!(Stamp::checked(10000, 1, 1, 0, 0, 0).is_none());
    assert!(Stamp::checked(2024, 1, 1, 24, 0, 0).is_none());
}

#[test]
fn error_cell_rendering() {
    assert_eq!(
        render_cell(&CellValue::ErrorValue(CellError::Div0)),
        Some("Error: Div0".to_string())
    );
    assert_eq!(render_cell(&CellValue::ErrorValue(CellError::NA)), Some("Error: NA".to_string()));
    assert_eq!(
        render_cell(&CellValue::ErrorValue(CellError::Name)),
        Some("Error: Name".to_string())
    );
    assert_eq!(
        render_cell(&CellValue::ErrorValue(CellError::Null)),
        Some("Error: Null".to_string())
    );
    assert_eq!(render_cell(&CellValue::ErrorValue(CellError::Num)), Some("Error: Num".to_string()));
    assert_eq!(render_cell(&CellValue::ErrorValue(CellError::Ref)), Some("Error: Ref".to_string()));
    assert_eq!(
        render_cell(&CellValue::ErrorValue(CellError::Value)),
        Some("Error: Value".to_string())
    );
    assert_eq!(
        render_cell(&CellValue::ErrorValue(CellError::GettingData)),
        Some("Error: GettingData".to_string())
    );
}

#[test]
fn empty_cell_is_skipped() {
    assert_eq!(render_cell(&CellValue::Empty), None);
}

#[test]
fn compact_stamp_rendering() {
    let s = Stamp::checked(2024, 1, 5, 13, 45, 7).unwrap();
    assert_eq!(s.render_compact(), "010524134507");
    let y = Stamp::checked(1999, 12, 31, 23, 59, 59).unwrap();
    assert_eq!(y.render_compact(), "123199235959");
}
