//! The trusted boundary to the workbook reader and the clock.
//!
//! The calamine crate parses workbook bytes; parsing is deterministic, so
//! what a byte stream holds is given a name, `parsed_sheets`, and every
//! wrapper's contract speaks of it.  Each cell is carried over into the
//! library's plain cell model at this boundary, and everything after that
//! conversion is verified.

use vstd::prelude::*;

use crate::cell::{CellError, CellValue, Stamp};
use crate::normalize::grid_view;
use crate::search::{sheets_view, SheetCells};
use calamine::Reader;
use chrono::{Datelike, Timelike};

verus! {

#[verifier::external_type_specification]
#[verifier::external_body]
#[verifier::reject_recursive_types(RS)]
pub struct ExSheets<RS>(calamine::Sheets<RS>);

#[verifier::external_type_specification]
#[verifier::external_body]
pub struct ExData(calamine::Data);

#[verifier::external_type_specification]
#[verifier::external_body]
pub struct ExCellErrorType(calamine::CellErrorType);

#[verifier::external_type_specification]
#[verifier::external_body]
pub struct ExExcelDateTime(calamine::ExcelDateTime);

/// What a workbook byte stream parses to, or nothing when the bytes are
/// not recognized as a workbook: per sheet, in workbook order, its name
/// and its used range as the library's cell model — or nothing in its
/// place where that sheet's range cannot be read.  Parsing is a function
/// of the bytes alone.
pub uninterp spec fn parsed_sheets(bytes: Seq<u8>) -> Option<
    Seq<(Seq<char>, Option<Seq<Seq<CellValue>>>)>,
>;

/// What an opened workbook holds: its sheet names, in workbook order.
pub uninterp spec fn wb_sheet_names(wb: calamine::Sheets<std::io::Cursor<Vec<u8>>>) -> Seq<
    Seq<char>,
>;

/// The used range an opened workbook yields for a sheet name, as the
/// library's cell model, or nothing where the lookup or the read fails.
pub uninterp spec fn wb_grid(
    wb: calamine::Sheets<std::io::Cursor<Vec<u8>>>,
    name: Seq<char>,
) -> Option<Seq<Seq<CellValue>>>;

/// The names of the parsed sheets, in order.
pub open spec fn sheet_names_of(l: Seq<(Seq<char>, Option<Seq<Seq<CellValue>>>)>) -> Seq<
    Seq<char>,
> {
    l.map_values(|p: (Seq<char>, Option<Seq<Seq<CellValue>>>)| p.0)
}

/// The parsed sheets with every range read, (name, grid) per sheet.
pub open spec fn sheets_of(l: Seq<(Seq<char>, Option<Seq<Seq<CellValue>>>)>) -> Seq<
    (Seq<char>, Seq<Seq<CellValue>>),
> {
    l.map_values(|p: (Seq<char>, Option<Seq<Seq<CellValue>>>)| (p.0, p.1.unwrap()))
}

/// What a workbook byte stream loads to when every sheet's range reads,
/// and nothing when the bytes do not parse or any sheet's range fails.
pub open spec fn loaded_sheets(bytes: Seq<u8>) -> Option<Seq<(Seq<char>, Seq<Seq<CellValue>>)>> {
    match parsed_sheets(bytes) {
        Option::None => Option::None,
        Option::Some(l) => if forall|i: int| 0 <= i < l.len() ==> (#[trigger] l[i]).1 is Some {
            Option::Some(sheets_of(l))
        } else {
            Option::None
        },
    }
}

/// Relies on calamine's `open_workbook_auto_from_rs`: detects the
/// workbook container format from the bytes and parses it, a function of
/// the bytes alone — success, the sheet list and each sheet's range are
/// all determined by the bytes.  The message on failure describes the
/// parse error.
#[verifier::external_body]
pub(crate) fn open_workbook_bytes(bytes: &Vec<u8>) -> (r: Result<
    calamine::Sheets<std::io::Cursor<Vec<u8>>>,
    String,
>)
    ensures
        match r {
            Ok(wb) => parsed_sheets(bytes@) matches Some(l) && wb_sheet_names(wb)
                == sheet_names_of(l) && (forall|i: int|
                0 <= i < l.len() ==> (#[trigger] l[i]).1 == wb_grid(wb, l[i].0)),
            Err(_) => parsed_sheets(bytes@) is None,
        },
{
    calamine::open_workbook_auto_from_rs(std::io::Cursor::new(bytes.clone())).map_err(
        |e| format!("{}", e),
    )
}

/// Relies on calamine's `Reader::sheet_names`: the workbook's sheet names
/// in workbook order.
#[verifier::external_body]
pub(crate) fn workbook_sheet_names(wb: &calamine::Sheets<std::io::Cursor<Vec<u8>>>) -> (r: Vec<
    String,
>)
    ensures
        r@.map_values(|s: String| s@) == wb_sheet_names(*wb),
{
    wb.sheet_names()
}

/// Relies on calamine's `Reader::worksheet_range`: the named sheet's used
/// range, row by row at the range's full width, each cell carried into
/// the library's model through `cell_of_data`.  Reading is by name and
/// deterministic, and changes neither the sheet list nor what any name
/// yields; the message on failure describes the error.
#[verifier::external_body]
pub(crate) fn workbook_sheet_rows(
    wb: &mut calamine::Sheets<std::io::Cursor<Vec<u8>>>,
    name: &String,
) -> (r: Result<Vec<Vec<CellValue>>, String>)
    ensures
        wb_sheet_names(*final(wb)) == wb_sheet_names(*old(wb)),
        forall|n: Seq<char>| #[trigger] wb_grid(*final(wb), n) == wb_grid(*old(wb), n),
        match r {
            Ok(rows) => wb_grid(*old(wb), name@) == Some(grid_view(rows@)),
            Err(_) => wb_grid(*old(wb), name@) is None,
        },
{
    match wb.worksheet_range(name.as_str()) {
        Ok(range) => Ok(
            range.rows().map(|row| row.iter().map(|d| cell_of_data(d)).collect()).collect(),
        ),
        Err(e) => Err(format!("{}", e)),
    }
}

/// Relies on calamine's `ExcelDateTime::as_datetime` and chrono's
/// calendar accessors: decodes the serial value into calendar fields
/// where possible; a value that does not decode, or whose fields fall
/// outside the library's calendar ranges, yields nothing.
#[verifier::external_body]
fn stamp_of_datetime(d: &calamine::ExcelDateTime) -> (r: Option<Stamp>)
{
    d.as_datetime().and_then(
        |t| Stamp::checked(t.year(), t.month(), t.day(), t.hour(), t.minute(), t.second()),
    )
}

/// Relies on calamine's `CellErrorType`: each error code is carried to
/// the library's matching code, one arm per variant.
#[verifier::external_body]
fn error_of(e: &calamine::CellErrorType) -> (r: CellError)
{
    match e {
        calamine::CellErrorType::Div0 => CellError::Div0,
        calamine::CellErrorType::NA => CellError::NA,
        calamine::CellErrorType::Name => CellError::Name,
        calamine::CellErrorType::Null => CellError::Null,
        calamine::CellErrorType::Num => CellError::Num,
        calamine::CellErrorType::Ref => CellError::Ref,
        calamine::CellErrorType::Value => CellError::Value,
        calamine::CellErrorType::GettingData => CellError::GettingData,
    }
}

/// Relies on calamine's `Data` variants: each parsed cell is carried into
/// the library's cell model, one arm per variant.  A float becomes its
/// decimal rendering here, where the float exists; ISO-formatted date and
/// duration text is skipped, as the pipeline does not convert it.
#[verifier::external_body]
pub(crate) fn cell_of_data(d: &calamine::Data) -> (r: CellValue)
{
    match d {
        calamine::Data::String(s) => CellValue::Text(s.clone()),
        calamine::Data::Float(f) => CellValue::Number(f.to_string()),
        calamine::Data::Int(i) => CellValue::Integer(*i),
        calamine::Data::Bool(b) => CellValue::Boolean(*b),
        calamine::Data::DateTime(t) => CellValue::Timestamp(stamp_of_datetime(t)),
        calamine::Data::Error(e) => CellValue::ErrorValue(error_of(e)),
        _ => CellValue::Empty,
    }
}

/// Relies on chrono's `Local::now` and its calendar accessors: reads the
/// wall clock.  Whatever the clock says, the result is a well-formed
/// stamp; a reading outside the library's calendar ranges falls back to
/// the earliest renderable stamp.
#[verifier::external_body]
pub(crate) fn now_stamp() -> (r: Stamp)
{
    let t = chrono::Local::now();
    Stamp::checked(t.year(), t.month(), t.day(), t.hour(), t.minute(), t.second()).unwrap_or_else(
        Stamp::earliest,
    )
}

/// A failure while reading a workbook.
#[derive(Debug)]
pub enum WorkbookError {
    /// The bytes were not recognized as a workbook, or a sheet's range
    /// could not be read; carries the reader's description.
    Unreadable(String),
    /// The workbook holds no sheets at all.
    NoSheets,
    /// The first sheet's used range is empty.
    EmptyRange,
}

impl WorkbookError {
    /// A human-readable description of the failure.
    pub fn message(&self) -> (r: String)
        ensures
            match self {
                WorkbookError::Unreadable(m) => r@ == "unreadable workbook: "@ + m@,
                WorkbookError::NoSheets => r@ == "no sheets present"@,
                WorkbookError::EmptyRange => r@ == "empty sheet range"@,
            },
    {
        match self {
            WorkbookError::Unreadable(m) => {
                let mut s = "unreadable workbook: ".to_owned();
                s.append(m.as_str());
                s
            },
            WorkbookError::NoSheets => "no sheets present".to_owned(),
            WorkbookError::EmptyRange => "empty sheet range".to_owned(),
        }
    }
}

/// Opens workbook bytes and loads the first sheet — selected by position,
/// never by name — as the library's cell model.  Bytes that do not parse
/// are `Unreadable`, a workbook without sheets is `NoSheets`, a first
/// sheet whose range cannot be read is `Unreadable`; exactly otherwise
/// the first sheet's grid is returned.
pub fn load_first_sheet(bytes: &Vec<u8>) -> (r: Result<Vec<Vec<CellValue>>, WorkbookError>)
    ensures
        match r {
            Ok(rows) => parsed_sheets(bytes@) matches Some(l) && l.len() > 0 && l[0].1 == Some(
                grid_view(rows@),
            ),
            Err(e) => match e {
                WorkbookError::NoSheets => parsed_sheets(bytes@) matches Some(l) && l.len() == 0,
                WorkbookError::Unreadable(_) => parsed_sheets(bytes@) is None || (parsed_sheets(
                    bytes@,
                ) matches Some(l) && l.len() > 0 && l[0].1 is None),
                WorkbookError::EmptyRange => false,
            },
        },
{
    let mut wb = match open_workbook_bytes(bytes) {
        Ok(w) => w,
        Err(m) => {
            return Err(WorkbookError::Unreadable(m));
        },
    };
    let ghost l = parsed_sheets(bytes@).unwrap();
    let names = workbook_sheet_names(&wb);
    proof {
        assert(names@.map_values(|s: String| s@).len() == names@.len());
        assert(sheet_names_of(l).len() == l.len());
    }
    if names.len() == 0 {
        return Err(WorkbookError::NoSheets);
    }
    proof {
        assert(names@.map_values(|s: String| s@)[0] == names@[0]@);
        assert(sheet_names_of(l)[0] == l[0].0);
        assert(l[0].1 == wb_grid(wb, l[0].0));
    }
    let first = names[0].clone();
    match workbook_sheet_rows(&mut wb, &first) {
        Ok(rows) => Ok(rows),
        Err(m) => Err(WorkbookError::Unreadable(m)),
    }
}

/// Opens workbook bytes and loads every sheet, in workbook order, as the
/// library's cell model.  Exactly when the bytes parse and every sheet's
/// range reads, all sheets are returned; any failure fails the whole
/// load.
pub fn load_all_sheets(bytes: &Vec<u8>) -> (r: Result<Vec<SheetCells>, String>)
    ensures
        match r {
            Ok(sheets) => loaded_sheets(bytes@) == Some(sheets_view(sheets@)),
            Err(_) => loaded_sheets(bytes@) is None,
        },
{
    let mut wb = match open_workbook_bytes(bytes) {
        Ok(w) => w,
        Err(m) => {
            return Err(m);
        },
    };
    let ghost l = parsed_sheets(bytes@).unwrap();
    let names = workbook_sheet_names(&wb);
    proof {
        assert(names@.map_values(|s: String| s@).len() == names@.len());
        assert(sheet_names_of(l).len() == l.len());
    }
    let mut out: Vec<SheetCells> = Vec::new();
    let mut i: usize = 0;
    while i < names.len()
        invariant
            i <= names@.len(),
            parsed_sheets(bytes@) == Some(l),
            names@.len() == l.len(),
            names@.map_values(|s: String| s@) == sheet_names_of(l),
            wb_sheet_names(wb) == sheet_names_of(l),
            forall|k: int| 0 <= k < l.len() ==> (#[trigger] l[k]).1 == wb_grid(wb, l[k].0),
            forall|k: int| 0 <= k < i ==> (#[trigger] l[k]).1 is Some,
            out@.len() == i,
            forall|k: int|
                0 <= k < i ==> (#[trigger] sheets_view(out@)[k]) == (l[k].0, l[k].1.unwrap()),
        decreases names@.len() - i,
    {
        proof {
            assert(names@.map_values(|s: String| s@)[i as int] == names@[i as int]@);
            assert(sheet_names_of(l)[i as int] == l[i as int].0);
            assert(l[i as int].1 == wb_grid(wb, l[i as int].0));
        }
        let name = names[i].clone();
        let ghost wb_pre = wb;
        let rows = match workbook_sheet_rows(&mut wb, &name) {
            Ok(d) => d,
            Err(m) => {
                proof {
                    assert(l[i as int].1 is None);
                }
                return Err(m);
            },
        };
        proof {
            assert(l[i as int].1 == Some(grid_view(rows@)));
            assert forall|k: int| 0 <= k < l.len() implies (#[trigger] l[k]).1 == wb_grid(
                wb,
                l[k].0,
            ) by {
                assert(wb_grid(wb, l[k].0) == wb_grid(wb_pre, l[k].0));
            }
        }
        let ghost out_pre = out@;
        out.push(SheetCells { name, rows });
        proof {
            assert forall|k: int| 0 <= k < i + 1 implies (#[trigger] sheets_view(out@)[k]) == (
            l[k].0,
            l[k].1.unwrap(),
            ) by {
                if k < i {
                    assert(out@[k] == out_pre[k]);
                    assert(sheets_view(out@)[k] == sheets_view(out_pre)[k]);
                } else {
                    assert(sheets_view(out@)[k] == (out@[k].name@, grid_view(out@[k].rows@)));
                }
            }
        }
        i += 1;
    }
    proof {
        assert(forall|k: int| 0 <= k < l.len() ==> (#[trigger] l[k]).1 is Some);
        assert(sheets_view(out@) =~= sheets_of(l));
    }
    Ok(out)
}

} // verus!
