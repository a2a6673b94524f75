//! The workbook transformer's computing half: from raw workbook bytes to
//! the exact list of normalized cells to write, and the naming of the
//! output file.
//!
//! Writing the output workbook itself goes through a native spreadsheet
//! writer outside this library; the caller hands it the prepared cells in
//! the order given here, which is the source's row-major order.

use vstd::prelude::*;

use crate::cell::{stamp_compact_text, CellValue, Stamp};
use crate::normalize::{cells_view, grid_normalized, grid_view, normalize_rows, NormalizedCell};
use crate::sheetio::{load_first_sheet, now_stamp, parsed_sheets, WorkbookError};

verus! {

/// A loaded first sheet with its normalized cells: `cells` is exactly the
/// normalization of `rows`, in row-major order with skipped cells
/// omitted.
pub struct PreparedSheet {
    pub rows: Vec<Vec<CellValue>>,
    pub cells: Vec<NormalizedCell>,
}

/// The name of an output workbook: the output directory, then
/// `firstsheet`, the stamp as `MMDDYYHHMMSS`, and `.xlsx`.
pub open spec fn output_name_text(dir: Seq<char>, s: Stamp) -> Seq<char> {
    dir + seq!['/', 'f', 'i', 'r', 's', 't', 's', 'h', 'e', 'e', 't'] + stamp_compact_text(s)
        + seq!['.', 'x', 'l', 's', 'x']
}

/// Builds the output path for a workbook produced at time `s`.
pub fn output_path(dir: &str, s: &Stamp) -> (r: String)
    ensures
        r@ == output_name_text(dir@, *s),
{
    let mut out = dir.to_owned();
    out.append("/firstsheet");
    out.append(s.render_compact().as_str());
    out.append(".xlsx");
    proof {
        reveal_strlit("/firstsheet");
        reveal_strlit(".xlsx");
        assert("/firstsheet"@ =~= seq!['/', 'f', 'i', 'r', 's', 't', 's', 'h', 'e', 'e', 't']);
        assert(".xlsx"@ =~= seq!['.', 'x', 'l', 's', 'x']);
        assert(out@ =~= output_name_text(dir@, *s));
    }
    out
}

/// Builds an output path from the clock: second resolution, so two
/// workbooks produced within the same second share a name and the later
/// one overwrites the earlier — an accepted collision, the caller
/// staggers calls where that matters.
pub fn fresh_output_path(dir: &str) -> (r: String)
    ensures
        exists|s: Stamp| r@ == output_name_text(dir@, s),
{
    let stamp = now_stamp();
    let r = output_path(dir, &stamp);
    proof {
        assert(r@ == output_name_text(dir@, stamp));
    }
    r
}

/// The workbook transformer's computing step: parses the bytes, selects
/// the first sheet by position, and normalizes every populated cell.
/// Success comes exactly when the bytes parse, a first sheet exists, and
/// its used range reads non-empty; the result then carries that sheet's
/// grid and exactly its normalization, in row-major order, skipped cells
/// omitted.  Unrecognized bytes and an unreadable first sheet are
/// `Unreadable`, a sheetless workbook is `NoSheets`, and an empty used
/// range is `EmptyRange` — each exactly in its case.
pub fn prepare_workbook(bytes: &Vec<u8>) -> (r: Result<PreparedSheet, WorkbookError>)
    ensures
        match r {
            Ok(p) => parsed_sheets(bytes@) matches Some(l) && l.len() > 0 && l[0].1 == Some(
                grid_view(p.rows@),
            ) && grid_view(p.rows@).len() > 0 && cells_view(p.cells@) == grid_normalized(
                grid_view(p.rows@),
            ),
            Err(e) => match e {
                WorkbookError::NoSheets => parsed_sheets(bytes@) matches Some(l) && l.len() == 0,
                WorkbookError::EmptyRange => parsed_sheets(bytes@) matches Some(l) && l.len() > 0
                    && (l[0].1 matches Some(g) && g.len() == 0),
                WorkbookError::Unreadable(_) => parsed_sheets(bytes@) is None || (parsed_sheets(
                    bytes@,
                ) matches Some(l) && l.len() > 0 && l[0].1 is None),
            },
        },
{
    match load_first_sheet(bytes) {
        Err(e) => Err(e),
        Ok(rows) => {
            if rows.len() == 0 {
                return Err(WorkbookError::EmptyRange);
            }
            let cells = normalize_rows(&rows);
            Ok(PreparedSheet { rows, cells })
        },
    }
}

} // verus!
