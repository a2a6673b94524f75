//! Substring search across workbook cells.
//!
//! Every cell is rendered with the same rules as the cell normalizer
//! (its textual projection), and a hit is recorded when the query occurs
//! inside the rendered text.  Hits are collected per file in sheet order,
//! rows and columns in row-major order.

use vstd::prelude::*;

use crate::cell::{render_cell, rendered, CellValue};
use crate::normalize::grid_view;

verus! {

/// `needle` occurs as a contiguous run inside `hay`.
pub open spec fn is_substring(needle: Seq<char>, hay: Seq<char>) -> bool {
    exists|i: int|
        0 <= i <= hay.len() - needle.len() && #[trigger] hay.subrange(i, i + needle.len())
            == needle
}

/// Whether the rendering of `c` contains `q` (a skipped cell never hits).
pub open spec fn cell_hit(c: CellValue, q: Seq<char>) -> bool {
    match rendered(c) {
        Some(t) => is_substring(q, t),
        None => false,
    }
}

fn match_at(hay: &str, off: usize, needle: &str) -> (b: bool)
    requires
        off + needle@.len() <= hay@.len(),
        hay@.len() <= usize::MAX,
    ensures
        b == (hay@.subrange(off as int, off + needle@.len()) == needle@),
{
    let n = needle.unicode_len();
    let mut j: usize = 0;
    while j < n
        invariant
            n == needle@.len(),
            off + n <= hay@.len(),
            hay@.len() <= usize::MAX,
            j <= n,
            forall|jj: int| 0 <= jj < j ==> hay@[off + jj] == needle@[jj],
        decreases n - j,
    {
        if hay.get_char(off + j) != needle.get_char(j) {
            proof {
                assert(hay@.subrange(off as int, off + n as int)[j as int] != needle@[j as int]);
            }
            return false;
        }
        j += 1;
    }
    proof {
        assert(hay@.subrange(off as int, off + n as int) =~= needle@);
    }
    true
}

/// Whether `hay` contains `needle`, per `is_substring`.
pub fn contains_substring(hay: &str, needle: &str) -> (b: bool)
    ensures
        b == is_substring(needle@, hay@),
{
    let hn = hay.unicode_len();
    let nn = needle.unicode_len();
    if nn > hn {
        return false;
    }
    let bound = hn - nn;
    let mut i: usize = 0;
    while i <= bound
        invariant
            hn == hay@.len(),
            nn == needle@.len(),
            nn <= hn,
            bound == hn - nn,
            i <= bound + 1,
            forall|ii: int| 0 <= ii < i ==> #[trigger] hay@.subrange(ii, ii + nn) != needle@,
        decreases bound + 1 - i,
    {
        if match_at(hay, i, needle) {
            return true;
        }
        if i == bound {
            return false;
        }
        i += 1;
    }
    false
}

/// One search hit: the sheet, the cell's coordinates, its rendered value,
/// and the file it came from.
#[derive(Debug)]
pub struct SearchHit {
    pub sheet_name: String,
    pub row: usize,
    pub col: usize,
    pub value: String,
    pub file: String,
}

/// The cells of one sheet, ready to scan.
pub struct SheetCells {
    pub name: String,
    pub rows: Vec<Vec<CellValue>>,
}

/// A hit list as (sheet, row, column, value, file) tuples.
pub open spec fn hits_view(s: Seq<SearchHit>) -> Seq<(Seq<char>, nat, nat, Seq<char>, Seq<char>)> {
    s.map_values(
        |h: SearchHit| (h.sheet_name@, h.row as nat, h.col as nat, h.value@, h.file@),
    )
}

/// The hits in the suffix of a row whose first cell is at column `c`.
pub open spec fn row_tail_hits(
    file: Seq<char>,
    sheet: Seq<char>,
    r: nat,
    row: Seq<CellValue>,
    c: nat,
    q: Seq<char>,
) -> Seq<(Seq<char>, nat, nat, Seq<char>, Seq<char>)>
    decreases row.len(),
{
    if row.len() == 0 {
        Seq::empty()
    } else {
        (if cell_hit(row[0], q) {
            seq![(sheet, r, c, rendered(row[0]).unwrap(), file)]
        } else {
            Seq::empty()
        }) + row_tail_hits(file, sheet, r, row.drop_first(), c + 1, q)
    }
}

/// The hits of the rows whose first row has index `r`.
pub open spec fn grid_tail_hits(
    file: Seq<char>,
    sheet: Seq<char>,
    rows: Seq<Seq<CellValue>>,
    r: nat,
    q: Seq<char>,
) -> Seq<(Seq<char>, nat, nat, Seq<char>, Seq<char>)>
    decreases rows.len(),
{
    if rows.len() == 0 {
        Seq::empty()
    } else {
        row_tail_hits(file, sheet, r, rows[0], 0, q) + grid_tail_hits(
            file,
            sheet,
            rows.drop_first(),
            r + 1,
            q,
        )
    }
}

/// All hits of one sheet, in row-major order.
pub open spec fn grid_hits(
    file: Seq<char>,
    sheet: Seq<char>,
    rows: Seq<Seq<CellValue>>,
    q: Seq<char>,
) -> Seq<(Seq<char>, nat, nat, Seq<char>, Seq<char>)> {
    grid_tail_hits(file, sheet, rows, 0, q)
}

/// The view of loaded sheets: (name, grid) pairs.
pub open spec fn sheets_view(s: Seq<SheetCells>) -> Seq<(Seq<char>, Seq<Seq<CellValue>>)> {
    s.map_values(|sc: SheetCells| (sc.name@, grid_view(sc.rows@)))
}

/// All hits of a file's sheets, in sheet order.
pub open spec fn sheets_hits(
    file: Seq<char>,
    sheets: Seq<(Seq<char>, Seq<Seq<CellValue>>)>,
    q: Seq<char>,
) -> Seq<(Seq<char>, nat, nat, Seq<char>, Seq<char>)>
    decreases sheets.len(),
{
    if sheets.len() == 0 {
        Seq::empty()
    } else {
        grid_hits(file, sheets[0].0, sheets[0].1, q) + sheets_hits(file, sheets.drop_first(), q)
    }
}

proof fn lemma_row_tail_hits_snoc(
    file: Seq<char>,
    sheet: Seq<char>,
    r: nat,
    row: Seq<CellValue>,
    c: nat,
    q: Seq<char>,
)
    requires
        row.len() > 0,
    ensures
        row_tail_hits(file, sheet, r, row, c, q) == row_tail_hits(
            file,
            sheet,
            r,
            row.drop_last(),
            c,
            q,
        ) + (if cell_hit(row.last(), q) {
            seq![(sheet, r, (c + row.len() - 1) as nat, rendered(row.last()).unwrap(), file)]
        } else {
            Seq::<(Seq<char>, nat, nat, Seq<char>, Seq<char>)>::empty()
        }),
    decreases row.len(),
{
    if row.len() == 1 {
        assert(row.drop_last() =~= Seq::<CellValue>::empty());
        assert(row.drop_first() =~= Seq::<CellValue>::empty());
        assert(row_tail_hits(file, sheet, r, row.drop_first(), c + 1, q) =~= Seq::<
            (Seq<char>, nat, nat, Seq<char>, Seq<char>),
        >::empty());
        assert(row_tail_hits(file, sheet, r, row.drop_last(), c, q) =~= Seq::<
            (Seq<char>, nat, nat, Seq<char>, Seq<char>),
        >::empty());
        if cell_hit(row[0], q) {
            assert(row_tail_hits(file, sheet, r, row, c, q) =~= seq![
                (sheet, r, c, rendered(row[0]).unwrap(), file),
            ]);
        } else {
            assert(row_tail_hits(file, sheet, r, row, c, q) =~= Seq::<
                (Seq<char>, nat, nat, Seq<char>, Seq<char>),
            >::empty());
        }
    } else {
        let tail = row.drop_first();
        lemma_row_tail_hits_snoc(file, sheet, r, tail, c + 1, q);
        assert(tail.drop_last() =~= row.drop_last().drop_first());
        assert(tail.last() == row.last());
        assert(row.drop_last()[0] == row[0]);
        assert(row.drop_last().len() > 0);
        let head = (if cell_hit(row[0], q) {
            seq![(sheet, r, c, rendered(row[0]).unwrap(), file)]
        } else {
            Seq::<(Seq<char>, nat, nat, Seq<char>, Seq<char>)>::empty()
        });
        let last = (if cell_hit(row.last(), q) {
            seq![(sheet, r, (c + row.len() - 1) as nat, rendered(row.last()).unwrap(), file)]
        } else {
            Seq::<(Seq<char>, nat, nat, Seq<char>, Seq<char>)>::empty()
        });
        assert(row_tail_hits(file, sheet, r, row, c, q) == head + (row_tail_hits(
            file,
            sheet,
            r,
            tail.drop_last(),
            c + 1,
            q,
        ) + last));
        assert(row_tail_hits(file, sheet, r, row.drop_last(), c, q) == head + row_tail_hits(
            file,
            sheet,
            r,
            row.drop_last().drop_first(),
            c + 1,
            q,
        ));
        assert(head + (row_tail_hits(file, sheet, r, tail.drop_last(), c + 1, q) + last) =~= (head
            + row_tail_hits(file, sheet, r, tail.drop_last(), c + 1, q)) + last);
    }
}

proof fn lemma_grid_tail_hits_snoc(
    file: Seq<char>,
    sheet: Seq<char>,
    rows: Seq<Seq<CellValue>>,
    r: nat,
    q: Seq<char>,
)
    requires
        rows.len() > 0,
    ensures
        grid_tail_hits(file, sheet, rows, r, q) == grid_tail_hits(
            file,
            sheet,
            rows.drop_last(),
            r,
            q,
        ) + row_tail_hits(file, sheet, (r + rows.len() - 1) as nat, rows.last(), 0, q),
    decreases rows.len(),
{
    if rows.len() == 1 {
        assert(rows.drop_last() =~= Seq::<Seq<CellValue>>::empty());
        assert(rows.drop_first() =~= Seq::<Seq<CellValue>>::empty());
        assert(grid_tail_hits(file, sheet, rows.drop_first(), r + 1, q) =~= Seq::<
            (Seq<char>, nat, nat, Seq<char>, Seq<char>),
        >::empty());
        assert(grid_tail_hits(file, sheet, rows.drop_last(), r, q) =~= Seq::<
            (Seq<char>, nat, nat, Seq<char>, Seq<char>),
        >::empty());
        assert(grid_tail_hits(file, sheet, rows, r, q) =~= row_tail_hits(
            file,
            sheet,
            r,
            rows[0],
            0,
            q,
        ));
        assert(grid_tail_hits(file, sheet, rows.drop_last(), r, q) + row_tail_hits(
            file,
            sheet,
            r,
            rows.last(),
            0,
            q,
        ) =~= row_tail_hits(file, sheet, r, rows[0], 0, q));
    } else {
        let tail = rows.drop_first();
        lemma_grid_tail_hits_snoc(file, sheet, tail, r + 1, q);
        assert(tail.drop_last() =~= rows.drop_last().drop_first());
        assert(tail.last() == rows.last());
        assert(rows.drop_last()[0] == rows[0]);
        assert(rows.drop_last().len() > 0);
        let head = row_tail_hits(file, sheet, r, rows[0], 0, q);
        let last = row_tail_hits(file, sheet, (r + rows.len() - 1) as nat, rows.last(), 0, q);
        assert(grid_tail_hits(file, sheet, rows, r, q) == head + (grid_tail_hits(
            file,
            sheet,
            tail.drop_last(),
            r + 1,
            q,
        ) + last));
        assert(grid_tail_hits(file, sheet, rows.drop_last(), r, q) == head + grid_tail_hits(
            file,
            sheet,
            rows.drop_last().drop_first(),
            r + 1,
            q,
        ));
        assert(head + (grid_tail_hits(file, sheet, tail.drop_last(), r + 1, q) + last) =~= (head
            + grid_tail_hits(file, sheet, tail.drop_last(), r + 1, q)) + last);
    }
}

/// Scans one sheet: every cell is rendered and tested, and hits are
/// listed in row-major order.
pub fn search_sheet(file: &String, sheet_name: &String, rows: &Vec<Vec<CellValue>>, query: &str) -> (
    out: Vec<SearchHit>)
    ensures
        hits_view(out@) == grid_hits(file@, sheet_name@, grid_view(rows@), query@),
{
    let mut out: Vec<SearchHit> = Vec::new();
    let mut r: usize = 0;
    while r < rows.len()
        invariant
            r <= rows@.len(),
            hits_view(out@) == grid_tail_hits(
                file@,
                sheet_name@,
                grid_view(rows@).take(r as int),
                0,
                query@,
            ),
        decreases rows@.len() - r,
    {
        let row = &rows[r];
        let ghost out_at_row_start = out@;
        let mut c: usize = 0;
        while c < row.len()
            invariant
                r < rows@.len(),
                row == &rows[r as int],
                c <= row@.len(),
                hits_view(out@) == hits_view(out_at_row_start) + row_tail_hits(
                    file@,
                    sheet_name@,
                    r as nat,
                    row@.take(c as int),
                    0,
                    query@,
                ),
            decreases row@.len() - c,
        {
            let ghost prefix = row@.take(c as int);
            let ghost out_before_cell = out@;
            match render_cell(&row[c]) {
                Some(t) => {
                    let ghost tv = t@;
                    if contains_substring(t.as_str(), query) {
                        out.push(
                            SearchHit {
                                sheet_name: sheet_name.clone(),
                                row: r,
                                col: c,
                                value: t,
                                file: file.clone(),
                            },
                        );
                        proof {
                            assert(cell_hit(row@[c as int], query@));
                            assert(rendered(row@[c as int]).unwrap() == tv);
                            assert(hits_view(out@) =~= hits_view(out_before_cell).push(
                                (sheet_name@, r as nat, c as nat, tv, file@),
                            ));
                        }
                    } else {
                        proof {
                            assert(!cell_hit(row@[c as int], query@));
                        }
                    }
                },
                None => {
                    proof {
                        assert(!cell_hit(row@[c as int], query@));
                    }
                },
            }
            proof {
                let longer = row@.take(c as int + 1);
                lemma_row_tail_hits_snoc(file@, sheet_name@, r as nat, longer, 0, query@);
                assert(longer.drop_last() =~= prefix);
                assert(longer.last() == row@[c as int]);
                assert(hits_view(out@) =~= hits_view(out_at_row_start) + row_tail_hits(
                    file@,
                    sheet_name@,
                    r as nat,
                    longer,
                    0,
                    query@,
                ));
            }
            c += 1;
        }
        proof {
            assert(row@.take(row@.len() as int) =~= row@);
            let g = grid_view(rows@);
            let longer = g.take(r as int + 1);
            lemma_grid_tail_hits_snoc(file@, sheet_name@, longer, 0, query@);
            assert(longer.drop_last() =~= g.take(r as int));
            assert(longer.last() == g[r as int]);
            assert(g[r as int] == rows@[r as int]@);
            assert(hits_view(out@) =~= grid_tail_hits(file@, sheet_name@, longer, 0, query@));
        }
        r += 1;
    }
    proof {
        let g = grid_view(rows@);
        assert(g.take(g.len() as int) =~= g);
    }
    out
}

/// Scans a whole loaded file: all sheets, in order.
pub fn search_sheets(file: &String, sheets: &Vec<SheetCells>, query: &str) -> (out: Vec<SearchHit>)
    ensures
        hits_view(out@) == sheets_hits(file@, sheets_view(sheets@), query@),
{
    let mut out: Vec<SearchHit> = Vec::new();
    let mut i: usize = 0;
    proof {
        assert(sheets_view(sheets@).subrange(0, sheets_view(sheets@).len() as int) =~= sheets_view(
            sheets@,
        ));
    }
    while i < sheets.len()
        invariant
            i <= sheets@.len(),
            hits_view(out@) + sheets_hits(
                file@,
                sheets_view(sheets@).subrange(i as int, sheets@.len() as int),
                query@,
            ) == sheets_hits(file@, sheets_view(sheets@), query@),
        decreases sheets@.len() - i,
    {
        let sc = &sheets[i];
        let mut part = search_sheet(file, &sc.name, &sc.rows, query);
        let ghost part_view = hits_view(part@);
        let ghost out_before = out@;
        out.append(&mut part);
        proof {
            let sv = sheets_view(sheets@);
            let rest = sv.subrange(i as int, sv.len() as int);
            assert(rest.len() > 0);
            assert(rest[0] == sv[i as int]);
            assert(sv[i as int] == (sheets@[i as int].name@, grid_view(sheets@[i as int].rows@)));
            assert(rest.drop_first() =~= sv.subrange(i as int + 1, sv.len() as int));
            assert(hits_view(out@) =~= hits_view(out_before) + part_view);
            assert(hits_view(out_before) + (part_view + sheets_hits(
                file@,
                rest.drop_first(),
                query@,
            )) =~= (hits_view(out_before) + part_view) + sheets_hits(
                file@,
                rest.drop_first(),
                query@,
            ));
        }
        i += 1;
    }
    proof {
        assert(sheets_view(sheets@).subrange(
            sheets@.len() as int,
            sheets@.len() as int,
        ) =~= Seq::<(Seq<char>, Seq<Seq<CellValue>>)>::empty());
    }
    out
}

} // verus!
