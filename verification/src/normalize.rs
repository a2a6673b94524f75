//! Normalization of a sheet's grid: every populated cell is rendered to
//! its canonical text and listed with its coordinates in row-major order;
//! skipped cells (empty ones, and undecodable timestamps) are omitted.
//!
//! Rendering the cells of distinct rows is independent work, so it is
//! fanned out across rows through a data-parallel iterator; the collected
//! result is in the original row order, and flattening it is sequential.

use vstd::prelude::*;

use crate::cell::{render_cell, rendered, CellValue};
use rayon::iter::{IndexedParallelIterator, IntoParallelRefIterator, ParallelIterator};

verus! {

/// One normalized cell: zero-based source coordinates and canonical text.
#[derive(Debug)]
pub struct NormalizedCell {
    pub row: usize,
    pub col: usize,
    pub text: String,
}

/// A produced cell list as (row, column, text) triples.
pub open spec fn cells_view(s: Seq<NormalizedCell>) -> Seq<(nat, nat, Seq<char>)> {
    s.map_values(|c: NormalizedCell| (c.row as nat, c.col as nat, c.text@))
}

/// The normalized suffix of row `r` whose first cell sits at column `c`.
pub open spec fn row_tail_normalized(r: nat, row: Seq<CellValue>, c: nat) -> Seq<
    (nat, nat, Seq<char>),
>
    decreases row.len(),
{
    if row.len() == 0 {
        Seq::empty()
    } else {
        (match rendered(row[0]) {
            Some(t) => seq![(r, c, t)],
            None => Seq::empty(),
        }) + row_tail_normalized(r, row.drop_first(), c + 1)
    }
}

/// The normalized cells of row `r`, in column order.
pub open spec fn row_normalized(r: nat, row: Seq<CellValue>) -> Seq<(nat, nat, Seq<char>)> {
    row_tail_normalized(r, row, 0)
}

/// The normalized cells of the rows, the first of which has row index `r`.
pub open spec fn grid_tail_normalized(rows: Seq<Seq<CellValue>>, r: nat) -> Seq<
    (nat, nat, Seq<char>),
>
    decreases rows.len(),
{
    if rows.len() == 0 {
        Seq::empty()
    } else {
        row_normalized(r, rows[0]) + grid_tail_normalized(rows.drop_first(), r + 1)
    }
}

/// The normalized cells of a whole grid, in row-major order.
pub open spec fn grid_normalized(rows: Seq<Seq<CellValue>>) -> Seq<(nat, nat, Seq<char>)> {
    grid_tail_normalized(rows, 0)
}

/// The mathematical grid behind a vector of rows.
pub open spec fn grid_view(rows: Seq<Vec<CellValue>>) -> Seq<Seq<CellValue>> {
    rows.map_values(|v: Vec<CellValue>| v@)
}

proof fn lemma_row_tail_snoc(r: nat, row: Seq<CellValue>, c: nat)
    requires
        row.len() > 0,
    ensures
        row_tail_normalized(r, row, c) == row_tail_normalized(r, row.drop_last(), c) + (match
            rendered(row.last()) {
            Some(t) => seq![(r, (c + row.len() - 1) as nat, t)],
            None => Seq::<(nat, nat, Seq<char>)>::empty(),
        }),
    decreases row.len(),
{
    if row.len() == 1 {
        assert(row.drop_last() =~= Seq::<CellValue>::empty());
        assert(row.drop_first() =~= Seq::<CellValue>::empty());
        assert(row.last() == row[0]);
        assert(row_tail_normalized(r, row.drop_first(), c + 1) =~= Seq::<
            (nat, nat, Seq<char>),
        >::empty());
        assert(row_tail_normalized(r, row.drop_last(), c) =~= Seq::<
            (nat, nat, Seq<char>),
        >::empty());
        match rendered(row[0]) {
            Some(t) => {
                assert(row_tail_normalized(r, row, c) =~= seq![(r, c, t)]);
                assert(row_tail_normalized(r, row.drop_last(), c) + seq![(r, c, t)] =~= seq![
                    (r, c, t),
                ]);
            },
            None => {
                assert(row_tail_normalized(r, row, c) =~= Seq::<(nat, nat, Seq<char>)>::empty());
            },
        }
    } else {
        let tail = row.drop_first();
        lemma_row_tail_snoc(r, tail, c + 1);
        assert(tail.drop_last() =~= row.drop_last().drop_first());
        assert(tail.last() == row.last());
        assert(row.drop_last()[0] == row[0]);
        assert(row.drop_last().len() > 0);
        let head = (match rendered(row[0]) {
            Some(t) => seq![(r, c, t)],
            None => Seq::<(nat, nat, Seq<char>)>::empty(),
        });
        let last = (match rendered(row.last()) {
            Some(t) => seq![(r, (c + row.len() - 1) as nat, t)],
            None => Seq::<(nat, nat, Seq<char>)>::empty(),
        });
        assert(row_tail_normalized(r, row, c) == head + (row_tail_normalized(r, tail.drop_last(), c
            + 1) + last));
        assert(row_tail_normalized(r, row.drop_last(), c) == head + row_tail_normalized(
            r,
            row.drop_last().drop_first(),
            c + 1,
        ));
        assert(head + (row_tail_normalized(r, tail.drop_last(), c + 1) + last) =~= (head
            + row_tail_normalized(r, tail.drop_last(), c + 1)) + last);
    }
}

proof fn lemma_grid_tail_snoc(rows: Seq<Seq<CellValue>>, r: nat)
    requires
        rows.len() > 0,
    ensures
        grid_tail_normalized(rows, r) == grid_tail_normalized(rows.drop_last(), r)
            + row_normalized((r + rows.len() - 1) as nat, rows.last()),
    decreases rows.len(),
{
    if rows.len() == 1 {
        assert(rows.drop_last() =~= Seq::<Seq<CellValue>>::empty());
        assert(rows.drop_first() =~= Seq::<Seq<CellValue>>::empty());
        assert(grid_tail_normalized(rows.drop_first(), r + 1) =~= Seq::<
            (nat, nat, Seq<char>),
        >::empty());
        assert(grid_tail_normalized(rows.drop_last(), r) =~= Seq::<
            (nat, nat, Seq<char>),
        >::empty());
        assert(grid_tail_normalized(rows, r) =~= row_normalized(r, rows[0]));
        assert(grid_tail_normalized(rows.drop_last(), r) + row_normalized(r, rows.last())
            =~= row_normalized(r, rows[0]));
    } else {
        let tail = rows.drop_first();
        lemma_grid_tail_snoc(tail, r + 1);
        assert(tail.drop_last() =~= rows.drop_last().drop_first());
        assert(tail.last() == rows.last());
        assert(rows.drop_last()[0] == rows[0]);
        assert(rows.drop_last().len() > 0);
        let head = row_normalized(r, rows[0]);
        let last = row_normalized((r + rows.len() - 1) as nat, rows.last());
        assert(grid_tail_normalized(rows, r) == head + (grid_tail_normalized(tail.drop_last(), r
            + 1) + last));
        assert(grid_tail_normalized(rows.drop_last(), r) == head + grid_tail_normalized(
            rows.drop_last().drop_first(),
            r + 1,
        ));
        assert(head + (grid_tail_normalized(tail.drop_last(), r + 1) + last) =~= (head
            + grid_tail_normalized(tail.drop_last(), r + 1)) + last);
    }
}

proof fn lemma_row_tail_sound(r: nat, row: Seq<CellValue>, c: nat)
    ensures
        forall|k: int|
            0 <= k < row_tail_normalized(r, row, c).len() ==> {
                let e = #[trigger] row_tail_normalized(r, row, c)[k];
                e.0 == r && c <= e.1 < c + row.len() && rendered(row[e.1 - c]) == Some(e.2)
            },
    decreases row.len(),
{
    if row.len() == 0 {
    } else {
        lemma_row_tail_sound(r, row.drop_first(), c + 1);
        let whole = row_tail_normalized(r, row, c);
        let rest = row_tail_normalized(r, row.drop_first(), c + 1);
        assert forall|k: int| 0 <= k < whole.len() implies {
            let e = #[trigger] whole[k];
            e.0 == r && c <= e.1 < c + row.len() && rendered(row[e.1 - c]) == Some(e.2)
        } by {
            let head_len = whole.len() - rest.len();
            if k >= head_len {
                let e = whole[k];
                assert(e == rest[k - head_len]);
                assert(row.drop_first()[e.1 - (c + 1)] == row[e.1 - c]);
            }
        }
    }
}

proof fn lemma_row_tail_increasing(r: nat, row: Seq<CellValue>, c: nat)
    ensures
        forall|k1: int, k2: int|
            0 <= k1 < k2 < row_tail_normalized(r, row, c).len()
                ==> #[trigger] row_tail_normalized(r, row, c)[k1].1
                < #[trigger] row_tail_normalized(r, row, c)[k2].1,
    decreases row.len(),
{
    if row.len() == 0 {
    } else {
        lemma_row_tail_increasing(r, row.drop_first(), c + 1);
        lemma_row_tail_sound(r, row.drop_first(), c + 1);
        let whole = row_tail_normalized(r, row, c);
        let rest = row_tail_normalized(r, row.drop_first(), c + 1);
        assert forall|k1: int, k2: int| 0 <= k1 < k2 < whole.len() implies #[trigger] whole[k1].1
            < #[trigger] whole[k2].1 by {
            let head_len = whole.len() - rest.len();
            if k1 < head_len {
                assert(whole[k1].1 == c);
                assert(whole[k2] == rest[k2 - head_len]);
            } else {
                assert(whole[k1] == rest[k1 - head_len]);
                assert(whole[k2] == rest[k2 - head_len]);
            }
        }
    }
}

proof fn lemma_grid_tail_sound(rows: Seq<Seq<CellValue>>, r: nat)
    ensures
        forall|k: int|
            0 <= k < grid_tail_normalized(rows, r).len() ==> {
                let e = #[trigger] grid_tail_normalized(rows, r)[k];
                r <= e.0 < r + rows.len() && e.1 < rows[e.0 - r].len() && rendered(
                    rows[e.0 - r][e.1 as int],
                ) == Some(e.2)
            },
    decreases rows.len(),
{
    if rows.len() == 0 {
    } else {
        lemma_grid_tail_sound(rows.drop_first(), r + 1);
        lemma_row_tail_sound(r, rows[0], 0);
        let whole = grid_tail_normalized(rows, r);
        let head = row_normalized(r, rows[0]);
        let rest = grid_tail_normalized(rows.drop_first(), r + 1);
        assert forall|k: int| 0 <= k < whole.len() implies {
            let e = #[trigger] whole[k];
            r <= e.0 < r + rows.len() && e.1 < rows[e.0 - r].len() && rendered(
                rows[e.0 - r][e.1 as int],
            ) == Some(e.2)
        } by {
            if k < head.len() {
                assert(whole[k] == head[k]);
            } else {
                let e = whole[k];
                assert(e == rest[k - head.len()]);
                assert(rows.drop_first()[e.0 - (r + 1)] == rows[e.0 - r]);
            }
        }
    }
}

proof fn lemma_grid_tail_row_major(rows: Seq<Seq<CellValue>>, r: nat)
    ensures
        forall|k1: int, k2: int|
            0 <= k1 < k2 < grid_tail_normalized(rows, r).len() ==> {
                let e1 = #[trigger] grid_tail_normalized(rows, r)[k1];
                let e2 = #[trigger] grid_tail_normalized(rows, r)[k2];
                e1.0 < e2.0 || (e1.0 == e2.0 && e1.1 < e2.1)
            },
    decreases rows.len(),
{
    if rows.len() == 0 {
    } else {
        lemma_grid_tail_row_major(rows.drop_first(), r + 1);
        lemma_grid_tail_sound(rows.drop_first(), r + 1);
        lemma_row_tail_sound(r, rows[0], 0);
        lemma_row_tail_increasing(r, rows[0], 0);
        let whole = grid_tail_normalized(rows, r);
        let head = row_normalized(r, rows[0]);
        let rest = grid_tail_normalized(rows.drop_first(), r + 1);
        assert forall|k1: int, k2: int| 0 <= k1 < k2 < whole.len() implies {
            let e1 = #[trigger] whole[k1];
            let e2 = #[trigger] whole[k2];
            e1.0 < e2.0 || (e1.0 == e2.0 && e1.1 < e2.1)
        } by {
            if k1 < head.len() && k2 < head.len() {
                assert(whole[k1] == head[k1]);
                assert(whole[k2] == head[k2]);
            } else if k1 < head.len() {
                assert(whole[k1] == head[k1]);
                assert(whole[k2] == rest[k2 - head.len()]);
            } else {
                assert(whole[k1] == rest[k1 - head.len()]);
                assert(whole[k2] == rest[k2 - head.len()]);
            }
        }
    }
}

proof fn lemma_row_tail_complete(r: nat, row: Seq<CellValue>, c: nat, j: int)
    requires
        0 <= j < row.len(),
        rendered(row[j]) is Some,
    ensures
        row_tail_normalized(r, row, c).contains(
            (r, (c + j) as nat, rendered(row[j]).unwrap()),
        ),
    decreases j,
{
    let whole = row_tail_normalized(r, row, c);
    let rest = row_tail_normalized(r, row.drop_first(), c + 1);
    if j == 0 {
        assert(whole[0] == (r, c, rendered(row[0]).unwrap()));
    } else {
        lemma_row_tail_complete(r, row.drop_first(), c + 1, j - 1);
        let e = (r, (c + j) as nat, rendered(row[j]).unwrap());
        assert(row.drop_first()[j - 1] == row[j]);
        let i = choose|i: int| 0 <= i < rest.len() && rest[i] == e;
        let head_len = whole.len() - rest.len();
        assert(whole[i + head_len] == e);
    }
}

proof fn lemma_grid_tail_complete(rows: Seq<Seq<CellValue>>, r: nat, i: int, j: int)
    requires
        0 <= i < rows.len(),
        0 <= j < rows[i].len(),
        rendered(rows[i][j]) is Some,
    ensures
        grid_tail_normalized(rows, r).contains(
            ((r + i) as nat, j as nat, rendered(rows[i][j]).unwrap()),
        ),
    decreases i,
{
    let whole = grid_tail_normalized(rows, r);
    let head = row_normalized(r, rows[0]);
    let rest = grid_tail_normalized(rows.drop_first(), r + 1);
    if i == 0 {
        lemma_row_tail_complete(r, rows[0], 0, j);
        let e = (r, j as nat, rendered(rows[0][j]).unwrap());
        let k = choose|k: int| 0 <= k < head.len() && head[k] == e;
        assert(whole[k] == e);
    } else {
        lemma_grid_tail_complete(rows.drop_first(), r + 1, i - 1, j);
        assert(rows.drop_first()[i - 1] == rows[i]);
        let e = ((r + i) as nat, j as nat, rendered(rows[i][j]).unwrap());
        let k = choose|k: int| 0 <= k < rest.len() && rest[k] == e;
        assert(whole[k + head.len()] == e);
    }
}

/// Every normalized cell comes from a populated source cell: its
/// coordinates lie inside the grid, the source cell there renders to
/// exactly its text, and an empty source cell never appears in the output.
pub proof fn lemma_normalized_sound(rows: Seq<Seq<CellValue>>)
    ensures
        forall|k: int|
            0 <= k < grid_normalized(rows).len() ==> {
                let e = #[trigger] grid_normalized(rows)[k];
                e.0 < rows.len() && e.1 < rows[e.0 as int].len() && rendered(
                    rows[e.0 as int][e.1 as int],
                ) == Some(e.2) && !(rows[e.0 as int][e.1 as int] is Empty)
            },
{
    lemma_grid_tail_sound(rows, 0);
}

/// Every populated cell appears in the normalized output: a cell that
/// renders to some text is listed with its coordinates and that text.
pub proof fn lemma_normalized_complete(rows: Seq<Seq<CellValue>>, i: int, j: int)
    requires
        0 <= i < rows.len(),
        0 <= j < rows[i].len(),
        rendered(rows[i][j]) is Some,
    ensures
        grid_normalized(rows).contains((i as nat, j as nat, rendered(rows[i][j]).unwrap())),
{
    lemma_grid_tail_complete(rows, 0, i, j);
}

/// The normalized output is in strict row-major order: along the list the
/// row index grows, and within one row the column index grows.
pub proof fn lemma_normalized_row_major(rows: Seq<Seq<CellValue>>)
    ensures
        forall|k1: int, k2: int|
            0 <= k1 < k2 < grid_normalized(rows).len() ==> {
                let e1 = #[trigger] grid_normalized(rows)[k1];
                let e2 = #[trigger] grid_normalized(rows)[k2];
                e1.0 < e2.0 || (e1.0 == e2.0 && e1.1 < e2.1)
            },
{
    lemma_grid_tail_row_major(rows, 0);
}

/// Normalizes one row: each rendered cell is listed with row index `r` and
/// its column, in column order; skipped cells are omitted.
pub fn normalize_row(r: usize, row: &Vec<CellValue>) -> (out: Vec<NormalizedCell>)
    ensures
        cells_view(out@) == row_normalized(r as nat, row@),
{
    let mut out: Vec<NormalizedCell> = Vec::new();
    let mut c: usize = 0;
    while c < row.len()
        invariant
            c <= row@.len(),
            cells_view(out@) == row_tail_normalized(r as nat, row@.take(c as int), 0),
        decreases row@.len() - c,
    {
        let prefix = Ghost(row@.take(c as int));
        match render_cell(&row[c]) {
            Some(t) => {
                out.push(NormalizedCell { row: r, col: c, text: t });
            },
            None => {},
        }
        proof {
            let longer = row@.take(c as int + 1);
            lemma_row_tail_snoc(r as nat, longer, 0);
            assert(longer.drop_last() =~= prefix@);
            assert(longer.last() == row@[c as int]);
            assert(cells_view(out@) =~= row_tail_normalized(r as nat, longer, 0));
        }
        c += 1;
    }
    proof {
        assert(row@.take(row@.len() as int) =~= row@);
    }
    out
}

/// Relies on rayon's indexed parallel iterators: `par_iter().enumerate()`
/// pairs each row with its index, `map` applies `normalize_row` to every
/// row independently, and `collect` gathers exactly one output per input
/// row in the input order.
#[verifier::external_body]
fn normalize_rows_parallel(rows: &Vec<Vec<CellValue>>) -> (out: Vec<Vec<NormalizedCell>>)
    ensures
        out@.len() == rows@.len(),
        forall|i: int|
            0 <= i < rows@.len() ==> cells_view(out@[i]@) == row_normalized(
                i as nat,
                rows@[i]@,
            ),
{
    rows.par_iter().enumerate().map(|(i, row)| normalize_row(i, row)).collect()
}

/// Normalizes a whole grid: per-row work is computed in parallel, and the
/// results are flattened into row-major order.
pub fn normalize_rows(rows: &Vec<Vec<CellValue>>) -> (out: Vec<NormalizedCell>)
    ensures
        cells_view(out@) == grid_normalized(grid_view(rows@)),
{
    let mut parts = normalize_rows_parallel(rows);
    let ghost all = parts@;
    let total = parts.len();
    assert(all.len() == total);
    let mut out: Vec<NormalizedCell> = Vec::new();
    let mut i: usize = 0;
    while parts.len() > 0
        invariant
            all.len() == rows@.len(),
            i + parts@.len() == all.len(),
            all.len() <= usize::MAX,
            parts@ == all.subrange(i as int, all.len() as int),
            forall|k: int|
                0 <= k < rows@.len() ==> cells_view(all[k]@) == row_normalized(
                    k as nat,
                    rows@[k]@,
                ),
            cells_view(out@) == grid_tail_normalized(grid_view(rows@).take(i as int), 0),
        decreases parts@.len(),
    {
        let ghost out_before = out@;
        let mut part = parts.remove(0);
        let ghost part_seq = part@;
        out.append(&mut part);
        proof {
            assert(parts@ =~= all.subrange(i as int + 1, all.len() as int));
            assert(part_seq == all[i as int]@);
            let g = grid_view(rows@);
            let longer = g.take(i as int + 1);
            lemma_grid_tail_snoc(longer, 0);
            assert(longer.drop_last() =~= g.take(i as int));
            assert(longer.last() == g[i as int]);
            assert(g[i as int] == rows@[i as int]@);
            assert(cells_view(out@) =~= cells_view(out_before) + cells_view(part_seq));
            assert(cells_view(out@) =~= grid_tail_normalized(longer, 0));
        }
        i += 1;
    }
    proof {
        let g = grid_view(rows@);
        assert(g.take(g.len() as int) =~= g);
    }
    out
}

} // verus!
