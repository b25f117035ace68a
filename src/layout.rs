//! The item table of an invoice document, laid out from the table's cells.
use vstd::prelude::*;

use crate::grid::{Cell, ROW_NUMBER_COLUMN};

verus! {

/// One more than the largest row index among the cells, zero when there are none.
pub open spec fn row_extent(cells: Seq<Cell>) -> nat
    decreases cells.len(),
{
    if cells.len() == 0 {
        0
    } else {
        let m = row_extent(cells.drop_last());
        if cells.last().row + 1 > m {
            (cells.last().row + 1) as nat
        } else {
            m
        }
    }
}

/// One more than the largest column index among the cells, zero when there are none.
pub open spec fn column_extent(cells: Seq<Cell>) -> nat
    decreases cells.len(),
{
    if cells.len() == 0 {
        0
    } else {
        let m = column_extent(cells.drop_last());
        if cells.last().column + 1 > m {
            (cells.last().column + 1) as nat
        } else {
            m
        }
    }
}

/// The text shown at a position: that of the last cell there, as a
/// one-element sequence, or nothing when no cell sits there. A later cell
/// at the same position overrides an earlier one.
pub open spec fn last_text_at(cells: Seq<Cell>, row: int, column: int) -> Seq<Seq<char>>
    decreases cells.len(),
{
    if cells.len() == 0 {
        Seq::empty()
    } else if cells.last().row == row && cells.last().column == column {
        seq![cells.last().text@]
    } else {
        last_text_at(cells.drop_last(), row, column)
    }
}

/// The texts of a document row: the text shown in each of the columns
/// `1..columns` that holds a cell, column by column; the row-number column
/// is left out.
pub open spec fn row_texts(cells: Seq<Cell>, row: int, columns: nat) -> Seq<Seq<char>>
    decreases columns,
{
    if columns <= ROW_NUMBER_COLUMN + 1 {
        Seq::empty()
    } else {
        row_texts(cells, row, (columns - 1) as nat) + last_text_at(cells, row, columns - 1)
    }
}

/// The character sequences of a list of strings.
pub open spec fn string_views(v: Seq<String>) -> Seq<Seq<char>> {
    v.map_values(|s: String| s@)
}

/// Every row and column index leaves room for an extent one larger.
pub open spec fn indices_bounded(cells: Seq<Cell>) -> bool {
    forall|i: int|
        0 <= i < cells.len() ==> #[trigger] cells[i].row < usize::MAX && cells[i].column
            < usize::MAX
}

fn extents(cells: &Vec<Cell>) -> (r: (usize, usize))
    requires
        indices_bounded(cells@),
    ensures
        r.0 == row_extent(cells@),
        r.1 == column_extent(cells@),
{
    let mut rows: usize = 0;
    let mut columns: usize = 0;
    let mut i: usize = 0;
    while i < cells.len()
        invariant
            i <= cells@.len(),
            indices_bounded(cells@),
            rows == row_extent(cells@.take(i as int)),
            columns == column_extent(cells@.take(i as int)),
        decreases cells@.len() - i,
    {
        assert(cells@.take(i as int + 1).drop_last() == cells@.take(i as int));
        assert(cells@.take(i as int + 1).last() == cells@[i as int]);
        let c = &cells[i];
        if c.row >= rows {
            rows = c.row + 1;
        }
        if c.column >= columns {
            columns = c.column + 1;
        }
        i += 1;
    }
    assert(cells@.take(cells@.len() as int) == cells@);
    (rows, columns)
}

proof fn lemma_views_push(v: Seq<String>, s: String)
    ensures
        string_views(v.push(s)) == string_views(v).push(s@),
{
    assert(string_views(v.push(s)) =~= string_views(v).push(s@));
}

/// The texts of one document row, as `row_texts` describes them.
fn document_row(cells: &Vec<Cell>, row: usize, columns: usize) -> (r: Vec<String>)
    ensures
        string_views(r@) == row_texts(cells@, row as int, columns as nat),
{
    let mut out: Vec<String> = Vec::new();
    if columns <= ROW_NUMBER_COLUMN + 1 {
        assert(string_views(out@) =~= Seq::<Seq<char>>::empty());
        return out;
    }
    let mut j: usize = ROW_NUMBER_COLUMN + 1;
    assert(string_views(out@) =~= row_texts(cells@, row as int, j as nat));
    while j < columns
        invariant
            ROW_NUMBER_COLUMN + 1 <= j <= columns,
            string_views(out@) == row_texts(cells@, row as int, j as nat),
        decreases columns - j,
    {
        let mut found: Option<usize> = None;
        let mut k: usize = 0;
        while k < cells.len()
            invariant
                k <= cells@.len(),
                match found {
                    Some(i) => i < k && last_text_at(cells@.take(k as int), row as int, j as int)
                        == seq![cells@[i as int].text@],
                    None => last_text_at(cells@.take(k as int), row as int, j as int)
                        == Seq::<Seq<char>>::empty(),
                },
            decreases cells@.len() - k,
        {
            assert(cells@.take(k as int + 1).drop_last() == cells@.take(k as int));
            assert(cells@.take(k as int + 1).last() == cells@[k as int]);
            if cells[k].row == row && cells[k].column == j {
                found = Some(k);
            }
            k += 1;
        }
        assert(cells@.take(cells@.len() as int) == cells@);
        match found {
            Some(i) => {
                let t = cells[i].text.clone();
                proof {
                    lemma_views_push(out@, t);
                }
                out.push(t);
            },
            None => {
                assert(row_texts(cells@, row as int, j as nat + 1) == row_texts(
                    cells@,
                    row as int,
                    j as nat,
                ) + Seq::<Seq<char>>::empty());
            },
        }
        j += 1;
    }
    out
}

/// Lays out the item table of a document: one row for every row index up
/// to the largest among the cells, each holding the texts of its cells
/// column by column, without the row-number column. Where several cells
/// share a position, the last of them in the order given is shown, once.
pub fn document_rows(cells: &Vec<Cell>) -> (r: Vec<Vec<String>>)
    requires
        indices_bounded(cells@),
    ensures
        r@.len() == row_extent(cells@),
        forall|i: int|
            0 <= i < r@.len() ==> string_views(#[trigger] r@[i]@) == row_texts(
                cells@,
                i,
                column_extent(cells@),
            ),
{
    let (rows, columns) = extents(cells);
    let mut out: Vec<Vec<String>> = Vec::new();
    let mut i: usize = 0;
    while i < rows
        invariant
            i <= rows,
            rows == row_extent(cells@),
            columns == column_extent(cells@),
            out@.len() == i,
            forall|k: int|
                0 <= k < i ==> string_views(#[trigger] out@[k]@) == row_texts(
                    cells@,
                    k,
                    columns as nat,
                ),
        decreases rows - i,
    {
        let r = document_row(cells, i, columns);
        out.push(r);
        i += 1;
    }
    out
}

} // verus!
