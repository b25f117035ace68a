//! Projection of a table row onto typed values and line items.
use vstd::prelude::*;

use crate::amount::{amount_or_zero, max_amount, numeric_cell};
use crate::grid::{GridStore, DESCRIPTION_COLUMN, PRICE_COLUMN, QUANTITY_COLUMN, TOTAL_COLUMN};
use crate::identity::{compose_entry_id, entry_id};
use crate::records::DatabaseData;

verus! {

/// The text of a cell, or the empty text when the cell does not exist.
pub open spec fn cell_text(g: Map<(usize, usize), Seq<char>>, row: usize, column: usize) -> Seq<
    char,
> {
    if g.contains_key((row, column)) {
        g[(row, column)]
    } else {
        Seq::empty()
    }
}

/// A row's quantity, in thousandths.
pub open spec fn row_quantity(g: Map<(usize, usize), Seq<char>>, row: usize) -> int {
    amount_or_zero(cell_text(g, row, QUANTITY_COLUMN))
}

/// A row's unit price, in thousandths.
pub open spec fn row_price(g: Map<(usize, usize), Seq<char>>, row: usize) -> int {
    amount_or_zero(cell_text(g, row, PRICE_COLUMN))
}

/// A row's total, in millionths: quantity times price.
pub open spec fn row_total(g: Map<(usize, usize), Seq<char>>, row: usize) -> int {
    row_quantity(g, row) * row_price(g, row)
}

/// A line item describes a row of the table under a customer code and
/// an estimate number.
pub open spec fn describes_row(
    d: DatabaseData,
    g: Map<(usize, usize), Seq<char>>,
    row: usize,
    code: Seq<char>,
    estimate_number: usize,
) -> bool {
    &&& d.entry_id@ == entry_id(code, estimate_number as nat, row as nat)
    &&& d.cust_id@ == code
    &&& d.estimate_number == estimate_number
    &&& d.row_number == row
    &&& d.description@ == cell_text(g, row, DESCRIPTION_COLUMN)
    &&& d.quantity == row_quantity(g, row)
    &&& d.price == row_price(g, row)
    &&& d.total == row_total(g, row)
}

/// A row's total depends on its quantity and price cells only: whatever
/// text its total cell holds leaves it unchanged.
pub proof fn lemma_total_ignores_total_cell(
    g: Map<(usize, usize), Seq<char>>,
    row: usize,
    text: Seq<char>,
)
    ensures
        row_total(g.insert((row, TOTAL_COLUMN), text), row) == row_total(g, row),
        row_total(g.insert((row, TOTAL_COLUMN), text), row) == row_quantity(g, row) * row_price(
            g,
            row,
        ),
{
    let h = g.insert((row, TOTAL_COLUMN), text);
    assert(cell_text(h, row, QUANTITY_COLUMN) == cell_text(g, row, QUANTITY_COLUMN));
    assert(cell_text(h, row, PRICE_COLUMN) == cell_text(g, row, PRICE_COLUMN));
}

/// The numeric values of one row.
#[derive(Clone, Copy, Debug, PartialEq, Eq)]
pub struct RowValues {
    /// Thousandths.
    pub quantity: i64,
    /// Thousandths.
    pub price: i64,
    /// Millionths.
    pub total: i64,
}

/// The text of a cell, or the empty text when it does not exist.
fn text_of(grid: &GridStore, row: usize, column: usize) -> (r: String)
    requires
        grid.wf(),
    ensures
        r@ == cell_text(grid@, row, column),
{
    match grid.get(row, column) {
        Some(t) => t.clone(),
        None => String::new(),
    }
}

/// Reads a row's quantity and price, each zero when its cell holds no
/// number, and computes the total as their product. Whatever the total cell
/// holds is ignored.
pub fn project_row(grid: &GridStore, row: usize) -> (r: RowValues)
    requires
        grid.wf(),
    ensures
        r.quantity == row_quantity(grid@, row),
        r.price == row_price(grid@, row),
        r.total == row_total(grid@, row),
        r.total == r.quantity * r.price,
{
    let q = numeric_cell(text_of(grid, row, QUANTITY_COLUMN).as_str());
    let p = numeric_cell(text_of(grid, row, PRICE_COLUMN).as_str());
    assert(-1_000_000_000_000_000_000 <= q * p <= 1_000_000_000_000_000_000) by (nonlinear_arith)
        requires
            -max_amount() <= q <= max_amount(),
            -max_amount() <= p <= max_amount(),
    ;
    RowValues { quantity: q, price: p, total: q * p }
}

/// The line item a row describes, stamped with its customer code and
/// estimate number.
pub fn project_line_item(
    grid: &GridStore,
    row: usize,
    customer_code: &String,
    estimate_number: usize,
) -> (r: DatabaseData)
    requires
        grid.wf(),
    ensures
        describes_row(r, grid@, row, customer_code@, estimate_number),
{
    let values = project_row(grid, row);
    DatabaseData {
        entry_id: compose_entry_id(customer_code.as_str(), estimate_number, row),
        estimate_number,
        cust_id: customer_code.clone(),
        row_number: row,
        description: text_of(grid, row, DESCRIPTION_COLUMN),
        quantity: values.quantity,
        price: values.price,
        total: values.total,
    }
}

} // verus!
