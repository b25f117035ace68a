//! The editable table: a sparse map from (row, column) to cell text.
use vstd::prelude::*;

use crate::amount::{digits_of, push_digits};
use crate::text::string_of;

verus! {

/// Number of fixed columns of a row.
pub const COLUMNS: usize = 5;

/// Column holding the row number.
pub const ROW_NUMBER_COLUMN: usize = 0;

/// Column holding the free-text description.
pub const DESCRIPTION_COLUMN: usize = 1;

/// Column holding the quantity.
pub const QUANTITY_COLUMN: usize = 2;

/// Column holding the unit price.
pub const PRICE_COLUMN: usize = 3;

/// Column holding the computed total (display only).
pub const TOTAL_COLUMN: usize = 4;

/// One cell of the table.
pub struct Cell {
    pub text: String,
    pub row: usize,
    pub column: usize,
}

/// The cells of the table, each position held at most once.
pub struct GridStore {
    cells: Vec<Cell>,
}

/// The map that a sequence of cells describes; a later cell wins.
pub open spec fn cells_map(cells: Seq<Cell>) -> Map<(usize, usize), Seq<char>>
    decreases cells.len(),
{
    if cells.len() == 0 {
        Map::empty()
    } else {
        cells_map(cells.drop_last()).insert(
            (cells.last().row, cells.last().column),
            cells.last().text@,
        )
    }
}

/// No two cells share a position.
pub open spec fn unique_positions(cells: Seq<Cell>) -> bool {
    forall|i: int, j: int|
        0 <= i < j < cells.len() ==> (#[trigger] cells[i].row, cells[i].column) != (
            #[trigger] cells[j].row,
            cells[j].column,
        )
}

/// The placeholder text of a fresh cell: its position, as `(row, column)`.
pub open spec fn position_text(row: nat, column: nat) -> Seq<char> {
    seq!['('] + digits_of(row) + seq![',', ' '] + digits_of(column) + seq![')']
}

/// The text a freshly materialised cell holds: the row number in the
/// row-number column, the position placeholder elsewhere.
pub open spec fn default_text(row: nat, column: nat) -> Seq<char> {
    if column == ROW_NUMBER_COLUMN {
        digits_of(row)
    } else {
        position_text(row, column)
    }
}

/// The map after materialising the first `n` columns of a row: cells
/// that exist keep their text, missing ones get their default text.
pub open spec fn with_row_columns(m: Map<(usize, usize), Seq<char>>, row: usize, n: nat) -> Map<
    (usize, usize),
    Seq<char>,
> {
    Map::new(
        |k: (usize, usize)| m.contains_key(k) || (k.0 == row && k.1 < n),
        |k: (usize, usize)|
            if m.contains_key(k) {
                m[k]
            } else {
                default_text(row as nat, k.1 as nat)
            },
    )
}

/// The map after materialising every column of a row.
pub open spec fn with_row(m: Map<(usize, usize), Seq<char>>, row: usize) -> Map<
    (usize, usize),
    Seq<char>,
> {
    with_row_columns(m, row, COLUMNS as nat)
}

/// The text of a freshly materialised cell.
fn default_label(row: usize, column: usize) -> (r: String)
    ensures
        r@ == default_text(row as nat, column as nat),
{
    let mut out: Vec<char> = Vec::new();
    if column == ROW_NUMBER_COLUMN {
        push_digits(row as u128, &mut out);
        assert(out@ == digits_of(row as nat));
    } else {
        out.push('(');
        push_digits(row as u128, &mut out);
        out.push(',');
        out.push(' ');
        push_digits(column as u128, &mut out);
        out.push(')');
        assert(out@ == position_text(row as nat, column as nat));
    }
    string_of(&out)
}

proof fn lemma_map_has(cells: Seq<Cell>, i: int)
    requires
        unique_positions(cells),
        0 <= i < cells.len(),
    ensures
        cells_map(cells).contains_key((cells[i].row, cells[i].column)),
        cells_map(cells)[(cells[i].row, cells[i].column)] == cells[i].text@,
    decreases cells.len(),
{
    let p = cells.drop_last();
    if i < cells.len() - 1 {
        assert(unique_positions(p)) by {
            assert forall|a: int, b: int| 0 <= a < b < p.len() implies (#[trigger] p[a].row,
                p[a].column) != (#[trigger] p[b].row, p[b].column) by {
                assert(p[a] == cells[a] && p[b] == cells[b]);
            }
        }
        assert(p[i] == cells[i]);
        lemma_map_has(p, i);
        assert((cells[i].row, cells[i].column) != (
            cells[cells.len() - 1].row,
            cells[cells.len() - 1].column,
        ));
    }
}

proof fn lemma_map_lacks(cells: Seq<Cell>, key: (usize, usize))
    requires
        forall|i: int| 0 <= i < cells.len() ==> (#[trigger] cells[i].row, cells[i].column) != key,
    ensures
        !cells_map(cells).contains_key(key),
    decreases cells.len(),
{
    if cells.len() > 0 {
        let p = cells.drop_last();
        assert forall|i: int| 0 <= i < p.len() implies (#[trigger] p[i].row, p[i].column)
            != key by {
            assert(p[i] == cells[i]);
        }
        lemma_map_lacks(p, key);
        assert(cells[cells.len() - 1] == cells.last());
    }
}

proof fn lemma_map_update(cells: Seq<Cell>, i: int, c: Cell)
    requires
        unique_positions(cells),
        0 <= i < cells.len(),
        c.row == cells[i].row,
        c.column == cells[i].column,
    ensures
        cells_map(cells.update(i, c)) == cells_map(cells).insert((c.row, c.column), c.text@),
    decreases cells.len(),
{
    let u = cells.update(i, c);
    let p = cells.drop_last();
    let key = (c.row, c.column);
    if i == cells.len() - 1 {
        assert(u.drop_last() == p);
        assert(cells_map(u) =~= cells_map(cells).insert(key, c.text@));
    } else {
        assert(unique_positions(p)) by {
            assert forall|a: int, b: int| 0 <= a < b < p.len() implies (#[trigger] p[a].row,
                p[a].column) != (#[trigger] p[b].row, p[b].column) by {
                assert(p[a] == cells[a] && p[b] == cells[b]);
            }
        }
        assert(u.drop_last() == p.update(i, c));
        lemma_map_update(p, i, c);
        assert(u.last() == cells.last());
        assert(key != (cells[cells.len() - 1].row, cells[cells.len() - 1].column));
        assert(cells_map(u) =~= cells_map(cells).insert(key, c.text@));
    }
}

impl View for GridStore {
    type V = Map<(usize, usize), Seq<char>>;

    closed spec fn view(&self) -> Map<(usize, usize), Seq<char>> {
        cells_map(self.cells@)
    }
}

impl GridStore {
    /// Every position is held by at most one cell.
    pub closed spec fn wf(&self) -> bool {
        unique_positions(self.cells@)
    }

    /// The cells in the order they were created.
    pub closed spec fn cell_seq(&self) -> Seq<Cell> {
        self.cells@
    }

    /// The map view is the one the cells describe, each position once.
    pub proof fn lemma_view(&self)
        requires
            self.wf(),
        ensures
            self@ == cells_map(self.cell_seq()),
            unique_positions(self.cell_seq()),
    {
    }

    /// An empty table.
    pub fn new() -> (r: GridStore)
        ensures
            r.wf(),
            r@ == Map::<(usize, usize), Seq<char>>::empty(),
            r.cell_seq().len() == 0,
    {
        GridStore { cells: Vec::new() }
    }

    /// The cells in the order they were created.
    pub fn cells(&self) -> (r: &Vec<Cell>)
        ensures
            r@ == self.cell_seq(),
    {
        &self.cells
    }

    /// Index of the cell at a position, if there is one.
    fn index_of(&self, row: usize, column: usize) -> (r: Option<usize>)
        ensures
            match r {
                Some(i) => i < self.cells@.len() && self.cells@[i as int].row == row
                    && self.cells@[i as int].column == column,
                None => forall|i: int|
                    0 <= i < self.cells@.len() ==> (#[trigger] self.cells@[i].row,
                    self.cells@[i].column) != (row, column),
            },
    {
        let mut i: usize = 0;
        while i < self.cells.len()
            invariant
                i <= self.cells@.len(),
                forall|k: int|
                    0 <= k < i ==> (#[trigger] self.cells@[k].row, self.cells@[k].column) != (
                        row,
                        column,
                    ),
            decreases self.cells@.len() - i,
        {
            if self.cells[i].row == row && self.cells[i].column == column {
                return Some(i);
            }
            i += 1;
        }
        None
    }

    /// The text at a position, if that cell exists.
    pub fn get(&self, row: usize, column: usize) -> (r: Option<&String>)
        requires
            self.wf(),
        ensures
            match r {
                Some(t) => self@.contains_key((row, column)) && t@ == self@[(row, column)],
                None => !self@.contains_key((row, column)),
            },
    {
        match self.index_of(row, column) {
            Some(i) => {
                proof {
                    lemma_map_has(self.cells@, i as int);
                }
                Some(&self.cells[i].text)
            },
            None => {
                proof {
                    lemma_map_lacks(self.cells@, (row, column));
                }
                None
            },
        }
    }

    /// Writes the text at a position, creating the cell when it is absent.
    pub fn set(&mut self, row: usize, column: usize, text: String)
        requires
            old(self).wf(),
        ensures
            final(self).wf(),
            final(self)@ == old(self)@.insert((row, column), text@),
            old(self)@.contains_key((row, column)) ==> final(self).cell_seq().len()
                == old(self).cell_seq().len(),
    {
        let ghost t = text@;
        match self.index_of(row, column) {
            Some(i) => {
                let ghost before = self.cells@;
                let c = Cell { text, row, column };
                proof {
                    lemma_map_update(before, i as int, c);
                }
                self.cells.set(i, c);
                assert(self.cells@ == before.update(i as int, c));
                assert(unique_positions(self.cells@)) by {
                    assert forall|a: int, b: int| 0 <= a < b < self.cells@.len() implies (
                    #[trigger] self.cells@[a].row, self.cells@[a].column) != (
                    #[trigger] self.cells@[b].row, self.cells@[b].column) by {
                        assert(before[a].row == self.cells@[a].row);
                        assert(before[a].column == self.cells@[a].column);
                        assert(before[b].row == self.cells@[b].row);
                        assert(before[b].column == self.cells@[b].column);
                    }
                }
            },
            None => {
                let ghost before = self.cells@;
                proof {
                    lemma_map_lacks(before, (row, column));
                }
                self.cells.push(Cell { text, row, column });
                assert(self.cells@.drop_last() == before);
                assert(unique_positions(self.cells@)) by {
                    assert forall|a: int, b: int| 0 <= a < b < self.cells@.len() implies (
                    #[trigger] self.cells@[a].row, self.cells@[a].column) != (
                    #[trigger] self.cells@[b].row, self.cells@[b].column) by {
                        if b < before.len() {
                            assert(self.cells@[a] == before[a] && self.cells@[b] == before[b]);
                        } else {
                            assert(self.cells@[a] == before[a]);
                        }
                    }
                }
            },
        }
    }

    /// Materialises the five cells of a row; cells that already exist are
    /// left as they are, missing ones get their default text.
    pub fn ensure_row(&mut self, row: usize)
        requires
            old(self).wf(),
        ensures
            final(self).wf(),
            final(self)@ == with_row(old(self)@, row),
    {
        let mut column: usize = 0;
        assert(self@ =~= with_row_columns(self@, row, 0));
        while column < COLUMNS
            invariant
                self.wf(),
                column <= COLUMNS,
                self@ == with_row_columns(old(self)@, row, column as nat),
            decreases COLUMNS - column,
        {
            match self.index_of(row, column) {
                Some(i) => {
                    proof {
                        lemma_map_has(self.cells@, i as int);
                    }
                    assert(self@ =~= with_row_columns(old(self)@, row, column as nat + 1));
                },
                None => {
                    proof {
                        lemma_map_lacks(self.cells@, (row, column));
                    }
                    let text = default_label(row, column);
                    self.set(row, column, text);
                    assert(self@ =~= with_row_columns(old(self)@, row, column as nat + 1));
                },
            }
            column += 1;
        }
    }

    /// The row indices present in the table, each once, in increasing order.
    pub fn rows(&self) -> (r: Vec<usize>)
        requires
            self.wf(),
        ensures
            forall|a: int, b: int| 0 <= a < b < r@.len() ==> r@[a] < r@[b],
            forall|x: usize| #[trigger] r@.contains(x) <==> exists|c: usize| self@.contains_key((x, c)),
    {
        let mut out: Vec<usize> = Vec::new();
        let mut prev: Option<usize> = None;
        loop
            invariant
                self.wf(),
                forall|a: int, b: int| 0 <= a < b < out@.len() ==> out@[a] < out@[b],
                out@.len() == 0 <==> prev is None,
                prev matches Some(p) ==> out@.last() == p,
                forall|x: usize|
                    #[trigger] out@.contains(x) <==> (prev matches Some(p) && x <= p && exists|
                        i: int,
                    | 0 <= i < self.cells@.len() && #[trigger] self.cells@[i].row == x),
            ensures
                forall|a: int, b: int| 0 <= a < b < out@.len() ==> out@[a] < out@[b],
                forall|x: usize|
                    #[trigger] out@.contains(x) <==> exists|i: int|
                        0 <= i < self.cells@.len() && #[trigger] self.cells@[i].row == x,
            decreases
                match prev {
                    Some(p) => usize::MAX - p,
                    None => usize::MAX + 1,
                },
        {
            let mut best: Option<usize> = None;
            let mut i: usize = 0;
            while i < self.cells.len()
                invariant
                    i <= self.cells@.len(),
                    best matches Some(b) ==> (exists|k: int|
                        0 <= k < i && #[trigger] self.cells@[k].row == b) && (prev matches Some(p)
                        ==> b > p),
                    forall|k: int|
                        0 <= k < i && (prev matches Some(p) ==> #[trigger] self.cells@[k].row > p)
                            ==> (best matches Some(b) && b <= self.cells@[k].row),
                decreases self.cells@.len() - i,
            {
                let rw = self.cells[i].row;
                let above = match prev {
                    Some(p) => rw > p,
                    None => true,
                };
                if above {
                    match best {
                        Some(b) => {
                            if rw < b {
                                best = Some(rw);
                            }
                        },
                        None => {
                            best = Some(rw);
                        },
                    }
                }
                i += 1;
            }
            match best {
                None => {
                    assert forall|x: usize|
                        #[trigger] out@.contains(x) <== exists|i: int|
                            0 <= i < self.cells@.len() && #[trigger] self.cells@[i].row == x by {
                        if exists|i: int| 0 <= i < self.cells@.len() && #[trigger] self.cells@[i].row == x {
                            let i = choose|i: int| 0 <= i < self.cells@.len() && #[trigger] self.cells@[i].row == x;
                            assert(self.cells@[i].row == x);
                        }
                    }
                    break;
                },
                Some(b) => {
                    let ghost before = out@;
                    out.push(b);
                    assert forall|x: usize|
                        #[trigger] out@.contains(x) <==> (x <= b && exists|i: int|
                            0 <= i < self.cells@.len() && #[trigger] self.cells@[i].row == x) by {
                        if out@.contains(x) {
                            let j = choose|j: int| 0 <= j < out@.len() && out@[j] == x;
                            if j < before.len() {
                                assert(before.contains(x));
                            }
                        }
                        if x <= b && exists|i: int|
                            0 <= i < self.cells@.len() && #[trigger] self.cells@[i].row == x {
                            let i = choose|i: int| 0 <= i < self.cells@.len() && #[trigger] self.cells@[i].row == x;
                            if x == b {
                                assert(out@[out@.len() - 1] == x);
                            } else {
                                assert(before.contains(x));
                                let j = choose|j: int| 0 <= j < before.len() && before[j] == x;
                                assert(out@[j] == x);
                            }
                        }
                    }
                    prev = Some(b);
                },
            }
        }
        proof {
            assert forall|x: usize|
                #[trigger] out@.contains(x) <==> exists|c: usize| self@.contains_key((x, c)) by {
                if out@.contains(x) {
                    let i = choose|i: int| 0 <= i < self.cells@.len() && #[trigger] self.cells@[i].row == x;
                    lemma_map_has(self.cells@, i);
                    assert(self@.contains_key((x, self.cells@[i].column)));
                }
                if exists|c: usize| self@.contains_key((x, c)) {
                    let c = choose|c: usize| self@.contains_key((x, c));
                    if forall|i: int| 0 <= i < self.cells@.len() ==> (#[trigger] self.cells@[i].row,
                        self.cells@[i].column) != (x, c) {
                        lemma_map_lacks(self.cells@, (x, c));
                    }
                    let i = choose|i: int| 0 <= i < self.cells@.len() && (#[trigger] self.cells@[i].row,
                        self.cells@[i].column) == (x, c);
                    assert(self.cells@[i].row == x);
                }
            }
        }
        out
    }
}

} // verus!
