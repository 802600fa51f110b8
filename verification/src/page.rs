//! A page of cells, and the order in which its cells are visited.

use crate::cell::Cell;
use vstd::prelude::*;

verus! {

/// Cells in a row.
pub const ROW_CELLS: usize = 10;

/// Rows of the field, the extra row not counted.
pub const FIELD_ROWS: usize = 23;

/// Cells on a page: the extra row and the field.
pub const PAGE_CELLS: usize = 240;

/// One page: the extra row below the field, and the field's rows.
#[derive(Clone, Copy, Debug, PartialEq, Eq)]
pub struct Page {
    pub garbage_row: [Cell; 10],
    pub field: [[Cell; 10]; 23],
}

impl Page {
    /// The cell at place `i` of the visiting order: the extra row first,
    /// then the field row by row, each row from its first cell on.
    pub open spec fn cell_at(self, i: int) -> Cell {
        if i < 10 {
            self.garbage_row@[i]
        } else {
            self.field@[(i - 10) / 10]@[(i - 10) % 10]
        }
    }

    /// A page of empty cells.
    pub fn blank() -> (page: Page)
        ensures
            page.deep_view() == Seq::new(240, |i: int| Cell::Empty),
    {
        let page = Page { garbage_row: [Cell::Empty;10], field: [[Cell::Empty;10];23] };
        proof {
            broadcast use vstd::array::group_array_axioms;

            assert(page.deep_view() =~= Seq::new(240, |i: int| Cell::Empty));
        }
        page
    }

    /// The cell at place `i` of the visiting order.
    pub fn get(&self, i: usize) -> (c: Cell)
        requires
            i < 240,
        ensures
            c == self.deep_view()[i as int],
    {
        if i < 10 {
            self.garbage_row[i]
        } else {
            self.field[(i - 10) / 10][(i - 10) % 10]
        }
    }

    /// Puts `cell` at place `i` of the visiting order.
    pub fn set(&mut self, i: usize, cell: Cell)
        requires
            i < 240,
        ensures
            final(self).deep_view() == old(self).deep_view().update(i as int, cell),
    {
        if i < 10 {
            self.garbage_row[i] = cell;
        } else {
            let r = (i - 10) / 10;
            let mut row = self.field[r];
            row[(i - 10) % 10] = cell;
            self.field[r] = row;
        }
        proof {
            broadcast use vstd::array::group_array_axioms;

            assert(self.deep_view() =~= old(self).deep_view().update(i as int, cell));
        }
    }
}

impl DeepView for Page {
    type V = Seq<Cell>;

    /// The page's cells in visiting order.
    open spec fn deep_view(&self) -> Seq<Cell> {
        Seq::new(240, |i: int| self.cell_at(i))
    }
}

} // verus!
