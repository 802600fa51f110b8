//! The colour of one cell: the eight-value alphabet and the empty cell.

use vstd::prelude::*;

verus! {

/// What a cell of a page holds.
///
/// The eight colours are the data values, one for each symbol; an empty
/// cell carries no data and marks the end of a payload.
#[derive(Clone, Copy, Debug, PartialEq, Eq, Structural)]
pub enum Cell {
    Empty,
    I,
    L,
    O,
    Z,
    T,
    J,
    S,
    Grey,
}

impl Cell {
    /// The symbol that a data value stands for; `None` for an empty cell.
    pub open spec fn spec_symbol(self) -> Option<u8> {
        match self {
            Cell::Empty => None,
            Cell::I => Some(0u8),
            Cell::L => Some(1u8),
            Cell::O => Some(2u8),
            Cell::Z => Some(3u8),
            Cell::T => Some(4u8),
            Cell::J => Some(5u8),
            Cell::S => Some(6u8),
            Cell::Grey => Some(7u8),
        }
    }

    /// Whether the cell holds one of the eight data values.
    pub open spec fn spec_is_data(self) -> bool {
        self.spec_symbol().is_some()
    }

    /// The data value that stands for `symbol`.
    pub open spec fn spec_from_symbol(symbol: u8) -> Cell
        recommends
            symbol < 8,
    {
        if symbol == 0 {
            Cell::I
        } else if symbol == 1 {
            Cell::L
        } else if symbol == 2 {
            Cell::O
        } else if symbol == 3 {
            Cell::Z
        } else if symbol == 4 {
            Cell::T
        } else if symbol == 5 {
            Cell::J
        } else if symbol == 6 {
            Cell::S
        } else {
            Cell::Grey
        }
    }

    /// The symbol that a data value stands for; `None` for an empty cell.
    #[verifier::when_used_as_spec(spec_symbol)]
    pub fn symbol(self) -> (r: Option<u8>)
        ensures
            r == self.spec_symbol(),
            r.is_some() ==> r.unwrap() < 8,
    {
        match self {
            Cell::Empty => None,
            Cell::I => Some(0),
            Cell::L => Some(1),
            Cell::O => Some(2),
            Cell::Z => Some(3),
            Cell::T => Some(4),
            Cell::J => Some(5),
            Cell::S => Some(6),
            Cell::Grey => Some(7),
        }
    }

    /// Whether the cell holds one of the eight data values.
    #[verifier::when_used_as_spec(spec_is_data)]
    pub fn is_data(self) -> (r: bool)
        ensures
            r == self.spec_is_data(),
    {
        match self {
            Cell::Empty => false,
            _ => true,
        }
    }

    /// The data value that stands for `symbol`.
    #[verifier::when_used_as_spec(spec_from_symbol)]
    pub fn from_symbol(symbol: u8) -> (c: Cell)
        requires
            symbol < 8,
        ensures
            c == Cell::spec_from_symbol(symbol),
            c.spec_symbol() == Some(symbol),
    {
        match symbol {
            0 => Cell::I,
            1 => Cell::L,
            2 => Cell::O,
            3 => Cell::Z,
            4 => Cell::T,
            5 => Cell::J,
            6 => Cell::S,
            _ => Cell::Grey,
        }
    }
}

/// Symbols and data values correspond one to one.
pub proof fn lemma_symbol_bijection(c: Cell, symbol: u8)
    requires
        symbol < 8,
    ensures
        Cell::spec_from_symbol(symbol).spec_symbol() == Some(symbol),
        c.spec_symbol() == Some(symbol) <==> c == Cell::spec_from_symbol(symbol),
        c.spec_symbol().is_some() ==> c.spec_symbol().unwrap() < 8,
{
}

} // verus!
