//! Symbols on pages: one symbol to a cell, page after page.

use crate::bits::{packed, symbol_at, unpacked};
use crate::cell::Cell;
use crate::packer::BaseEightIter;
use crate::page::Page;
use crate::unpacker::Unpacker;
use vstd::prelude::*;

verus! {

/// Number of pages that `m` symbols fill, the last one perhaps in part.
pub open spec fn page_count(m: nat) -> nat {
    ((m + 239) / 240) as nat
}

/// The cell at place `i` of all the pages' cells: the data value of symbol
/// `i`, and an empty cell once the symbols have run out.
pub open spec fn placed_cell(symbols: Seq<u8>, i: int) -> Cell {
    if 0 <= i < symbols.len() {
        Cell::spec_from_symbol(symbols[i])
    } else {
        Cell::Empty
    }
}

/// The pages that carry `symbols`, each as its cells in visiting order.
pub open spec fn placed(symbols: Seq<u8>) -> Seq<Seq<Cell>> {
    Seq::new(
        page_count(symbols.len()),
        |p: int| Seq::new(240, |i: int| placed_cell(symbols, 240 * p + i)),
    )
}

/// All the cells of `pages`, page after page.
pub open spec fn cells_of(pages: Seq<Seq<Cell>>) -> Seq<Cell> {
    Seq::new(240 * pages.len(), |i: int| pages[i / 240][i % 240])
}

/// The place of the first cell, from `from` on, that holds no data value;
/// the number of cells where every one from `from` on holds one.
pub open spec fn payload_end(cells: Seq<Cell>, from: int) -> int
    decreases cells.len() - from,
{
    if from < 0 || from >= cells.len() || !cells[from].spec_is_data() {
        from
    } else {
        payload_end(cells, from + 1)
    }
}

/// The symbols of the cells before the first one that holds no data value.
pub open spec fn payload(cells: Seq<Cell>) -> Seq<u8> {
    Seq::new(payload_end(cells, 0) as nat, |k: int| cells[k].spec_symbol().unwrap())
}

/// The bytes that the pages carry.
pub open spec fn scanned(pages: Seq<Seq<Cell>>) -> Seq<u8> {
    unpacked(payload(cells_of(pages)))
}

/// Lays the symbols of `bytes` out on pages. A page is added only while
/// symbols remain; the cells after the last symbol stay empty.
pub fn pages_from_bytes(bytes: Vec<u8>) -> (pages: Vec<Page>)
    ensures
        pages.deep_view() == placed(packed(bytes@)),
{
    let ghost syms = packed(bytes@);
    let ghost m = syms.len() as int;
    let mut it = BaseEightIter::new(bytes);
    let mut pages: Vec<Page> = Vec::new();
    let mut next = it.next();
    while next.is_some()
        invariant
            syms == packed(bytes@),
            m == syms.len(),
            it.wf(),
            it.input() == bytes@,
            240 * pages@.len() < m + 240,
            next == (if 240 * pages@.len() < m {
                Some(syms[240 * (pages@.len() as int)])
            } else {
                None
            }),
            it.produced() as int == (if 240 * pages@.len() < m {
                240 * (pages@.len() as int) + 1
            } else {
                m
            }),
            pages@.len() <= page_count(m as nat),
            forall|p: int|
                0 <= p < pages@.len() ==> (#[trigger] pages@[p]).deep_view() == placed(syms)[p],
        decreases m + 240 - 240 * (pages@.len() as int),
    {
        let ghost base: int = 240 * (pages@.len() as int);
        let mut page = Page::blank();
        let mut i: usize = 0;
        while i < 240
            invariant
                syms == packed(bytes@),
                m == syms.len(),
                base == 240 * pages@.len(),
                i <= 240,
                it.wf(),
                it.input() == bytes@,
                next == (if base + i < m {
                    Some(syms[base + i])
                } else {
                    None
                }),
                it.produced() as int == (if base + i < m {
                    base + i + 1
                } else {
                    m
                }),
                page.deep_view() == Seq::new(
                    240,
                    |j: int|
                        if j < i {
                            placed_cell(syms, base + j)
                        } else {
                            Cell::Empty
                        },
                ),
            decreases 240 - i,
        {
            let cell = match next {
                Some(symbol) => {
                    assert(symbol == symbol_at(bytes@, base + i));
                    next = it.next();
                    Cell::from_symbol(symbol)
                },
                None => Cell::Empty,
            };
            page.set(i, cell);
            i = i + 1;
            assert(page.deep_view() =~= Seq::new(
                240,
                |j: int|
                    if j < i {
                        placed_cell(syms, base + j)
                    } else {
                        Cell::Empty
                    },
            ));
        }
        assert(page.deep_view() =~= placed(syms)[pages@.len() as int]);
        pages.push(page);
    }
    assert(pages.deep_view() =~= placed(syms));
    pages
}

/// Reads the bytes that `pages` carry: visits the cells in order, stops for
/// good at the first one that holds no data value, and unpacks the symbols
/// met before it.
pub fn bytes_from_pages(pages: &Vec<Page>) -> (bytes: Vec<u8>)
    ensures
        bytes@ == scanned(pages.deep_view()),
{
    let ghost cells = cells_of(pages.deep_view());
    let mut unpacker = Unpacker::new();
    let mut p: usize = 0;
    let mut i: usize = 0;
    let mut stopped = false;
    while p < pages.len() && !stopped
        invariant
            cells == cells_of(pages.deep_view()),
            unpacker.wf(),
            p <= pages@.len(),
            i < 240,
            p == pages@.len() ==> i == 0,
            payload_end(cells, 0) == payload_end(cells, 240 * p + i),
            stopped ==> 240 * p + i < cells.len() && !cells[240 * p + i].spec_is_data(),
            unpacker.consumed() == Seq::new(
                (240 * p + i) as nat,
                |k: int| cells[k].spec_symbol().unwrap(),
            ),
        decreases 240 * (pages@.len() - p) - i + (if stopped { 0int } else { 1int }),
    {
        let ghost n: int = 240 * (p as int) + (i as int);
        assert(n / 240 == p as int && n % 240 == i as int);
        assert(cells[n] == pages@[p as int].deep_view()[i as int]);
        match pages[p].get(i).symbol() {
            Some(symbol) => {
                unpacker.push(symbol);
                if i + 1 < 240 {
                    i = i + 1;
                } else {
                    i = 0;
                    p = p + 1;
                }
                assert(unpacker.consumed() =~= Seq::new(
                    (n + 1) as nat,
                    |k: int| cells[k].spec_symbol().unwrap(),
                ));
            },
            None => {
                stopped = true;
            },
        }
    }
    assert(unpacker.consumed() =~= payload(cells));
    unpacker.finish()
}

} // verus!
