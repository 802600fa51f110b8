//! Pages as a fumen document: the text that the `fumen` crate writes for them.

use crate::bits::packed;
use crate::cell::Cell;
use crate::grid::{pages_from_bytes, placed};
use crate::page::Page;
use fumen::{CellColor, Fumen};
use vstd::prelude::*;

verus! {

/// The text of the fumen document whose pages hold the given cells, each
/// page as its cells in visiting order, as `Fumen::encode` writes it.
pub uninterp spec fn fumen_text(pages: Seq<Seq<Cell>>) -> Seq<char>;

/// Writes `pages` as a fumen document.
///
/// Trusted, not proved: starts from `Fumen::default()`, adds one page with
/// `Fumen::add_page` for each page given, overwrites every cell of it with
/// the colour of the same name, and returns what `Fumen::encode` gives for
/// the document. The contract claims only that this text is a function of
/// the cells, and gives that function its name.
#[verifier::external_body]
fn render(pages: &Vec<Page>) -> (text: String)
    ensures
        text@ == fumen_text(pages.deep_view()),
{
    let colors = [CellColor::Empty, CellColor::I, CellColor::L, CellColor::O, CellColor::Z,
        CellColor::T, CellColor::J, CellColor::S, CellColor::Grey];
    let mut document = Fumen::default();
    for shown in pages {
        let page = document.add_page();
        page.garbage_row = shown.garbage_row.map(|c| colors[c as usize]);
        page.field = shown.field.map(|row| row.map(|c| colors[c as usize]));
    }
    document.encode()
}

/// Writes `bytes` as a fumen document: their symbols laid out on pages,
/// one symbol to a cell.
pub fn encode(bytes: Vec<u8>) -> (text: String)
    ensures
        text@ == fumen_text(placed(packed(bytes@))),
{
    let pages = pages_from_bytes(bytes);
    render(&pages)
}

} // verus!
