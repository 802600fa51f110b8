use fumen_bytes::cell::Cell;
use fumen_bytes::document::encode;
use fumen_bytes::grid::{bytes_from_pages, pages_from_bytes};
use fumen_bytes::page::{Page, FIELD_ROWS, PAGE_CELLS, ROW_CELLS};

fn color_of(cell: Cell) -> fumen::CellColor {
    match cell {
        Cell::Empty => fumen::CellColor::Empty,
        Cell::I => fumen::CellColor::I,
        Cell::L => fumen::CellColor::L,
        Cell::O => fumen::CellColor::O,
        Cell::Z => fumen::CellColor::Z,
        Cell::T => fumen::CellColor::T,
        Cell::J => fumen::CellColor::J,
        Cell::S => fumen::CellColor::S,
        Cell::Grey => fumen::CellColor::Grey,
    }
}

#[test]
fn page_sizes() {
    assert_eq!(ROW_CELLS, 10);
    assert_eq!(FIELD_ROWS, 23);
    assert_eq!(PAGE_CELLS, ROW_CELLS * (FIELD_ROWS + 1));
}

#[test]
fn symbols_and_data_values_correspond() {
    let values = [Cell::I, Cell::L, Cell::O, Cell::Z, Cell::T, Cell::J, Cell::S, Cell::Grey];
    for s in 0..8u8 {
        assert_eq!(Cell::from_symbol(s), values[s as usize]);
        assert_eq!(values[s as usize].symbol(), Some(s));
        assert!(values[s as usize].is_data());
    }
    assert_eq!(Cell::Empty.symbol(), None);
    assert!(!Cell::Empty.is_data());
}

#[test]
fn visiting_order_is_extra_row_then_field_rows() {
    let mut page = Page::blank();
    page.set(0, Cell::I);
    page.set(9, Cell::L);
    page.set(10, Cell::O);
    page.set(19, Cell::Z);
    page.set(20, Cell::T);
    page.set(239, Cell::Grey);
    assert_eq!(page.garbage_row[0], Cell::I);
    assert_eq!(page.garbage_row[9], Cell::L);
    assert_eq!(page.field[0][0], Cell::O);
    assert_eq!(page.field[0][9], Cell::Z);
    assert_eq!(page.field[1][0], Cell::T);
    assert_eq!(page.field[22][9], Cell::Grey);
    assert_eq!(page.get(0), Cell::I);
    assert_eq!(page.get(10), Cell::O);
    assert_eq!(page.get(239), Cell::Grey);
    assert_eq!(page.get(1), Cell::Empty);
}

#[test]
fn blank_page_is_empty() {
    let page = Page::blank();
    for i in 0..240 {
        assert_eq!(page.get(i), Cell::Empty);
    }
}

#[test]
fn no_bytes_give_no_page() {
    assert_eq!(pages_from_bytes(Vec::new()).len(), 0);
    assert_eq!(bytes_from_pages(&Vec::new()), Vec::<u8>::new());
}

#[test]
fn blank_pages_carry_no_bytes() {
    assert_eq!(bytes_from_pages(&vec![Page::blank(), Page::blank()]), Vec::<u8>::new());
}

#[test]
fn one_byte_lies_in_the_extra_row() {
    let pages = pages_from_bytes(vec![0xFF]);
    assert_eq!(pages.len(), 1);
    assert_eq!(pages[0].garbage_row[0], Cell::Grey);
    assert_eq!(pages[0].garbage_row[1], Cell::Grey);
    assert_eq!(pages[0].garbage_row[2], Cell::Z);
    for i in 3..240 {
        assert_eq!(pages[0].get(i), Cell::Empty);
    }
}

#[test]
fn pages_are_added_only_while_symbols_remain() {
    // 90 bytes are 240 symbols: exactly one page, with no empty cell.
    let pages = pages_from_bytes(vec![0u8; 90]);
    assert_eq!(pages.len(), 1);
    assert_eq!(pages[0].get(239), Cell::I);
    // 91 bytes are 243 symbols: three cells of a second page.
    let pages = pages_from_bytes(vec![0u8; 91]);
    assert_eq!(pages.len(), 2);
    assert_eq!(pages[1].get(2), Cell::I);
    assert_eq!(pages[1].get(3), Cell::Empty);
}

#[test]
fn bytes_come_back_from_their_pages() {
    for n in [1usize, 2, 3, 4, 6, 89, 90, 91, 100, 180, 200, 999, 1000] {
        let bytes: Vec<u8> = (0..n).map(|i| (i * 101 + 7) as u8).collect();
        let pages = pages_from_bytes(bytes.clone());
        assert_eq!(pages.len(), ((8 * n + 2) / 3 + 239) / 240);
        assert_eq!(bytes_from_pages(&pages), bytes);
    }
}

#[test]
fn a_multiple_of_three_bytes_comes_back_exactly() {
    let bytes: Vec<u8> = vec![1, 2, 3];
    assert_eq!(bytes_from_pages(&pages_from_bytes(bytes)), vec![1, 2, 3]);
    // 90 bytes fill a page to its last cell: the scan ends with the cells.
    let bytes: Vec<u8> = vec![9u8; 90];
    assert_eq!(bytes_from_pages(&pages_from_bytes(bytes.clone())), bytes);
}

#[test]
fn an_empty_cell_ends_the_payload_for_good() {
    let bytes: Vec<u8> = (0..200).map(|i| (i * 3 + 1) as u8).collect();
    let mut pages = pages_from_bytes(bytes.clone());
    assert_eq!(pages.len(), 3);
    // Cut at cell 11 of the first page: three symbols are one whole byte.
    pages[0].set(3, Cell::Empty);
    assert_eq!(bytes_from_pages(&pages), vec![bytes[0]]);
    // Cut at symbol 243: the bytes whole in 243 symbols are the first 91.
    let mut pages = pages_from_bytes(bytes.clone());
    pages[1].set(3, Cell::Empty);
    assert_eq!(bytes_from_pages(&pages), bytes[..91].to_vec());
    // Cut at the very first cell.
    let mut pages = pages_from_bytes(bytes.clone());
    pages[0].set(0, Cell::Empty);
    assert_eq!(bytes_from_pages(&pages), Vec::<u8>::new());
}

#[test]
fn a_cut_after_eight_symbols_gives_three_bytes() {
    let mut pages = pages_from_bytes(vec![0x88, 0xC6, 0xFA, 0x55]);
    pages[0].set(8, Cell::Empty);
    assert_eq!(bytes_from_pages(&pages), vec![0x88, 0xC6, 0xFA]);
}

#[test]
fn a_cut_inside_a_byte_drops_that_byte() {
    let mut pages = pages_from_bytes(vec![0xFF, 0xFF]);
    pages[0].set(4, Cell::Empty);
    assert_eq!(bytes_from_pages(&pages), vec![0xFF]);
}

#[test]
fn encoded_text_is_the_document_of_the_pages() {
    let bytes: Vec<u8> = (0..100).map(|i| (i * 29 + 3) as u8).collect();
    let text = encode(bytes.clone());
    assert!(text.starts_with("v115@"));
    let document = fumen::Fumen::decode(&text).unwrap();
    let pages = pages_from_bytes(bytes);
    assert_eq!(document.pages.len(), pages.len());
    for (theirs, ours) in document.pages.iter().zip(pages.iter()) {
        for x in 0..10 {
            assert_eq!(theirs.garbage_row[x], color_of(ours.garbage_row[x]));
        }
        for y in 0..23 {
            for x in 0..10 {
                assert_eq!(theirs.field[y][x], color_of(ours.field[y][x]));
            }
        }
    }
}

#[test]
fn encoding_nothing_gives_the_empty_document() {
    assert_eq!(encode(Vec::new()), "v115@");
}

#[test]
fn encoding_one_byte_colours_three_cells() {
    let text = encode(vec![0xFF]);
    let mut document = fumen::Fumen::default();
    let page = document.add_page();
    page.garbage_row[0] = fumen::CellColor::Grey;
    page.garbage_row[1] = fumen::CellColor::Grey;
    page.garbage_row[2] = fumen::CellColor::Z;
    assert_eq!(text, document.encode());
    assert_eq!(fumen::Fumen::decode(&text), Ok(document));
}
