//! What holds of packing and unpacking taken together.

use crate::bits::{
    all_symbols, bit_of, byte_at, byte_bit, packed, symbol_at, symbol_bit, symbol_count, unpacked,
};
use crate::cell::Cell;
use crate::grid::{cells_of, payload, payload_end, placed, placed_cell, scanned};
use crate::unpacker::lemma_byte_from_bits;
use vstd::prelude::*;

verus! {

proof fn lemma_three_bits(s: u8, b0: bool, b1: bool, b2: bool)
    by (bit_vector)
    requires
        s == (if b0 { 1u8 } else { 0u8 }) + (if b1 { 2u8 } else { 0u8 }) + (if b2 { 4u8 } else { 0u8 }),
    ensures
        byte_bit(s, 0) == b0,
        byte_bit(s, 1) == b1,
        byte_bit(s, 2) == b2,
        s < 8,
{
}

/// The symbols of `n` bytes number the ceiling of `8n / 3`, and each is
/// below eight.
pub proof fn lemma_symbol_count(bytes: Seq<u8>)
    ensures
        packed(bytes).len() == symbol_count(bytes.len()),
        8 * bytes.len() <= 3 * packed(bytes).len() < 8 * bytes.len() + 3,
        all_symbols(packed(bytes)),
{
}

/// Packing moves no bit: bit `i` of the symbols is bit `i` of the bytes,
/// and the bits past the last byte are zero.
pub proof fn lemma_packed_bits(bytes: Seq<u8>, i: int)
    ensures
        symbol_bit(packed(bytes), i) == bit_of(bytes, i),
{
    let syms = packed(bytes);
    if 0 <= i < 3 * syms.len() {
        let k = i / 3;
        let b0 = bit_of(bytes, 3 * k);
        let b1 = bit_of(bytes, 3 * k + 1);
        let b2 = bit_of(bytes, 3 * k + 2);
        assert(syms[k] == symbol_at(bytes, k));
        lemma_three_bits(syms[k], b0, b1, b2);
        assert(i == 3 * k + i % 3);
    }
}

proof fn lemma_stream_bit(bytes: Seq<u8>, j: int, t: u8)
    requires
        0 <= j,
        t < 8,
    ensures
        symbol_bit(packed(bytes), 8 * j + t) == (j < bytes.len() && byte_bit(bytes[j], t)),
{
    lemma_packed_bits(bytes, 8 * j + t);
    assert((8 * j + t) / 8 == j);
    assert((8 * j + t) % 8 == t as int);
}

/// Byte `j` of the symbols of `bytes` is byte `j` of `bytes`, and zero past
/// their end.
pub proof fn lemma_packed_byte(bytes: Seq<u8>, j: int)
    requires
        0 <= j,
    ensures
        byte_at(packed(bytes), j) == (if j < bytes.len() {
            bytes[j]
        } else {
            0u8
        }),
{
    let syms = packed(bytes);
    lemma_stream_bit(bytes, j, 0);
    lemma_stream_bit(bytes, j, 1);
    lemma_stream_bit(bytes, j, 2);
    lemma_stream_bit(bytes, j, 3);
    lemma_stream_bit(bytes, j, 4);
    lemma_stream_bit(bytes, j, 5);
    lemma_stream_bit(bytes, j, 6);
    lemma_stream_bit(bytes, j, 7);
    if j < bytes.len() {
        let b = bytes[j];
        lemma_byte_from_bits(b);
        assert(symbol_bit(syms, 8 * j) == byte_bit(b, 0));
        assert(symbol_bit(syms, 8 * j + 1) == byte_bit(b, 1));
        assert(symbol_bit(syms, 8 * j + 2) == byte_bit(b, 2));
        assert(symbol_bit(syms, 8 * j + 3) == byte_bit(b, 3));
        assert(symbol_bit(syms, 8 * j + 4) == byte_bit(b, 4));
        assert(symbol_bit(syms, 8 * j + 5) == byte_bit(b, 5));
        assert(symbol_bit(syms, 8 * j + 6) == byte_bit(b, 6));
        assert(symbol_bit(syms, 8 * j + 7) == byte_bit(b, 7));
    } else {
        assert(!symbol_bit(syms, 8 * j));
        assert(!symbol_bit(syms, 8 * j + 1));
        assert(!symbol_bit(syms, 8 * j + 2));
        assert(!symbol_bit(syms, 8 * j + 3));
        assert(!symbol_bit(syms, 8 * j + 4));
        assert(!symbol_bit(syms, 8 * j + 5));
        assert(!symbol_bit(syms, 8 * j + 6));
        assert(!symbol_bit(syms, 8 * j + 7));
    }
}

/// Round trip: unpacking what was packed gives exactly the bytes. The
/// bits left over after the last byte, two at most, are padding and give no
/// byte.
pub proof fn lemma_round_trip(bytes: Seq<u8>)
    ensures
        unpacked(packed(bytes)) == bytes,
{
    let back = unpacked(packed(bytes));
    assert(back.len() == bytes.len());
    assert forall|j: int| 0 <= j < back.len() implies back[j] == bytes[j] by {
        lemma_packed_byte(bytes, j);
    }
    assert(back =~= bytes);
}

/// The symbols of the first `k` cells.
pub open spec fn symbols_before(cells: Seq<Cell>, k: int) -> Seq<u8> {
    Seq::new(k as nat, |i: int| cells[i].spec_symbol().unwrap())
}

proof fn lemma_payload_end(cells: Seq<Cell>, from: int, k: int)
    requires
        0 <= from <= k <= cells.len(),
        forall|i: int| from <= i < k ==> (#[trigger] cells[i]).spec_is_data(),
        k < cells.len() ==> !cells[k].spec_is_data(),
    ensures
        payload_end(cells, from) == k,
    decreases k - from,
{
    if from < k {
        assert(cells[from].spec_is_data());
        lemma_payload_end(cells, from + 1, k);
    }
}

/// A cell that holds no data value ends the payload: where cell `k` is the
/// first such cell, the payload is the symbols of the cells before it,
/// whatever the cells after it hold.
pub proof fn lemma_payload_stops(cells: Seq<Cell>, k: int)
    requires
        0 <= k < cells.len(),
        forall|i: int| 0 <= i < k ==> (#[trigger] cells[i]).spec_is_data(),
        !cells[k].spec_is_data(),
    ensures
        payload(cells) == symbols_before(cells, k),
{
    lemma_payload_end(cells, 0, k);
    assert(payload(cells) =~= symbols_before(cells, k));
}

/// Cells that all hold data values are payload to the last one.
pub proof fn lemma_payload_runs_out(cells: Seq<Cell>)
    requires
        forall|i: int| 0 <= i < cells.len() ==> (#[trigger] cells[i]).spec_is_data(),
    ensures
        payload(cells) == symbols_before(cells, cells.len() as int),
{
    lemma_payload_end(cells, 0, cells.len() as int);
    assert(payload(cells) =~= symbols_before(cells, cells.len() as int));
}

/// A payload cut short gives exactly the bytes that are whole in the
/// symbols before the cut: no part of a byte after them, and nothing of what
/// the cells after the cut hold.
pub proof fn lemma_cut_payload(cells: Seq<Cell>, k: int)
    requires
        0 <= k < cells.len(),
        forall|i: int| 0 <= i < k ==> (#[trigger] cells[i]).spec_is_data(),
        !cells[k].spec_is_data(),
    ensures
        unpacked(payload(cells)) == unpacked(symbols_before(cells, k)),
        unpacked(payload(cells)).len() == (3 * k) / 8,
        forall|j: int|
            0 <= j < (3 * k) / 8 ==> unpacked(payload(cells))[j] == byte_at(
                symbols_before(cells, k),
                j,
            ),
{
    lemma_payload_stops(cells, k);
}

/// No bytes give no symbols and no pages; no symbols give no bytes; and
/// cells that begin with one that holds no data value carry no bytes.
pub proof fn lemma_empty(cells: Seq<Cell>)
    requires
        cells.len() == 0 || !cells[0].spec_is_data(),
    ensures
        packed(Seq::<u8>::empty()) == Seq::<u8>::empty(),
        placed(Seq::<u8>::empty()) == Seq::<Seq<Cell>>::empty(),
        unpacked(Seq::<u8>::empty()) == Seq::<u8>::empty(),
        payload(cells) == Seq::<u8>::empty(),
        unpacked(payload(cells)) == Seq::<u8>::empty(),
{
    assert(packed(Seq::<u8>::empty()) =~= Seq::<u8>::empty());
    assert(placed(Seq::<u8>::empty()) =~= Seq::<Seq<Cell>>::empty());
    assert(unpacked(Seq::<u8>::empty()) =~= Seq::<u8>::empty());
    assert(payload(cells) =~= Seq::<u8>::empty());
}

/// The payload of the pages that carry `symbols` is `symbols`.
pub proof fn lemma_payload_of_placed(symbols: Seq<u8>)
    requires
        all_symbols(symbols),
    ensures
        payload(cells_of(placed(symbols))) == symbols,
{
    let cells = cells_of(placed(symbols));
    let m = symbols.len() as int;
    assert forall|i: int| 0 <= i < cells.len() implies #[trigger] cells[i] == placed_cell(
        symbols,
        i,
    ) by {
        assert(i == 240 * (i / 240) + i % 240);
    }
    assert forall|i: int| 0 <= i < m implies (#[trigger] cells[i]).spec_symbol() == Some(
        symbols[i],
    ) by {
        assert(symbols[i] < 8);
    }
    if m < cells.len() {
        assert(cells[m] == Cell::Empty);
    }
    lemma_payload_end(cells, 0, m);
    assert(payload(cells) =~= symbols);
}

/// Round trip through pages: the pages that carry the symbols of `bytes`
/// give exactly `bytes` back.
pub proof fn lemma_page_round_trip(bytes: Seq<u8>)
    ensures
        scanned(placed(packed(bytes))) == bytes,
{
    lemma_symbol_count(bytes);
    lemma_payload_of_placed(packed(bytes));
    lemma_round_trip(bytes);
}

} // verus!
