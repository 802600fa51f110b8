//! The mathematical model: a byte sequence and a symbol sequence are two
//! groupings of one bit stream, least significant bit first.

use vstd::prelude::*;

verus! {

/// Bit `t` of a byte, counted from the least significant one.
pub open spec fn byte_bit(b: u8, t: u8) -> bool {
    (b >> t) & 1 == 1
}

/// The value that a bit contributes at weight `w`.
pub open spec fn weigh(bit: bool, w: int) -> int {
    if bit {
        w
    } else {
        0
    }
}

/// Bit `i` of the stream that `bytes` spells; no bit is set past its end.
pub open spec fn bit_of(bytes: Seq<u8>, i: int) -> bool {
    0 <= i < 8 * bytes.len() && byte_bit(bytes[i / 8], (i % 8) as u8)
}

/// Number of three-bit symbols that carry `n` bytes: the least count whose
/// bits cover all `8 * n` of them.
pub open spec fn symbol_count(n: nat) -> nat {
    ((8 * n + 2) / 3) as nat
}

/// Symbol `k` of the stream: bits `3k`, `3k + 1` and `3k + 2`, lowest first.
pub open spec fn symbol_at(bytes: Seq<u8>, k: int) -> u8 {
    (weigh(bit_of(bytes, 3 * k), 1) + weigh(bit_of(bytes, 3 * k + 1), 2) + weigh(
        bit_of(bytes, 3 * k + 2),
        4,
    )) as u8
}

/// The symbol sequence that carries `bytes`.
pub open spec fn packed(bytes: Seq<u8>) -> Seq<u8> {
    Seq::new(symbol_count(bytes.len()), |k: int| symbol_at(bytes, k))
}

/// Bit `i` of the stream that `symbols` spells, three bits to a symbol.
pub open spec fn symbol_bit(symbols: Seq<u8>, i: int) -> bool {
    0 <= i < 3 * symbols.len() && byte_bit(symbols[i / 3], (i % 3) as u8)
}

/// Number of bytes that unpacking `m` symbols gives: the bytes whose eight
/// bits are all among the symbols' bits. A byte that is not whole when the
/// symbols end is dropped.
pub open spec fn byte_count(m: nat) -> nat {
    ((3 * m) / 8) as nat
}

/// Byte `j` of the stream that `symbols` spells.
pub open spec fn byte_at(symbols: Seq<u8>, j: int) -> u8 {
    (weigh(symbol_bit(symbols, 8 * j), 1) + weigh(symbol_bit(symbols, 8 * j + 1), 2) + weigh(
        symbol_bit(symbols, 8 * j + 2),
        4,
    ) + weigh(symbol_bit(symbols, 8 * j + 3), 8) + weigh(symbol_bit(symbols, 8 * j + 4), 16)
        + weigh(symbol_bit(symbols, 8 * j + 5), 32) + weigh(symbol_bit(symbols, 8 * j + 6), 64)
        + weigh(symbol_bit(symbols, 8 * j + 7), 128)) as u8
}

/// The bytes that unpacking `symbols` gives.
pub open spec fn unpacked(symbols: Seq<u8>) -> Seq<u8> {
    Seq::new(byte_count(symbols.len()), |j: int| byte_at(symbols, j))
}

/// Every element is a symbol, that is, below eight.
pub open spec fn all_symbols(symbols: Seq<u8>) -> bool {
    forall|k: int| 0 <= k < symbols.len() ==> #[trigger] symbols[k] < 8
}

} // verus!
