//! The symbol unpacker: three-bit symbols in, bytes out.

use crate::bits::{all_symbols, byte_at, byte_bit, byte_count, symbol_bit, unpacked};
use vstd::prelude::*;

verus! {

proof fn lemma_merge_low(o: u8, s: u8, e: u8, t: u8)
    by (bit_vector)
    requires
        e < 8,
        t < e,
    ensures
        byte_bit(o | (s << e), t) == byte_bit(o, t),
{
}

proof fn lemma_merge_high(o: u8, s: u8, e: u8, d: u8)
    by (bit_vector)
    requires
        s < 8,
        e < 8,
        d < 8,
        e + d < 8,
    ensures
        byte_bit(o | (s << e), (e + d) as u8) == (byte_bit(o, (e + d) as u8) || (d < 3 && byte_bit(
            s,
            d,
        ))),
{
}

proof fn lemma_carry(s: u8, k: u8, t: u8)
    by (bit_vector)
    requires
        s < 8,
        1 <= k <= 3,
        t < 8,
    ensures
        byte_bit(s >> k, t) == (t + k < 3 && byte_bit(s, (t + k) as u8)),
{
}

proof fn lemma_zero_byte(t: u8)
    by (bit_vector)
    requires
        t < 8,
    ensures
        !byte_bit(0, t),
{
}

/// A bit among those of `taken` is not changed by one more symbol.
proof fn lemma_kept(taken: Seq<u8>, symbol: u8, i: int)
    requires
        0 <= i < 3 * taken.len(),
    ensures
        symbol_bit(taken.push(symbol), i) == symbol_bit(taken, i),
{
    assert(i / 3 < taken.len());
}

/// The byte being filled, once `symbol` is merged in above its `e` bits,
/// holds the bits of `taken` and `symbol` that belong to it.
proof fn lemma_merged(taken: Seq<u8>, symbol: u8, open: u8, e: u8, last: int)
    requires
        symbol < 8,
        e < 8,
        0 <= last,
        8 * last + e == 3 * taken.len(),
        forall|t: u8| t < 8 ==> #[trigger] byte_bit(open, t) == symbol_bit(taken, 8 * last + t),
    ensures
        forall|t: u8|
            t < 8 ==> #[trigger] byte_bit(open | (symbol << e), t) == symbol_bit(
                taken.push(symbol),
                8 * last + t,
            ),
{
    let m = taken.len() as int;
    let syms = taken.push(symbol);
    assert forall|t: u8| t < 8 implies #[trigger] byte_bit(open | (symbol << e), t) == symbol_bit(
        syms,
        8 * last + t,
    ) by {
        assert(byte_bit(open, t) == symbol_bit(taken, 8 * last + t));
        if t < e {
            lemma_merge_low(open, symbol, e, t);
            lemma_kept(taken, symbol, 8 * last + t);
        } else {
            let d = (t - e) as u8;
            lemma_merge_high(open, symbol, e, d);
            assert(8 * last + t == 3 * m + d);
            assert(!symbol_bit(taken, 3 * m + d));
            if d < 3 {
                assert((3 * m + d) / 3 == m);
                assert((3 * m + d) % 3 == d as int);
                assert(syms[m] == symbol);
            }
        }
    }
}

/// The byte opened with what `symbol` has left over, its bits from `k` on,
/// holds the bits of `symbol` that belong to it.
proof fn lemma_carried(taken: Seq<u8>, symbol: u8, k: u8, opened: int)
    requires
        symbol < 8,
        1 <= k <= 3,
        8 * opened == 3 * taken.len() + k,
    ensures
        forall|t: u8|
            t < 8 ==> #[trigger] byte_bit(symbol >> k, t) == symbol_bit(
                taken.push(symbol),
                8 * opened + t,
            ),
{
    let m = taken.len() as int;
    let syms = taken.push(symbol);
    assert forall|t: u8| t < 8 implies #[trigger] byte_bit(symbol >> k, t) == symbol_bit(
        syms,
        8 * opened + t,
    ) by {
        lemma_carry(symbol, k, t);
        assert(8 * opened + t == 3 * m + k + t);
        if t + k < 3 {
            assert((3 * m + k + t) / 3 == m);
            assert((3 * m + k + t) % 3 == (k + t) as int);
            assert(syms[m] == symbol);
        }
    }
}

/// A byte is the weighted sum of its bits.
pub proof fn lemma_byte_from_bits(b: u8)
    by (bit_vector)
    ensures
        b == (if byte_bit(b, 0) { 1u8 } else { 0u8 }) + (if byte_bit(b, 1) { 2u8 } else { 0u8 }) + (if byte_bit(b, 2) { 4u8 } else { 0u8 }) + (if byte_bit(b, 3) { 8u8 } else { 0u8 }) + (if byte_bit(b, 4) { 16u8 } else { 0u8 }) + (if byte_bit(b, 5) { 32u8 } else { 0u8 }) + (if byte_bit(b, 6) { 64u8 } else { 0u8 }) + (if byte_bit(b, 7) { 128u8 } else { 0u8 }),
{
}

/// Collects symbols into bytes.
///
/// Once a symbol has come, `bytes` ends with the byte being filled, which
/// holds fewer than eight bits; `excess_bits` counts them.
pub struct Unpacker {
    bytes: Vec<u8>,
    excess_bits: u8,
    consumed: Ghost<Seq<u8>>,
}

impl Unpacker {
    /// The symbols taken so far, in order.
    pub closed spec fn consumed(&self) -> Seq<u8> {
        self.consumed@
    }

    /// Number of bits written to the byte being filled.
    pub closed spec fn excess(&self) -> nat {
        self.excess_bits as nat
    }

    /// Every bit held is the bit of the symbols taken that belongs there.
    pub closed spec fn wf(&self) -> bool {
        let m = self.consumed@.len();
        &&& all_symbols(self.consumed@)
        &&& m == 0 ==> self.bytes@.len() == 0 && self.excess_bits == 0
        &&& m > 0 ==> self.bytes@.len() == (3 * m) / 8 + 1 && self.excess_bits == (3 * m) % 8
        &&& forall|j: int, t: u8|
            0 <= j < self.bytes@.len() && t < 8 ==> #[trigger] byte_bit(self.bytes@[j], t)
                == symbol_bit(self.consumed@, 8 * j + t)
    }

    /// An unpacker that has taken no symbol.
    pub fn new() -> (u: Self)
        ensures
            u.wf(),
            u.consumed() == Seq::<u8>::empty(),
            u.excess() == 0,
    {
        Unpacker { bytes: Vec::new(), excess_bits: 0, consumed: Ghost(Seq::empty()) }
    }

    /// Takes one symbol.
    pub fn push(&mut self, symbol: u8)
        requires
            old(self).wf(),
            symbol < 8,
        ensures
            final(self).wf(),
            final(self).consumed() == old(self).consumed().push(symbol),
    {
        let ghost taken = self.consumed@;
        let ghost syms = taken.push(symbol);
        let ghost filled = old(self).bytes@;
        if self.bytes.len() == 0 {
            proof {
                assert forall|t: u8| t < 8 implies !#[trigger] byte_bit(0u8, t) by {
                    lemma_zero_byte(t);
                }
            }
            self.bytes.push(0);
        }
        let last = self.bytes.len() - 1;
        let open = self.bytes[last];
        let e = self.excess_bits;
        let merged = open | (symbol << e);
        proof {
            lemma_merged(taken, symbol, open, e, last as int);
        }
        self.bytes.set(last, merged);
        self.excess_bits = e + 3;
        if self.excess_bits >= 8 {
            self.excess_bits = self.excess_bits - 8;
            let k = 3 - self.excess_bits;
            let carried = symbol >> k;
            proof {
                lemma_carried(taken, symbol, k, last as int + 1);
            }
            self.bytes.push(carried);
        }
        self.consumed = Ghost(syms);
        proof {
            assert forall|j: int, t: u8| 0 <= j < self.bytes@.len() && t < 8 implies #[trigger] byte_bit(
                self.bytes@[j],
                t,
            ) == symbol_bit(syms, 8 * j + t) by {
                if j < last {
                    assert(self.bytes@[j] == filled[j]);
                    lemma_kept(taken, symbol, 8 * j + t);
                }
            }
        }
    }

    /// Ends the unpacking and gives the whole bytes. The byte being filled
    /// is never whole, so it is dropped, whether or not a bit was written
    /// to it.
    pub fn finish(self) -> (bytes: Vec<u8>)
        requires
            self.wf(),
        ensures
            bytes@ == unpacked(self.consumed()),
    {
        let mut bytes = self.bytes;
        if bytes.len() > 0 {
            bytes.pop();
        }
        proof {
            assert(bytes@.len() == byte_count(self.consumed@.len()));
            assert forall|j: int| 0 <= j < bytes@.len() implies bytes@[j] == byte_at(
                self.consumed@,
                j,
            ) by {
                let b = self.bytes@[j];
                lemma_byte_from_bits(b);
                assert(byte_bit(b, 0) == symbol_bit(self.consumed@, 8 * j + 0u8));
                assert(byte_bit(b, 1) == symbol_bit(self.consumed@, 8 * j + 1u8));
                assert(byte_bit(b, 2) == symbol_bit(self.consumed@, 8 * j + 2u8));
                assert(byte_bit(b, 3) == symbol_bit(self.consumed@, 8 * j + 3u8));
                assert(byte_bit(b, 4) == symbol_bit(self.consumed@, 8 * j + 4u8));
                assert(byte_bit(b, 5) == symbol_bit(self.consumed@, 8 * j + 5u8));
                assert(byte_bit(b, 6) == symbol_bit(self.consumed@, 8 * j + 6u8));
                assert(byte_bit(b, 7) == symbol_bit(self.consumed@, 8 * j + 7u8));
            }
            assert(bytes@ =~= unpacked(self.consumed@));
        }
        bytes
    }
}

/// Between symbols the byte being filled holds fewer than eight bits: as
/// many as the symbols taken leave over after the whole bytes.
pub proof fn lemma_excess_bits(u: Unpacker)
    requires
        u.wf(),
    ensures
        u.excess() == (3 * u.consumed().len()) % 8,
        u.excess() < 8,
{
}

} // verus!
