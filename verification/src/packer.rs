//! The symbol packer: bytes in, three-bit symbols out, one at a time.

use crate::bits::{bit_of, byte_bit, packed, symbol_at, symbol_count};
use vstd::prelude::*;

verus! {

/// Bit `t` of the register.
pub open spec fn reg_bit(r: u16, t: u16) -> bool {
    (r >> t) & 1 == 1
}

proof fn lemma_refill_low(r: u16, b: u8, l: u16, t: u16)
    by (bit_vector)
    requires
        l <= 8,
        t < l,
    ensures
        reg_bit(r | ((b as u16) << l), t) == reg_bit(r, t),
{
}

proof fn lemma_refill_high(r: u16, b: u8, l: u16, d: u16)
    by (bit_vector)
    requires
        l <= 8,
        d < 16,
        l + d < 16,
    ensures
        reg_bit(r | ((b as u16) << l), (l + d) as u16) == (reg_bit(r, (l + d) as u16) || (d < 8
            && byte_bit(b, d as u8))),
{
}

proof fn lemma_drain(r: u16, t: u16)
    by (bit_vector)
    requires
        t < 16,
    ensures
        reg_bit(r >> 3, t) == (t < 13 && reg_bit(r, (t + 3) as u16)),
{
}

proof fn lemma_low_three(r: u16)
    by (bit_vector)
    ensures
        (r as u8) & 7 == (if reg_bit(r, 0) { 1u8 } else { 0u8 }) + (if reg_bit(r, 1) { 2u8 } else { 0u8 }) + (if reg_bit(r, 2) { 4u8 } else { 0u8 }),
{
}

proof fn lemma_empty_register(t: u16)
    by (bit_vector)
    requires
        t < 16,
    ensures
        !reg_bit(0, t),
{
}

/// Yields, one at a time, the symbols that carry a byte sequence.
///
/// The register holds the bits read from the input and not yet given out,
/// the next one lowest; `bits_length` counts them.
pub struct BaseEightIter {
    bytes: Vec<u8>,
    pos: usize,
    bits: u16,
    bits_length: u8,
}

impl BaseEightIter {
    /// The bytes that this packer was made for.
    pub closed spec fn input(&self) -> Seq<u8> {
        self.bytes@
    }

    /// The accumulator's register.
    pub closed spec fn register(&self) -> u16 {
        self.bits
    }

    /// Number of valid bits in the register.
    pub closed spec fn pending(&self) -> nat {
        self.bits_length as nat
    }

    /// Number of bytes read from the input.
    pub closed spec fn bytes_read(&self) -> nat {
        self.pos as nat
    }

    /// Number of symbols given out so far.
    pub closed spec fn produced(&self) -> nat {
        ((8 * self.pos - self.bits_length + 2) / 3) as nat
    }

    /// The register is zero above its valid bits, and its valid bits are the
    /// stream's bits that follow the symbols given out.
    pub closed spec fn wf(&self) -> bool {
        &&& self.pos <= self.bytes@.len()
        &&& self.bits_length <= 16
        &&& self.bits_length <= 8 * self.pos
        &&& ((8 * self.pos - self.bits_length) % 3 == 0 || (self.bits_length == 0 && self.pos
            == self.bytes@.len()))
        &&& forall|t: u16|
            t < 16 ==> #[trigger] reg_bit(self.bits, t) == (3 * self.produced() + t < 8 * self.pos
                && bit_of(self.bytes@, 3 * self.produced() + t))
    }

    /// The symbols still to come.
    pub open spec fn view(&self) -> Seq<u8> {
        packed(self.input()).skip(self.produced() as int)
    }

    /// A packer at the start of `bytes`: the accumulator is empty and no
    /// byte has been read.
    pub fn new(bytes: Vec<u8>) -> (it: Self)
        ensures
            it.wf(),
            it.input() == bytes@,
            it.produced() == 0,
            it@ == packed(bytes@),
            it.register() == 0,
            it.pending() == 0,
            it.bytes_read() == 0,
    {
        let it = BaseEightIter { bytes, pos: 0, bits: 0, bits_length: 0 };
        proof {
            assert forall|t: u16| t < 16 implies !#[trigger] reg_bit(it.bits, t) by {
                lemma_empty_register(t);
            }
            assert(packed(bytes@).skip(0) =~= packed(bytes@));
        }
        it
    }

    /// Gives the next symbol, or `None` once every bit of the input has
    /// been given out.
    pub fn next(&mut self) -> (r: Option<u8>)
        requires
            old(self).wf(),
        ensures
            final(self).wf(),
            final(self).input() == old(self).input(),
            old(self)@.len() > 0 ==> r == Some(old(self)@[0]),
            old(self)@.len() > 0 ==> final(self)@ == old(self)@.drop_first(),
            old(self)@.len() > 0 ==> final(self).produced() == old(self).produced() + 1,
            old(self)@.len() == 0 ==> r.is_none(),
            old(self)@.len() == 0 ==> final(self)@ == old(self)@,
            old(self)@.len() == 0 ==> final(self).produced() == old(self).produced(),
    {
        let ghost e: int = self.produced() as int;
        while self.bits_length <= 8 && self.pos < self.bytes.len()
            invariant
                self.wf(),
                self.bytes@ == old(self).bytes@,
                self.produced() == e,
            decreases self.bytes@.len() - self.pos,
        {
            let b = self.bytes[self.pos];
            let ghost before = *self;
            self.bits = self.bits | ((b as u16) << (self.bits_length as u16));
            self.bits_length = self.bits_length + 8;
            self.pos = self.pos + 1;
            proof {
                let l = before.bits_length as u16;
                assert forall|t: u16| t < 16 implies #[trigger] reg_bit(self.bits, t) == (3 * e + t
                    < 8 * self.pos && bit_of(self.bytes@, 3 * e + t)) by {
                    if t < l {
                        lemma_refill_low(before.bits, b, l, t);
                    } else {
                        let d = (t - l) as u16;
                        lemma_refill_high(before.bits, b, l, d);
                        assert(!reg_bit(before.bits, t));
                        if d < 8 {
                            assert(3 * e + t == 8 * before.pos + d);
                            assert((8 * before.pos + d) / 8 == before.pos as int);
                            assert((8 * before.pos + d) % 8 == d as int);
                        }
                    }
                }
            }
        }
        if self.bits_length > 0 {
            let ghost before = *self;
            let symbol = (#[verifier::truncate] (self.bits as u8)) & 7;
            self.bits_length = self.bits_length.saturating_sub(3);
            self.bits = self.bits >> 3;
            proof {
                lemma_low_three(before.bits);
                assert(reg_bit(before.bits, 0) == bit_of(self.bytes@, 3 * e));
                assert(reg_bit(before.bits, 1) == bit_of(self.bytes@, 3 * e + 1));
                assert(reg_bit(before.bits, 2) == bit_of(self.bytes@, 3 * e + 2));
                assert(symbol == symbol_at(self.bytes@, e));
                assert(self.produced() == e + 1);
                assert forall|t: u16| t < 16 implies #[trigger] reg_bit(self.bits, t) == (3 * (e
                    + 1) + t < 8 * self.pos && bit_of(self.bytes@, 3 * (e + 1) + t)) by {
                    lemma_drain(before.bits, t);
                    if t < 13 {
                        assert(reg_bit(before.bits, (t + 3) as u16) == (3 * e + (t + 3) < 8
                            * self.pos && bit_of(self.bytes@, 3 * e + (t + 3))));
                    }
                }
                assert(e < symbol_count(self.bytes@.len()));
                assert(old(self)@[0] == symbol);
                assert(self@ =~= old(self)@.drop_first());
            }
            Some(symbol)
        } else {
            proof {
                assert(e == symbol_count(self.bytes@.len()));
                assert(old(self)@.len() == 0);
            }
            None
        }
    }
}

proof fn lemma_no_bit_set(r: u16)
    by (bit_vector)
    requires
        !reg_bit(r, 0),
        !reg_bit(r, 1),
        !reg_bit(r, 2),
        !reg_bit(r, 3),
        !reg_bit(r, 4),
        !reg_bit(r, 5),
        !reg_bit(r, 6),
        !reg_bit(r, 7),
        !reg_bit(r, 8),
        !reg_bit(r, 9),
        !reg_bit(r, 10),
        !reg_bit(r, 11),
        !reg_bit(r, 12),
        !reg_bit(r, 13),
        !reg_bit(r, 14),
        !reg_bit(r, 15),
    ensures
        r == 0,
{
}

/// The accumulator holds at most sixteen valid bits, all of them read from
/// the input and not yet given out, and the register is zero above them;
/// once the symbols have run out it is empty.
pub proof fn lemma_accumulator(it: BaseEightIter)
    requires
        it.wf(),
    ensures
        it.pending() <= 16,
        it.bytes_read() <= it.input().len(),
        it.pending() > 0 ==> 3 * it.produced() + it.pending() == 8 * it.bytes_read(),
        forall|t: u16| it.pending() <= t < 16 ==> !#[trigger] reg_bit(it.register(), t),
        forall|t: u16|
            t < it.pending() ==> #[trigger] reg_bit(it.register(), t) == bit_of(
                it.input(),
                3 * it.produced() + t,
            ),
        it@.len() == 0 ==> it.pending() == 0 && it.register() == 0,
{
    if it@.len() == 0 {
        assert(it.produced() >= symbol_count(it.input().len()));
        assert(it.pending() == 0);
        assert(!reg_bit(it.register(), 0));
        assert(!reg_bit(it.register(), 1));
        assert(!reg_bit(it.register(), 2));
        assert(!reg_bit(it.register(), 3));
        assert(!reg_bit(it.register(), 4));
        assert(!reg_bit(it.register(), 5));
        assert(!reg_bit(it.register(), 6));
        assert(!reg_bit(it.register(), 7));
        assert(!reg_bit(it.register(), 8));
        assert(!reg_bit(it.register(), 9));
        assert(!reg_bit(it.register(), 10));
        assert(!reg_bit(it.register(), 11));
        assert(!reg_bit(it.register(), 12));
        assert(!reg_bit(it.register(), 13));
        assert(!reg_bit(it.register(), 14));
        assert(!reg_bit(it.register(), 15));
        lemma_no_bit_set(it.register());
    }
}

/// A packer keeps nothing that its input and the number of symbols given
/// out do not fix: two packers over equal inputs that have given out
/// equally many symbols have the same symbols to come.
pub proof fn lemma_no_hidden_state(a: BaseEightIter, b: BaseEightIter)
    requires
        a.wf(),
        b.wf(),
        a.input() == b.input(),
        a.produced() == b.produced(),
    ensures
        a@ == b@,
{
}

} // verus!
