//! CRC-16/MCRF4XX, the checksum of a MAVLink frame: polynomial 0x1021 reflected,
//! initial value 0xFFFF, no final inversion.

use vstd::prelude::*;

verus! {

/// The checksum of no bytes.
pub const CRC_INIT: u16 = 0xFFFF;

/// One bit of the reflected division by the CRC polynomial.
pub open spec fn crc_bit(x: u16) -> u16 {
    if x & 1 == 1 {
        (x >> 1) ^ 0x8408
    } else {
        x >> 1
    }
}

/// The checksum `crc` extended by the byte `b`: eight single-bit steps.
pub open spec fn crc_step(crc: u16, b: u8) -> u16 {
    crc_bit(crc_bit(crc_bit(crc_bit(crc_bit(crc_bit(crc_bit(crc_bit(crc ^ (b as u16)))))))))
}

/// The checksum `crc` extended by every byte of `bytes` in turn.
pub open spec fn crc_over(crc: u16, bytes: Seq<u8>) -> u16
    decreases bytes.len(),
{
    if bytes.len() == 0 {
        crc
    } else {
        crc_step(crc_over(crc, bytes.drop_last()), bytes.last())
    }
}

/// The byte-at-a-time formula computes the same value as eight single-bit steps.
proof fn lemma_step_formula(crc: u16, b: u8)
    ensures
        ({
            let t = b ^ ((crc & 0xFF) as u8);
            let u = (t ^ (t << 4)) as u16;
            crc_step(crc, b) == (crc >> 8) ^ (u << 8) ^ (u << 3) ^ (u >> 4)
        }),
{
    assert({
        let t = b ^ ((crc & 0xFF) as u8);
        let u = (t ^ (t << 4)) as u16;
        crc_step(crc, b) == (crc >> 8) ^ (u << 8) ^ (u << 3) ^ (u >> 4)
    }) by (bit_vector);
}

/// Extend `crc` by one byte.
pub fn crc16_update(crc: u16, b: u8) -> (r: u16)
    ensures
        r == crc_step(crc, b),
{
    proof {
        lemma_step_formula(crc, b);
    }
    let t: u8 = b ^ ((crc & 0xFF) as u8);
    let u: u16 = (t ^ (t << 4)) as u16;
    (crc >> 8) ^ (u << 8) ^ (u << 3) ^ (u >> 4)
}

/// A checksum under construction. Its view is the checksum of the bytes seen so far.
#[derive(Debug, Clone, Copy)]
pub struct Crc16(u16);

impl View for Crc16 {
    type V = u16;

    closed spec fn view(&self) -> u16 {
        self.0
    }
}

impl Default for Crc16 {
    fn default() -> (r: Self)
        ensures
            r@ == CRC_INIT,
    {
        Crc16::new()
    }
}

impl Crc16 {
    /// The checksum of no bytes.
    pub fn new() -> (r: Self)
        ensures
            r@ == CRC_INIT,
    {
        Crc16(CRC_INIT)
    }

    /// Add one byte.
    pub fn update(&mut self, b: u8)
        ensures
            final(self)@ == crc_step(old(self)@, b),
    {
        self.0 = crc16_update(self.0, b);
    }

    /// Add every byte of `bytes`, first to last.
    pub fn update_slice(&mut self, bytes: &[u8])
        ensures
            final(self)@ == crc_over(old(self)@, bytes@),
    {
        let mut i: usize = 0;
        while i < bytes.len()
            invariant
                i <= bytes@.len(),
                self@ == crc_over(old(self)@, bytes@.take(i as int)),
            decreases bytes@.len() - i,
        {
            self.update(bytes[i]);
            i = i + 1;
            proof {
                let t = bytes@.take(i as int);
                assert(t.drop_last() == bytes@.take(i - 1));
                assert(t.last() == bytes@[i - 1]);
            }
        }
        assert(bytes@.take(bytes@.len() as int) == bytes@);
    }

    /// The checksum of the bytes seen so far.
    pub fn finalize(self) -> (r: u16)
        ensures
            r == self@,
    {
        self.0
    }
}

/// The checksum of `bytes` from the initial value.
pub fn crc16_mcrf4xx(bytes: &[u8]) -> (r: u16)
    ensures
        r == crc_over(CRC_INIT, bytes@),
{
    let mut crc = Crc16::new();
    crc.update_slice(bytes);
    crc.finalize()
}

/// Adding bytes in two portions gives the checksum of their concatenation.
pub proof fn law_crc_streams(crc: u16, a: Seq<u8>, b: Seq<u8>)
    ensures
        crc_over(crc, a + b) == crc_over(crc_over(crc, a), b),
    decreases b.len(),
{
    if b.len() == 0 {
        assert(a + b == a);
    } else {
        law_crc_streams(crc, a, b.drop_last());
        assert((a + b).drop_last() == a + b.drop_last());
        assert((a + b).last() == b.last());
    }
}

/// Changing any one byte of a message changes its checksum.
pub proof fn law_crc_detects_one_byte(crc: u16, a: Seq<u8>, x: u8, y: u8, b: Seq<u8>)
    requires
        x != y,
    ensures
        crc_over(crc, a.push(x) + b) != crc_over(crc, a.push(y) + b),
{
    law_crc_streams(crc, a.push(x), b);
    law_crc_streams(crc, a.push(y), b);
    let c = crc_over(crc, a);
    assert(a.push(x).drop_last() == a);
    assert(a.push(y).drop_last() == a);
    assert(x != y ==> crc_step(c, x) != crc_step(c, y)) by (bit_vector);
    lemma_crc_injective(crc_step(c, x), crc_step(c, y), b);
}

/// Extending two different checksums by the same bytes keeps them different.
proof fn lemma_crc_injective(c: u16, d: u16, b: Seq<u8>)
    requires
        c != d,
    ensures
        crc_over(c, b) != crc_over(d, b),
    decreases b.len(),
{
    if b.len() > 0 {
        lemma_crc_injective(c, d, b.drop_last());
        let e = crc_over(c, b.drop_last());
        let f = crc_over(d, b.drop_last());
        let l = b.last();
        assert(e != f ==> crc_step(e, l) != crc_step(f, l)) by (bit_vector);
    }
}

/// A message that is followed by its own checksum, low byte first, has the checksum 0.
pub proof fn law_checksum_cancels_itself(crc: u16, bytes: Seq<u8>)
    ensures
        ({
            let c = crc_over(crc, bytes);
            crc_over(crc, bytes + seq![(c & 0xFF) as u8, (c >> 8) as u8]) == 0
        }),
{
    let c = crc_over(crc, bytes);
    let lo = (c & 0xFF) as u8;
    let hi = (c >> 8) as u8;
    let tail = seq![lo, hi];
    law_crc_streams(crc, bytes, tail);
    reveal_with_fuel(crc_over, 3);
    assert(tail.drop_last() =~= seq![lo]);
    assert(seq![lo].drop_last() =~= Seq::<u8>::empty());
    assert(crc_over(c, tail) == crc_step(crc_step(c, lo), hi));
    lemma_low_byte_shifts_out(c);
    lemma_low_byte_shifts_out(c >> 8);
    assert(((c >> 8) & 0xFF) as u8 == (c >> 8) as u8) by (bit_vector);
    assert((c >> 8) >> 8 == 0) by (bit_vector);
}

/// A checksum that is extended by its own low byte is shifted by that byte.
proof fn lemma_low_byte_shifts_out(c: u16)
    ensures
        crc_step(c, (c & 0xFF) as u8) == c >> 8,
{
    let b = (c & 0xFF) as u8;
    lemma_step_formula(c, b);
    assert({
        let t = ((c & 0xFF) as u8) ^ ((c & 0xFF) as u8);
        let u = (t ^ (t << 4)) as u16;
        (c >> 8) ^ (u << 8) ^ (u << 3) ^ (u >> 4) == c >> 8
    }) by (bit_vector);
}

/// The division is by the polynomial of CRC-16/CCITT, lowest term first: a checksum whose
/// lowest bit is set is halved and the terms of the twelfth and the fifth power and the
/// highest one change; any other is halved.
pub proof fn law_division_by_the_polynomial(x: u16)
    ensures
        x % 2 == 0 ==> crc_bit(x) == x / 2,
        x % 2 == 1 ==> crc_bit(x) == (x / 2) ^ 0b1000_0100_0000_1000,
{
    assert(x % 2 == 0 ==> crc_bit(x) == x / 2) by (bit_vector);
    assert(x % 2 == 1 ==> crc_bit(x) == (x / 2) ^ 0b1000_0100_0000_1000) by (bit_vector);
}

} // verus!
