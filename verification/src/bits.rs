//! Bit-order helpers for DER bit strings.

use vstd::prelude::*;

verus! {

/// The bits of `b` in reverse order: bit 0 becomes bit 7 and so on.
pub open spec fn reversed_bits(b: u8) -> u8 {
    ((b & 0x01) << 7) | ((b & 0x02) << 5) | ((b & 0x04) << 3) | ((b & 0x08) << 1)
        | ((b & 0x10) >> 1) | ((b & 0x20) >> 3) | ((b & 0x40) >> 5) | ((b & 0x80) >> 7)
}

/// The four low bits of `n` in reverse order.
pub open spec fn reversed_nibble(n: u8) -> u8 {
    ((n & 0x01) << 3) | ((n & 0x02) << 1) | ((n & 0x04) >> 1) | ((n & 0x08) >> 3)
}

fn nibble_lookup(n: u8) -> (r: u8)
    requires
        n < 16,
    ensures
        r == reversed_nibble(n),
        r < 16,
{
    let table: [u8; 16] = [
        0x00, 0x08, 0x04, 0x0c, 0x02, 0x0a, 0x06, 0x0e, 0x01, 0x09, 0x05, 0x0d, 0x03, 0x0b, 0x07,
        0x0f,
    ];
    assert(n < 16 ==> (reversed_nibble(n) < 16
        && (n == 0 ==> reversed_nibble(n) == 0x00)
        && (n == 1 ==> reversed_nibble(n) == 0x08)
        && (n == 2 ==> reversed_nibble(n) == 0x04)
        && (n == 3 ==> reversed_nibble(n) == 0x0c)
        && (n == 4 ==> reversed_nibble(n) == 0x02)
        && (n == 5 ==> reversed_nibble(n) == 0x0a)
        && (n == 6 ==> reversed_nibble(n) == 0x06)
        && (n == 7 ==> reversed_nibble(n) == 0x0e)
        && (n == 8 ==> reversed_nibble(n) == 0x01)
        && (n == 9 ==> reversed_nibble(n) == 0x09)
        && (n == 10 ==> reversed_nibble(n) == 0x05)
        && (n == 11 ==> reversed_nibble(n) == 0x0d)
        && (n == 12 ==> reversed_nibble(n) == 0x03)
        && (n == 13 ==> reversed_nibble(n) == 0x0b)
        && (n == 14 ==> reversed_nibble(n) == 0x07)
        && (n == 15 ==> reversed_nibble(n) == 0x0f))) by (bit_vector);
    table[n as usize]
}

/// Reverses the bit order of one byte, a nibble at a time.
pub fn reverse_byte(byte: u8) -> (r: u8)
    ensures
        r == reversed_bits(byte),
{
    let lo: u8 = byte & 0x0f;
    let hi: u8 = byte >> 4;
    assert(byte & 0x0f < 16 && byte >> 4 < 16) by (bit_vector);
    let a: u8 = nibble_lookup(lo);
    let b: u8 = nibble_lookup(hi);
    assert((reversed_nibble(byte & 0x0f) << 4) | reversed_nibble(byte >> 4) == reversed_bits(byte))
        by (bit_vector);
    (a << 4) | b
}

} // verus!

verus! {

/// Writes the two bytes of `a`, low byte first, each with its bits in
/// reverse order, to the front of `buf`. A buffer of fewer than two bytes
/// is left as it is.
pub fn int_to_bitstring(a: u16, buf: &mut [u8])
    ensures
        final(buf)@.len() == old(buf)@.len(),
        old(buf)@.len() >= 2 ==> final(buf)@ == seq![
            reversed_bits((a % 256) as u8),
            reversed_bits((a / 256) as u8),
        ] + old(buf)@.subrange(2, old(buf)@.len() as int),
        old(buf)@.len() < 2 ==> final(buf)@ == old(buf)@,
{
    if buf.len() >= 2 {
        buf[0] = reverse_byte((a % 256) as u8);
        buf[1] = reverse_byte((a / 256) as u8);
        assert(buf@ =~= seq![reversed_bits((a % 256) as u8), reversed_bits((a / 256) as u8)]
            + old(buf)@.subrange(2, old(buf)@.len() as int));
    }
}

} // verus!
