//! Bit fields of a byte string, most significant bit first.

use vstd::prelude::*;

verus! {

/// Bit `pos` of `data`, and 0 past the end.
pub open spec fn bit_at(data: Seq<u8>, pos: nat) -> nat {
    if pos / 8 < data.len() {
        ((data[(pos / 8) as int] >> ((7 - pos % 8) as u8)) & 1) as nat
    } else {
        0
    }
}

/// The `width` bits of `data` from `pos` on, as a number.
pub open spec fn bits_at(data: Seq<u8>, pos: nat, width: nat) -> nat
    decreases width,
{
    if width == 0 {
        0
    } else {
        2 * bits_at(data, pos, (width - 1) as nat) + bit_at(data, (pos + width - 1) as nat)
    }
}

/// A bit is 0 or 1.
pub proof fn lemma_bit_bound(data: Seq<u8>, pos: nat)
    ensures
        bit_at(data, pos) <= 1,
{
    if pos / 8 < data.len() {
        let byte = data[(pos / 8) as int];
        let shift = (7 - pos % 8) as u8;
        assert((byte >> shift) & 1 <= 1) by (bit_vector);
    }
}

/// Read bit `pos` of `data`.
pub fn read_bit(data: &[u8], pos: usize) -> (bit: bool)
    ensures
        bit == (bit_at(data@, pos as nat) == 1),
{
    if pos / 8 < data.len() {
        let byte: u8 = data[pos / 8];
        let shift: u8 = 7 - (pos % 8) as u8;
        (byte >> shift) & 1 == 1
    } else {
        false
    }
}

/// Read the `width` bits of `data` from `pos` on.
pub fn read_bits(data: &[u8], pos: usize, width: u32) -> (value: u32)
    requires
        width <= 32,
        pos + width <= usize::MAX,
    ensures
        value == bits_at(data@, pos as nat, width as nat),
        (value as u64) < 1u64 << width,
{
    let mut value: u64 = 0;
    let mut i: u32 = 0;
    assert(0u64 < 1u64 << 0u32) by (bit_vector);
    while i < width
        invariant
            i <= width <= 32,
            pos + width <= usize::MAX,
            value == bits_at(data@, pos as nat, i as nat),
            value < 1u64 << i,
        decreases width - i,
    {
        proof {
            lemma_bit_bound(data@, (pos + i) as nat);
        }
        let bit: u64 = if read_bit(data, pos + i as usize) {
            1
        } else {
            0
        };
        assert(2 * value + bit < 1u64 << ((i + 1) as u32)) by (bit_vector)
            requires
                value < 1u64 << i,
                bit <= 1,
                i < 32,
        ;
        assert(1u64 << ((i + 1) as u32) <= 0x1_0000_0000) by (bit_vector)
            requires
                i < 32,
        ;
        value = 2 * value + bit;
        i += 1;
    }
    assert(1u64 << width <= 0x1_0000_0000) by (bit_vector)
        requires
            width <= 32,
    ;
    value as u32
}

} // verus!
