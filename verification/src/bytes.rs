//! Big-endian integers in byte buffers.

use vstd::arithmetic::div_mod::lemma_div_denominator;
use vstd::arithmetic::power::{lemma_pow_positive, pow};
use vstd::arithmetic::power2::{lemma2_to64, lemma_pow2_pos, lemma_pow2_unfold, pow2};
use vstd::prelude::*;

verus! {

/// `value` as `width` bytes, most significant byte first. Bits of `value`
/// that do not fit into `width` bytes are dropped.
pub open spec fn be_bytes(value: nat, width: nat) -> Seq<u8>
    decreases width,
{
    if width == 0 {
        Seq::empty()
    } else {
        be_bytes(value / 256, (width - 1) as nat).push((value % 256) as u8)
    }
}

/// The number that `bytes` spell, most significant byte first.
pub open spec fn be_value(bytes: Seq<u8>) -> nat
    decreases bytes.len(),
{
    if bytes.len() == 0 {
        0
    } else {
        be_value(bytes.drop_last()) * 256 + bytes.last() as nat
    }
}

/// `count` zero bytes.
pub open spec fn zeros(count: nat) -> Seq<u8> {
    Seq::new(count, |i: int| 0u8)
}

/// `bytes` with the bytes from `at` on replaced by `patch`.
pub open spec fn overwritten(bytes: Seq<u8>, at: int, patch: Seq<u8>) -> Seq<u8> {
    bytes.take(at) + patch + bytes.skip(at + patch.len())
}

/// An encoding of `width` bytes is `width` bytes long.
pub broadcast proof fn lemma_be_bytes_len(value: nat, width: nat)
    ensures
        #[trigger] be_bytes(value, width).len() == width,
    decreases width,
{
    if width > 0 {
        lemma_be_bytes_len(value / 256, (width - 1) as nat);
    }
}

/// Concatenation of byte sequences is associative.
pub broadcast proof fn lemma_concat_assoc(a: Seq<u8>, b: Seq<u8>, c: Seq<u8>)
    ensures
        #[trigger] (a + b + c) == a + (b + c),
{
    assert(a + b + c =~= a + (b + c));
}

/// Nothing in front of a byte sequence leaves it as it is.
pub broadcast proof fn lemma_concat_empty(a: Seq<u8>)
    ensures
        #[trigger] (Seq::<u8>::empty() + a) == a,
{
    assert(Seq::<u8>::empty() + a =~= a);
}

/// Overwriting bytes inside the middle part leaves the other parts alone.
pub proof fn lemma_overwrite_middle(a: Seq<u8>, b: Seq<u8>, c: Seq<u8>, at: int, patch: Seq<u8>)
    requires
        0 <= at,
        at + patch.len() <= b.len(),
    ensures
        overwritten(a + b + c, a.len() + at, patch) == a + overwritten(b, at, patch) + c,
{
    assert(overwritten(a + b + c, a.len() + at, patch) =~= a + overwritten(b, at, patch) + c);
}

/// Only the low 32 bits of a number show in its four-byte encoding.
pub proof fn lemma_be_bytes_low_bits(value: nat)
    ensures
        be_bytes(value, 4) == be_bytes(value % 0x1_0000_0000, 4),
{
    let low = value % 0x1_0000_0000;
    reveal_with_fuel(be_bytes, 5);
    assert(value % 256 == low % 256);
    assert(value / 256 % 256 == low / 256 % 256);
    assert(value / 256 / 256 % 256 == low / 256 / 256 % 256);
    assert(value / 256 / 256 / 256 % 256 == low / 256 / 256 / 256 % 256);
}

/// Reading back an encoding gives the number that was written, provided it
/// fits into the bytes.
pub proof fn law_be_round_trip(value: nat, width: nat)
    requires
        value < pow(256, width),
    ensures
        be_value(be_bytes(value, width)) == value,
    decreases width,
{
    if width == 0 {
        reveal(pow);
    } else {
        let less = (width - 1) as nat;
        assert(pow(256, width) == 256 * pow(256, less)) by {
            reveal(pow);
        }
        assert(value / 256 < pow(256, less));
        law_be_round_trip(value / 256, less);
        assert(be_bytes(value, width).drop_last() =~= be_bytes(value / 256, less));
    }
}

/// Reading back a four-byte encoding.
pub proof fn lemma_be32_round_trip(value: nat)
    requires
        value < 0x1_0000_0000,
    ensures
        be_value(be_bytes(value, 4)) == value,
{
    assert(pow(256, 4) == 0x1_0000_0000) by {
        reveal_with_fuel(pow, 5);
    }
    law_be_round_trip(value, 4);
}

/// Reading back an eight-byte encoding.
pub proof fn lemma_be64_round_trip(value: u64)
    ensures
        be_value(be_bytes(value as nat, 8)) == value,
{
    assert(pow(256, 8) == 0x1_0000_0000_0000_0000) by {
        reveal_with_fuel(pow, 9);
    }
    law_be_round_trip(value as nat, 8);
}

/// The number in the two bytes of `bytes` at `at`, most significant first.
#[verifier::opaque]
pub open spec fn u16_at(bytes: Seq<u8>, at: int) -> nat {
    (bytes[at] * 0x100 + bytes[at + 1]) as nat
}

/// The number in the four bytes of `bytes` at `at`, most significant first.
#[verifier::opaque]
pub open spec fn u32_at(bytes: Seq<u8>, at: int) -> nat {
    (bytes[at] * 0x100_0000 + bytes[at + 1] * 0x1_0000 + bytes[at + 2] * 0x100 + bytes[at
        + 3]) as nat
}

/// The number in the eight bytes of `bytes` at `at`, most significant first.
#[verifier::opaque]
pub open spec fn u64_at(bytes: Seq<u8>, at: int) -> nat {
    u32_at(bytes, at) * 0x1_0000_0000 + u32_at(bytes, at + 4)
}

/// Byte `i` of an encoding is the digit of the number in base 256 that has
/// this place, counted from the most significant one.
pub proof fn law_bytes_are_digits(value: nat, width: nat, i: nat)
    requires
        i < width,
    ensures
        be_bytes(value, width).len() == width,
        be_bytes(value, width)[i as int] as int == value as int / pow(
            256,
            (width - 1 - i) as nat,
        ) % 256,
    decreases width,
{
    let less = (width - 1) as nat;
    lemma_be_bytes_len(value, width);
    lemma_be_bytes_len(value / 256, less);
    if i == less {
        reveal(pow);
        assert(pow(256, 0) == 1);
    } else {
        let place = (width - 1 - i) as nat;
        law_bytes_are_digits(value / 256, less, i);
        assert(pow(256, place) == 256 * pow(256, (place - 1) as nat)) by {
            reveal(pow);
        }
        lemma_pow_positive(256, (place - 1) as nat);
        lemma_div_denominator(value as int, 256, pow(256, (place - 1) as nat));
    }
}

/// Encodings of two, four and eight bytes, written out.
pub proof fn lemma_written_out(value: nat)
    ensures
        be_bytes(value, 2) == seq![(value / 0x100 % 256) as u8, (value % 256) as u8],
        be_bytes(value, 4) == seq![
            (value / 0x100_0000 % 256) as u8,
            (value / 0x1_0000 % 256) as u8,
            (value / 0x100 % 256) as u8,
            (value % 256) as u8,
        ],
        u16_at(be_bytes(value, 2), 0) == value % 0x1_0000,
        u32_at(be_bytes(value, 4), 0) == value % 0x1_0000_0000,
{
    reveal(u16_at);
    reveal(u32_at);
    reveal_with_fuel(be_bytes, 5);
    assert(be_bytes(value, 2) =~= seq![(value / 0x100 % 256) as u8, (value % 256) as u8]);
    assert(be_bytes(value, 4) =~= seq![
        (value / 0x100_0000 % 256) as u8,
        (value / 0x1_0000 % 256) as u8,
        (value / 0x100 % 256) as u8,
        (value % 256) as u8,
    ]);
}

/// A number of two bytes reads back behind whatever precedes it.
pub proof fn lemma_u16_at(bytes: Seq<u8>, at: int, value: nat)
    requires
        0 <= at,
        at + 2 <= bytes.len(),
        bytes.subrange(at, at + 2) == be_bytes(value, 2),
    ensures
        u16_at(bytes, at) == value % 0x1_0000,
{
    reveal(u16_at);
    lemma_written_out(value);
    let part = bytes.subrange(at, at + 2);
    assert(bytes[at] == part[0] && bytes[at + 1] == part[1]);
}

/// A number of four bytes reads back behind whatever precedes it.
pub proof fn lemma_u32_at(bytes: Seq<u8>, at: int, value: nat)
    requires
        0 <= at,
        at + 4 <= bytes.len(),
        bytes.subrange(at, at + 4) == be_bytes(value, 4),
    ensures
        u32_at(bytes, at) == value % 0x1_0000_0000,
{
    reveal(u32_at);
    lemma_written_out(value);
    let part = bytes.subrange(at, at + 4);
    assert(bytes[at] == part[0] && bytes[at + 1] == part[1] && bytes[at + 2] == part[2] && bytes[at
        + 3] == part[3]);
}

/// A number of eight bytes reads back behind whatever precedes it.
pub proof fn lemma_u64_at(bytes: Seq<u8>, at: int, value: u64)
    requires
        0 <= at,
        at + 8 <= bytes.len(),
        bytes.subrange(at, at + 8) == be_bytes(value as nat, 8),
    ensures
        u64_at(bytes, at) == value,
{
    reveal(u64_at);
    let v = value as nat;
    let part = bytes.subrange(at, at + 8);
    lemma_be_bytes_len(v, 8);
    lemma_be_bytes_len(v / 0x1_0000_0000, 4);
    assert(v / 256 / 256 / 256 / 256 == v / 0x1_0000_0000);
    reveal_with_fuel(be_bytes, 9);
    assert(bytes.subrange(at, at + 4) =~= be_bytes(v / 0x1_0000_0000, 4)) by {
        assert(bytes.subrange(at, at + 4) =~= part.take(4));
    }
    assert(bytes.subrange(at + 4, at + 8) =~= be_bytes(v, 4)) by {
        assert(bytes.subrange(at + 4, at + 8) =~= part.skip(4));
    }
    lemma_u32_at(bytes, at, v / 0x1_0000_0000);
    lemma_u32_at(bytes, at + 4, v);
}

/// Append `bytes` to `out`.
pub fn put_bytes(out: &mut Vec<u8>, bytes: &[u8])
    ensures
        final(out)@ == old(out)@ + bytes@,
{
    out.extend_from_slice(bytes);
    assert(out@ =~= old(out)@ + bytes@);
}

/// Append `count` zero bytes to `out`.
pub fn put_zeros(out: &mut Vec<u8>, count: usize)
    ensures
        final(out)@ == old(out)@ + zeros(count as nat),
{
    let ghost before = out@;
    let mut i: usize = 0;
    assert(out@ =~= before + zeros(0));
    while i < count
        invariant
            i <= count,
            out@ == before + zeros(i as nat),
        decreases count - i,
    {
        out.push(0);
        i += 1;
        assert(out@ =~= before + zeros(i as nat));
    }
}

/// Append one byte to `out`.
pub fn put_u8(out: &mut Vec<u8>, value: u8)
    ensures
        final(out)@ == old(out)@ + seq![value],
{
    out.push(value);
    assert(out@ =~= old(out)@ + seq![value]);
}

/// Append `value` to `out` in big-endian order.
pub fn put_u16(out: &mut Vec<u8>, value: u16)
    ensures
        final(out)@ == old(out)@ + be_bytes(value as nat, 2),
{
    out.push((value / 256) as u8);
    out.push((value % 256) as u8);
    proof {
        reveal_with_fuel(be_bytes, 3);
    }
    assert(out@ =~= old(out)@ + be_bytes(value as nat, 2));
}

/// `value` in big-endian order.
pub fn u32_be_bytes(value: u32) -> (bytes: [u8; 4])
    ensures
        bytes@ == be_bytes(value as nat, 4),
{
    let bytes = [
        (value / 0x100_0000) as u8,
        (value / 0x1_0000 % 256) as u8,
        (value / 256 % 256) as u8,
        (value % 256) as u8,
    ];
    proof {
        reveal_with_fuel(be_bytes, 5);
    }
    assert(bytes@ =~= be_bytes(value as nat, 4));
    bytes
}

/// The number that four bytes in big-endian order spell.
pub fn u32_from_be_bytes(bytes: [u8; 4]) -> (value: u32)
    ensures
        value == be_value(bytes@),
{
    proof {
        reveal_with_fuel(be_value, 5);
        let b = bytes@;
        assert(b.drop_last() =~= seq![b[0], b[1], b[2]]);
        assert(b.drop_last().drop_last() =~= seq![b[0], b[1]]);
        assert(b.drop_last().drop_last().drop_last() =~= seq![b[0]]);
        assert(b.drop_last().drop_last().drop_last().drop_last() =~= Seq::<u8>::empty());
    }
    bytes[0] as u32 * 0x100_0000 + bytes[1] as u32 * 0x1_0000 + bytes[2] as u32 * 256
        + bytes[3] as u32
}

/// The low `width` bits of `value` in reverse order: bit `i` becomes bit
/// `width - 1 - i`.
pub open spec fn reversed_bits(value: u32, width: nat) -> nat
    decreases width,
{
    if width == 0 {
        0
    } else {
        2 * reversed_bits(value, (width - 1) as nat) + ((value >> ((width - 1) as u32)) & 1) as nat
    }
}

/// Bit `i` of a number whose low `width` bits are reversed is bit
/// `width - 1 - i` of the number.
pub proof fn law_reversed_bits(value: u32, width: nat, i: nat)
    requires
        i < width <= 32,
    ensures
        reversed_bits(value, width) / pow2(i) % 2 == (value >> ((width - 1 - i) as u32)) & 1,
    decreases i,
{
    let less = (width - 1) as nat;
    let last = value >> (less as u32);
    let rest = reversed_bits(value, less);
    assert(last & 1 <= 1) by (bit_vector);
    lemma_pow2_pos(i);
    if i == 0 {
        lemma2_to64();
    } else {
        let below = (i - 1) as nat;
        law_reversed_bits(value, less, below);
        lemma_pow2_unfold(i);
        lemma_pow2_pos(below);
        lemma_div_denominator(reversed_bits(value, width) as int, 2, pow2(below) as int);
        assert(reversed_bits(value, width) / 2 == rest);
    }
}

/// Reversed bits take no more room than before.
pub proof fn lemma_reversed_bound(value: u32, width: nat)
    requires
        width <= 32,
    ensures
        reversed_bits(value, width) < pow2(width),
    decreases width,
{
    if width == 0 {
        lemma2_to64();
    } else {
        let last = value >> ((width - 1) as u32);
        assert(last & 1 <= 1) by (bit_vector);
        lemma_reversed_bound(value, (width - 1) as nat);
        lemma_pow2_unfold(width);
    }
}

/// `value` with its 32 bits in reverse order.
pub fn reverse_bits(value: u32) -> (reversed: u32)
    ensures
        reversed == reversed_bits(value, 32),
{
    let mut reversed: u64 = 0;
    let mut i: u32 = 0;
    assert(0u64 < 1u64 << 0u32) by (bit_vector);
    while i < 32
        invariant
            i <= 32,
            reversed == reversed_bits(value, i as nat),
            reversed < 1u64 << i,
        decreases 32 - i,
    {
        let bit: u64 = ((value >> i) & 1) as u64;
        assert((value >> i) & 1 <= 1) by (bit_vector);
        assert(2 * reversed + bit < 1u64 << ((i + 1) as u32)) by (bit_vector)
            requires
                reversed < 1u64 << i,
                bit <= 1,
                i < 32,
        ;
        assert(1u64 << ((i + 1) as u32) <= 0x1_0000_0000) by (bit_vector)
            requires
                i < 32,
        ;
        reversed = 2 * reversed + bit;
        i += 1;
    }
    assert(1u64 << 32u32 == 0x1_0000_0000) by (bit_vector);
    reversed as u32
}

/// Append `value` to `out` in big-endian order.
pub fn put_u32(out: &mut Vec<u8>, value: u32)
    ensures
        final(out)@ == old(out)@ + be_bytes(value as nat, 4),
{
    let bytes = u32_be_bytes(value);
    put_bytes(out, &bytes);
}

/// Append `value` to `out` in big-endian order.
pub fn put_u64(out: &mut Vec<u8>, value: u64)
    ensures
        final(out)@ == old(out)@ + be_bytes(value as nat, 8),
{
    let high = (value / 0x1_0000_0000) as u32;
    let low = (value % 0x1_0000_0000) as u32;
    put_u32(out, high);
    put_u32(out, low);
    proof {
        reveal_with_fuel(be_bytes, 9);
        let v = value as nat;
        assert(v / 256 / 256 / 256 / 256 == high);
        lemma_be_bytes_low_bits(v);
        assert(be_bytes(high as nat, 4) + be_bytes(low as nat, 4) =~= be_bytes(v, 8));
        lemma_concat_assoc(old(out)@, be_bytes(high as nat, 4), be_bytes(low as nat, 4));
    }
}

/// Overwrite the four bytes of `out` at `at` with `value` in big-endian order.
pub fn patch_u32(out: &mut Vec<u8>, at: usize, value: u32)
    requires
        at + 4 <= old(out)@.len(),
    ensures
        final(out)@ == overwritten(old(out)@, at as int, be_bytes(value as nat, 4)),
{
    assert(at + 4 <= out.len());
    let bytes = u32_be_bytes(value);
    out[at] = bytes[0];
    out[at + 1] = bytes[1];
    out[at + 2] = bytes[2];
    out[at + 3] = bytes[3];
    assert(out@ =~= overwritten(old(out)@, at as int, bytes@));
}

/// The low 32 bits of a length, as size fields hold them.
pub fn low_u32(value: usize) -> (low: u32)
    ensures
        low == value as nat % 0x1_0000_0000,
        be_bytes(low as nat, 4) == be_bytes(value as nat, 4),
{
    proof {
        let wide = value as u64;
        assert(wide as u32 == wide % 0x1_0000_0000) by (bit_vector);
        lemma_be_bytes_low_bits(value as nat);
    }
    value as u32
}

/// The low 16 bits of a number, as two-byte fields hold them.
pub fn low_u16(value: u64) -> (low: u16)
    ensures
        low == value as nat % 0x1_0000,
        be_bytes(low as nat, 2) == be_bytes(value as nat, 2),
{
    proof {
        assert(value as u16 == value % 0x1_0000) by (bit_vector);
        reveal_with_fuel(be_bytes, 3);
        let v = value as nat;
        let low = v % 0x1_0000;
        assert(v % 256 == low % 256);
        assert(v / 256 % 256 == low / 256 % 256);
    }
    value as u16
}

} // verus!
