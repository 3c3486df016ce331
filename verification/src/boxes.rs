//! ISO base media boxes: a size, a four-character code and a body.

use vstd::prelude::*;

use crate::bytes::{
    be_bytes, be_value, lemma_be32_round_trip, lemma_be_bytes_len, lemma_be_bytes_low_bits,
    lemma_u32_at, low_u32, put_bytes, put_u32, u32_at,
};

verus! {

/// The box of type `kind` around `body`. Its size counts the eight header
/// bytes too; the size field holds the low 32 bits of it.
pub open spec fn boxed(kind: Seq<u8>, body: Seq<u8>) -> Seq<u8> {
    be_bytes(8 + body.len(), 4) + kind + body
}

/// The low 32 bits of a size that is the sum of two parts.
pub fn size_field(header: u32, rest: usize) -> (size: u32)
    ensures
        size == (header + rest) % 0x1_0000_0000,
        be_bytes(size as nat, 4) == be_bytes((header + rest) as nat, 4),
{
    proof {
        lemma_be_bytes_low_bits((header + rest) as nat);
    }
    low_u32(rest).wrapping_add(header)
}

/// Append the box of type `kind` around `body` to `out`.
pub fn write_box(out: &mut Vec<u8>, kind: &[u8; 4], body: &Vec<u8>)
    ensures
        final(out)@ == old(out)@ + boxed(kind@, body@),
{
    put_u32(out, size_field(8, body.len()));
    put_bytes(out, kind);
    put_bytes(out, body);
    assert(out@ =~= old(out)@ + boxed(kind@, body@));
}

/// The box at the start of `bytes`: its type, its body, and what follows it.
/// `None` where `bytes` end before the box does.
pub open spec fn read_box(bytes: Seq<u8>) -> Option<(Seq<u8>, Seq<u8>, Seq<u8>)> {
    let size = be_value(bytes.take(4)) as int;
    if 8 <= size <= bytes.len() {
        Some((bytes.subrange(4, 8), bytes.subrange(8, size), bytes.skip(size)))
    } else {
        None
    }
}

/// A box starts with its length, header included, in four bytes, most
/// significant first; then come its type and its body, and nothing else.
pub proof fn law_box_starts_with_its_length(kind: Seq<u8>, body: Seq<u8>)
    requires
        kind.len() == 4,
    ensures
        boxed(kind, body).len() == 8 + body.len(),
        u32_at(boxed(kind, body), 0) == (8 + body.len()) % 0x1_0000_0000,
        boxed(kind, body).subrange(4, 8) == kind,
        boxed(kind, body).skip(8) == body,
{
    let whole = boxed(kind, body);
    lemma_be_bytes_len(8 + body.len(), 4);
    assert(whole.subrange(0, 4) =~= be_bytes(8 + body.len(), 4));
    lemma_u32_at(whole, 0, 8 + body.len());
    assert(whole.subrange(4, 8) =~= kind);
    assert(whole.skip(8) =~= body);
}

/// A box can be read back, whatever follows it, as long as its size fits into
/// the size field.
pub proof fn law_box_reads_back(kind: Seq<u8>, body: Seq<u8>, rest: Seq<u8>)
    requires
        kind.len() == 4,
        8 + body.len() < 0x1_0000_0000,
    ensures
        read_box(boxed(kind, body) + rest) == Some((kind, body, rest)),
{
    let size = 8 + body.len();
    let bytes = boxed(kind, body) + rest;
    lemma_be_bytes_len(size, 4);
    lemma_be32_round_trip(size);
    assert(bytes.take(4) =~= be_bytes(size, 4));
    assert(bytes.subrange(4, 8) =~= kind);
    assert(bytes.subrange(8, size as int) =~= body);
    assert(bytes.skip(size as int) =~= rest);
}

} // verus!
