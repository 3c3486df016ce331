//! What the AV1 reader finds, in the bytes of the stream.

use vstd::arithmetic::power2::{lemma2_to64, lemma_pow2_unfold, pow2};
use vstd::prelude::*;

use crate::codec::av1::bits::{bit_at, bits_at, lemma_bit_bound};
use crate::codec::av1::{
    config_of, declared_header, leb128, obu_at, sequence_header, sequence_header_from,
    Av1Config, ObuSpan, SequenceHeader,
};

verus! {

/// Bit `pos` of a byte string is a binary digit of its byte, counted from the
/// top one, and 0 past the end.
pub proof fn law_bits_count_from_the_top(data: Seq<u8>, pos: nat)
    ensures
        pos / 8 >= data.len() ==> bit_at(data, pos) == 0,
        pos / 8 < data.len() ==> {
            let byte = data[(pos / 8) as int];
            &&& pos % 8 == 0 ==> bit_at(data, pos) == byte / 128
            &&& pos % 8 == 1 ==> bit_at(data, pos) == byte / 64 % 2
            &&& pos % 8 == 2 ==> bit_at(data, pos) == byte / 32 % 2
            &&& pos % 8 == 3 ==> bit_at(data, pos) == byte / 16 % 2
            &&& pos % 8 == 4 ==> bit_at(data, pos) == byte / 8 % 2
            &&& pos % 8 == 5 ==> bit_at(data, pos) == byte / 4 % 2
            &&& pos % 8 == 6 ==> bit_at(data, pos) == byte / 2 % 2
            &&& pos % 8 == 7 ==> bit_at(data, pos) == byte % 2
        },
{
    if pos / 8 < data.len() {
        let b = data[(pos / 8) as int];
        assert((b >> 0u8) & 1 == b % 2 && (b >> 1u8) & 1 == b / 2 % 2 && (b >> 2u8) & 1 == b / 4 % 2
            && (b >> 3u8) & 1 == b / 8 % 2 && (b >> 4u8) & 1 == b / 16 % 2 && (b >> 5u8) & 1 == b
            / 32 % 2 && (b >> 6u8) & 1 == b / 64 % 2 && (b >> 7u8) & 1 == b / 128)
            by (bit_vector);
    }
}

/// A field of `a + b` bits is one of `a` bits followed by one of `b` bits, the
/// first being the more significant.
pub proof fn law_fields_follow_each_other(data: Seq<u8>, pos: nat, a: nat, b: nat)
    ensures
        bits_at(data, pos, a) < pow2(a),
        bits_at(data, pos, a + b) == bits_at(data, pos, a) * pow2(b) + bits_at(data, pos + a, b),
        bits_at(data, pos, 1) == bit_at(data, pos),
    decreases a + b,
{
    lemma2_to64();
    reveal_with_fuel(bits_at, 2);
    if b > 0 {
        let less = (b - 1) as nat;
        law_fields_follow_each_other(data, pos, a, less);
        lemma_pow2_unfold(b);
        let (x, y) = (bits_at(data, pos, a), bits_at(data, pos + a, less));
        assert(2 * (x * pow2(less) + y) == x * (2 * pow2(less)) + 2 * y) by (nonlinear_arith);
        assert(pos + (a + b) - 1 == (pos + a) + b - 1);
    } else if a > 0 {
        let less = (a - 1) as nat;
        law_fields_follow_each_other(data, pos, less, 0);
        lemma_bit_bound(data, (pos + a - 1) as nat);
        lemma_pow2_unfold(a);
        assert(bits_at(data, pos, a) * pow2(0) == bits_at(data, pos, a)) by (nonlinear_arith)
            requires
                pow2(0) == 1,
        ;
    } else {
        assert(bits_at(data, pos, 0) * pow2(0) == 0) by (nonlinear_arith)
            requires
                bits_at(data, pos, 0) == 0,
        ;
    }
}

/// A number in LEB128: seven bits a byte, the lowest first, the top bit set in
/// all bytes but the last.
pub open spec fn in_leb128(value: nat) -> Seq<u8>
    decreases value,
{
    if value < 128 {
        seq![value as u8]
    } else {
        seq![(128 + value % 128) as u8] + in_leb128(value / 128)
    }
}

/// A number that takes at most `left` bytes in LEB128 reads back wherever it
/// stands, with the number of its bytes.
pub proof fn law_leb128_reads_back(front: Seq<u8>, value: nat, back: Seq<u8>, left: nat)
    requires
        in_leb128(value).len() <= left,
    ensures
        leb128(front + in_leb128(value) + back, front.len() as int, left) == Some(
            (value, in_leb128(value).len()),
        ),
    decreases value,
{
    let data = front + in_leb128(value) + back;
    let at = front.len() as int;
    assert(in_leb128(value).len() > 0);
    assert(data[at] == in_leb128(value)[0]);
    if value >= 128 {
        let first = seq![(128 + value % 128) as u8];
        let rest = in_leb128(value / 128);
        law_leb128_reads_back(front + first, value / 128, back, (left - 1) as nat);
        assert((front + first) + rest + back =~= data);
    }
}

/// The LEB128 number at `at` does not depend on what precedes it.
proof fn lemma_leb128_shift(front: Seq<u8>, data: Seq<u8>, at: int, left: nat)
    requires
        0 <= at,
    ensures
        leb128(front + data, front.len() + at, left) == leb128(data, at, left),
    decreases left,
{
    if left > 0 && at < data.len() {
        assert((front + data)[front.len() + at] == data[at]);
        lemma_leb128_shift(front, data, at + 1, (left - 1) as nat);
    }
}

/// The OBU at `at` does not depend on what precedes it.
proof fn lemma_obu_shift(front: Seq<u8>, data: Seq<u8>, at: int)
    requires
        0 <= at < data.len(),
    ensures
        obu_at(front + data, front.len() + at) == match obu_at(data, at) {
            Some(obu) => Some(
                ObuSpan {
                    kind: obu.kind,
                    payload: front.len() + obu.payload,
                    end: front.len() + obu.end,
                },
            ),
            None => None,
        },
{
    assert((front + data)[front.len() + at] == data[at]);
    lemma_leb128_shift(front, data, at + 1, 8);
    lemma_leb128_shift(front, data, at + 2, 8);
}

/// The first sequence header does not depend on what precedes the search.
proof fn lemma_search_shift(front: Seq<u8>, data: Seq<u8>, at: int)
    requires
        0 <= at <= data.len(),
    ensures
        sequence_header_from(front + data, front.len() + at) == match sequence_header_from(
            data,
            at,
        ) {
            Some((start, obu)) => Some(
                (
                    front.len() + start,
                    ObuSpan {
                        kind: obu.kind,
                        payload: front.len() + obu.payload,
                        end: front.len() + obu.end,
                    },
                ),
            ),
            None => None,
        },
    decreases data.len() - at,
{
    if at < data.len() {
        lemma_obu_shift(front, data, at);
        if let Some(obu) = obu_at(data, at) {
            if obu.kind != 1 && obu.end > at {
                lemma_search_shift(front, data, obu.end);
            }
        }
    }
}

/// Where a sequence header was found, it lies inside the data.
proof fn lemma_found_inside(data: Seq<u8>, at: int)
    requires
        0 <= at,
    ensures
        sequence_header_from(data, at) matches Some((start, obu)) ==> 0 <= start <= obu.payload
            <= obu.end <= data.len(),
    decreases data.len() - at,
{
    if at < data.len() {
        if let Some(obu) = obu_at(data, at) {
            if obu.kind != 1 && obu.end > at {
                lemma_found_inside(data, obu.end);
            }
        }
    }
}

/// An OBU of another type, here a header byte, a size and as many bytes, does
/// not change what is read behind it.
pub proof fn law_other_obus_are_skipped(kind: u8, payload: Seq<u8>, rest: Seq<u8>)
    requires
        kind < 16,
        kind != 1,
        in_leb128(payload.len()).len() <= 8,
    ensures
        declared_header(
            seq![(8 * kind + 2) as u8] + in_leb128(payload.len()) + payload + rest,
        ) == declared_header(rest),
{
    let header = seq![(8 * kind + 2) as u8];
    let size = in_leb128(payload.len());
    let front = header + size + payload;
    let data = front + rest;
    law_leb128_reads_back(header, payload.len(), payload + rest, 8);
    assert(header + size + (payload + rest) =~= data);
    assert(data[0] == header[0]);
    assert(obu_at(data, 0) == Some(
        ObuSpan {
            kind: kind as int,
            payload: 1 + size.len() as int,
            end: front.len() as int,
        },
    ));
    lemma_skips(front, rest);
}

/// The search goes on behind an OBU of another type.
proof fn lemma_skips(front: Seq<u8>, rest: Seq<u8>)
    requires
        front.len() > 0,
        obu_at(front + rest, 0) matches Some(obu) && obu.kind != 1 && obu.end == front.len(),
    ensures
        declared_header(front + rest) == declared_header(rest),
{
    let data = front + rest;
    let k = front.len() as int;
    lemma_search_skips(front, rest);
    lemma_found_inside(rest, 0);
    if let Some((start, obu)) = sequence_header_from(rest, 0) {
        assert(data.subrange(k + obu.payload, k + obu.end) =~= rest.subrange(
            obu.payload,
            obu.end,
        ));
        assert(data.subrange(k + start, k + obu.end) =~= rest.subrange(start, obu.end));
    }
}

/// Behind an OBU of another type the same sequence header is found.
proof fn lemma_search_skips(front: Seq<u8>, rest: Seq<u8>)
    requires
        front.len() > 0,
        obu_at(front + rest, 0) matches Some(obu) && obu.kind != 1 && obu.end == front.len(),
    ensures
        sequence_header_from(front + rest, 0) == match sequence_header_from(rest, 0) {
            Some((start, obu)) => Some(
                (
                    front.len() + start,
                    ObuSpan {
                        kind: obu.kind,
                        payload: front.len() + obu.payload,
                        end: front.len() + obu.end,
                    },
                ),
            ),
            None => None,
        },
{
    lemma_search_shift(front, rest, 0);
    assert(sequence_header_from(front + rest, 0) == sequence_header_from(
        front + rest,
        front.len() as int,
    ));
}

/// A sequence header OBU with a size is read from its payload and is repeated
/// whole, and what follows it does not matter.
pub proof fn law_sequence_header_is_found(payload: Seq<u8>, rest: Seq<u8>)
    requires
        in_leb128(payload.len()).len() <= 8,
    ensures
        ({
            let obu = seq![0x0au8] + in_leb128(payload.len()) + payload;
            declared_header(obu + rest) == match sequence_header(payload) {
                Some(header) => Some((header, obu)),
                None => None,
            }
        }),
{
    let obu = seq![0x0au8] + in_leb128(payload.len()) + payload;
    lemma_sized_header_found(payload, rest);
    let data = obu + rest;
    let at = 1 + in_leb128(payload.len()).len() as int;
    assert(data.subrange(at, obu.len() as int) =~= payload);
    assert(data.subrange(0, obu.len() as int) =~= obu);
}

/// A sequence header OBU with a size at the start of a stream is the first.
proof fn lemma_sized_header_found(payload: Seq<u8>, rest: Seq<u8>)
    requires
        in_leb128(payload.len()).len() <= 8,
    ensures
        ({
            let obu = seq![0x0au8] + in_leb128(payload.len()) + payload;
            sequence_header_from(obu + rest, 0) == Some(
                (
                    0int,
                    ObuSpan {
                        kind: 1,
                        payload: 1 + in_leb128(payload.len()).len() as int,
                        end: obu.len() as int,
                    },
                ),
            )
        }),
{
    let header = seq![0x0au8];
    let size = in_leb128(payload.len());
    let obu = header + size + payload;
    let data = obu + rest;
    law_leb128_reads_back(header, payload.len(), payload + rest, 8);
    assert(header + size + (payload + rest) =~= data);
    assert(data[0] == 0x0a);
}

/// A field inside the first four bytes.
proof fn lemma_first_bits(data: Seq<u8>)
    ensures
        data.len() >= 1 ==> bits_at(data, 0, 3) == data[0] / 32 && bit_at(data, 4) == data[0] / 8
            % 2 && bit_at(data, 5) == data[0] / 4 % 2,
        data.len() >= 2 ==> bits_at(data, 5, 5) == data[0] % 8 * 4 + data[1] / 64,
        data.len() >= 4 ==> bits_at(data, 24, 5) == data[3] / 8 && bit_at(data, 29) == data[3] / 4
            % 2,
{
    lemma2_to64();
    reveal_with_fuel(bits_at, 6);
    law_bits_count_from_the_top(data, 0);
    law_bits_count_from_the_top(data, 1);
    law_bits_count_from_the_top(data, 2);
    law_bits_count_from_the_top(data, 4);
    law_bits_count_from_the_top(data, 5);
    law_bits_count_from_the_top(data, 6);
    law_bits_count_from_the_top(data, 7);
    law_bits_count_from_the_top(data, 8);
    law_bits_count_from_the_top(data, 9);
    law_bits_count_from_the_top(data, 24);
    law_bits_count_from_the_top(data, 25);
    law_bits_count_from_the_top(data, 26);
    law_bits_count_from_the_top(data, 27);
    law_bits_count_from_the_top(data, 28);
    law_bits_count_from_the_top(data, 29);
}

/// The profile is in the top three bits of a sequence header. A reduced header
/// has its level in bits 5-9 and no tier. Another one without timing has the
/// level of its first operating point in the top five bits of byte 3, and
/// above level 7 the tier in the bit behind them.
pub proof fn law_profile_level_and_tier(data: Seq<u8>, header: SequenceHeader)
    requires
        data.len() >= 4,
        sequence_header(data) == Some(header),
    ensures
        header.profile == data[0] / 32,
        data[0] / 8 % 2 == 1 ==> header.level == data[0] % 8 * 4 + data[1] / 64 && header.tier == 0,
        data[0] / 8 % 2 == 0 && data[0] / 4 % 2 == 0 ==> {
            &&& header.level == data[3] / 8
            &&& header.tier == if data[3] / 8 > 7 {
                data[3] as int / 4 % 2
            } else {
                0
            }
        },
{
    lemma_first_bits(data);
}

/// What colour formats there are: twelve bits only in profile 2 and only with
/// more than eight; monochrome not in profile 1 and always marked as
/// subsampled both ways; else profile 0 has 4:2:0 and profile 1 has 4:4:4
/// (RGB is 4:4:4 in any), and profile 2 has 4:2:2 below twelve bits. Only
/// 4:2:0 has a sample position.
pub proof fn law_color_formats(data: Seq<u8>, header: SequenceHeader)
    requires
        sequence_header(data) == Some(header),
    ensures
        ({
            let c = header.color;
            &&& c.twelve_bit ==> header.profile == 2 && c.high_bitdepth
            &&& c.monochrome ==> header.profile != 1 && c.subsampling_x && c.subsampling_y
            &&& c.subsampling_y ==> c.subsampling_x
            &&& header.profile == 0 ==> c.subsampling_x == c.subsampling_y
            &&& header.profile == 1 ==> !c.subsampling_x && !c.subsampling_y
            &&& header.profile >= 2 && !c.twelve_bit && !c.monochrome ==> !c.subsampling_y
            &&& c.sample_position < 4
            &&& c.sample_position > 0 ==> c.subsampling_x && c.subsampling_y && !c.monochrome
        }),
{
    reveal_with_fuel(bits_at, 3);
    assert forall|pos: nat| #[trigger] bit_at(data, pos) <= 1 by {
        lemma_bit_bound(data, pos);
    }
}

/// Where a reduced header has its colour format: behind the level come the
/// lengths of width and height, these two, and six flags; then the bit depth,
/// in profile 2 with more than eight bits one more bit for twelve, and but for
/// profile 1 the bit for monochrome. In profile 0 the sample position follows
/// the range, where no colour description does.
pub proof fn law_reduced_header_color(data: Seq<u8>, header: SequenceHeader)
    requires
        data.len() >= 4,
        sequence_header(data) == Some(header),
        data[0] / 8 % 2 == 1,
    ensures
        ({
            let c = header.color;
            let p = 26 + bits_at(data, 10, 4) + bits_at(data, 14, 4);
            &&& c.high_bitdepth <==> bit_at(data, p) == 1
            &&& data[0] / 32 == 0 ==> {
                &&& !c.twelve_bit
                &&& c.monochrome <==> bit_at(data, p + 1) == 1
                &&& !c.monochrome && bit_at(data, p + 2) == 0 ==> c.subsampling_x
                    && c.subsampling_y && c.sample_position == bits_at(data, p + 4, 2)
            }
            &&& data[0] / 32 == 1 ==> !c.twelve_bit && !c.monochrome
            &&& data[0] / 32 == 2 && c.high_bitdepth ==> {
                &&& c.twelve_bit <==> bit_at(data, p + 1) == 1
                &&& c.monochrome <==> bit_at(data, p + 2) == 1
            }
            &&& data[0] / 32 == 2 && !c.high_bitdepth ==> {
                &&& !c.twelve_bit
                &&& c.monochrome <==> bit_at(data, p + 1) == 1
            }
        }),
{
    lemma_first_bits(data);
    assert forall|pos: nat| #[trigger] bit_at(data, pos) <= 1 by {
        lemma_bit_bound(data, pos);
    }
}

/// A configuration is that of one header and one OBU only.
pub proof fn law_config_tells_header(
    config: Av1Config,
    header: SequenceHeader,
    obu: Seq<u8>,
)
    requires
        config_of(config, header, obu),
    ensures
        config.sequence_header@ == obu,
        config.seq_profile == header.profile,
        config.seq_level_idx == header.level,
        config.seq_tier == header.tier,
        config.high_bitdepth <==> header.color.high_bitdepth,
        config.twelve_bit <==> header.color.twelve_bit,
        config.monochrome <==> header.color.monochrome,
        config.chroma_subsampling_x <==> header.color.subsampling_x,
        config.chroma_subsampling_y <==> header.color.subsampling_y,
        config.chroma_sample_position == header.color.sample_position,
{
}

} // verus!
