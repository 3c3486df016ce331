//! What the sample entry of each codec holds, byte by byte.

use vstd::prelude::*;

use crate::api::VideoCodec;
use crate::boxes::{boxed, law_box_starts_with_its_length};
use crate::bytes::{
    be_bytes, lemma_be_bytes_len, lemma_u16_at, lemma_u32_at, lemma_written_out, u16_at,
};
use crate::codec::av1::{declared_header, SequenceHeader};
use crate::codec::h265::{declared_ptl, ProfileTierLevel};
use crate::fourcc::{AV01, AV1C, AVC1, AVCC, COLR, HVC1, HVCC, NCLX, VP09, VPCC};
use crate::fragmented::init::{
    av1_format_byte, av1_level_byte, av1c_box, avcc_box, byte_or, bytes_or_none, hvcc_array,
    hvcc_box, language_char, language_letter, optional_colr, packed_language, profile_byte,
    sample_entry, sized_set, visual_entry_header, vpcc_box,
};
use crate::fragmented::init_laws::{
    box_at, has_words, lemma_box_at, lemma_part_of_part, lemma_three_inside, lemma_three_words,
};
use crate::fragmented::laws::tag;
use crate::fragmented::{ColorInfo, FragmentConfig};

verus! {

/// A sample entry with the fields `header`, a configuration box and `rest`.
proof fn lemma_entry_parts(
    kind: Seq<u8>,
    header: Seq<u8>,
    inner_kind: Seq<u8>,
    body: Seq<u8>,
    rest: Seq<u8>,
)
    requires
        kind.len() == 4,
        header.len() == 78,
        inner_kind.len() == 4,
    ensures
        ({
            let entry = boxed(kind, header + boxed(inner_kind, body) + rest);
            let end = 94 + body.len() as int;
            &&& entry.len() == end + rest.len()
            &&& box_at(entry, 0, entry.len() as int, kind)
            &&& entry.subrange(8, 86) == header
            &&& box_at(entry, 86, 8 + body.len() as int, inner_kind)
            &&& entry.subrange(94, end) == body
            &&& entry.subrange(end, entry.len() as int) == rest
        }),
{
    let inner = boxed(inner_kind, body);
    let entry = boxed(kind, header + inner + rest);
    let end = 94 + body.len() as int;
    law_box_starts_with_its_length(kind, header + inner + rest);
    law_box_starts_with_its_length(inner_kind, body);
    lemma_three_inside(kind, header, inner, rest);
    lemma_box_at(entry, 86, inner_kind, body);
    assert(entry.subrange(94, end) =~= body) by {
        assert(inner.subrange(8, 8 + body.len() as int) =~= body);
        lemma_part_of_part(entry, 86, end, 8, 8 + body.len() as int);
    }
}

/// The fields that every sample entry starts with: data reference 1, the low
/// 16 bits of width and height, 72 dpi twice, one frame per sample, 24 bits of
/// colour, and zeros elsewhere but for the last two bytes.
#[verifier::opaque]
pub open spec fn has_visual_fields(entry: Seq<u8>, width: u32, height: u32) -> bool {
    &&& forall|k: int| 8 <= k < 14 ==> #[trigger] entry[k] == 0
    &&& u16_at(entry, 14) == 1
    &&& forall|k: int| 16 <= k < 32 ==> #[trigger] entry[k] == 0
    &&& u16_at(entry, 32) == width % 0x1_0000
    &&& u16_at(entry, 34) == height % 0x1_0000
    &&& has_words(entry, 36, seq![0x48_0000nat, 0x48_0000, 0])
    &&& u16_at(entry, 48) == 1
    &&& forall|k: int| 50 <= k < 82 ==> #[trigger] entry[k] == 0
    &&& u16_at(entry, 82) == 0x18
    &&& u16_at(entry, 84) == 0xffff
}

/// A header of a visual sample entry in its place.
proof fn lemma_visual_fields(entry: Seq<u8>, width: u32, height: u32)
    requires
        entry.len() >= 86,
        entry.subrange(8, 86) == visual_entry_header(width, height),
    ensures
        visual_entry_header(width, height).len() == 78,
        has_visual_fields(entry, width, height),
{
    reveal(has_visual_fields);
    broadcast use lemma_be_bytes_len;

    let header = visual_entry_header(width, height);
    lemma_written_out(0);
    assert(header.len() == 78);
    assert(header.subrange(6, 8) =~= be_bytes(1, 2));
    assert(header.subrange(24, 26) =~= be_bytes(width as nat, 2));
    assert(header.subrange(26, 28) =~= be_bytes(height as nat, 2));
    assert(header.subrange(28, 32) =~= be_bytes(0x48_0000, 4));
    assert(header.subrange(32, 36) =~= be_bytes(0x48_0000, 4));
    assert(header.subrange(36, 40) =~= be_bytes(0, 4));
    assert(header.subrange(40, 42) =~= be_bytes(1, 2));
    assert(header.subrange(74, 76) =~= be_bytes(0x18, 2));
    assert(header.subrange(76, 78) =~= be_bytes(0xffff, 2));
    assert forall|k: int| 8 <= k < 14 implies #[trigger] entry[k] == 0 by {
        assert(entry[k] == header[k - 8]);
    }
    assert forall|k: int| 16 <= k < 32 implies #[trigger] entry[k] == 0 by {
        assert(entry[k] == header[k - 8]);
    }
    assert forall|k: int| 50 <= k < 82 implies #[trigger] entry[k] == 0 by {
        assert(entry[k] == header[k - 8]);
    }
    lemma_part_of_part(entry, 8, 86, 6, 8);
    lemma_part_of_part(entry, 8, 86, 24, 26);
    lemma_part_of_part(entry, 8, 86, 26, 28);
    lemma_part_of_part(entry, 8, 86, 28, 32);
    lemma_part_of_part(entry, 8, 86, 32, 36);
    lemma_part_of_part(entry, 8, 86, 36, 40);
    lemma_part_of_part(entry, 8, 86, 40, 42);
    lemma_part_of_part(entry, 8, 86, 74, 76);
    lemma_part_of_part(entry, 8, 86, 76, 78);
    lemma_u16_at(entry, 14, 1);
    lemma_u16_at(entry, 32, width as nat);
    lemma_u16_at(entry, 34, height as nat);
    lemma_u32_at(entry, 36, 0x48_0000);
    lemma_u32_at(entry, 40, 0x48_0000);
    lemma_u32_at(entry, 44, 0);
    lemma_u16_at(entry, 48, 1);
    lemma_u16_at(entry, 82, 0x18);
    lemma_u16_at(entry, 84, 0xffff);
    lemma_three_words(entry, 36, 0x48_0000, 0x48_0000, 0);
}

/// The length of the header of a visual sample entry.
proof fn lemma_header_len(width: u32, height: u32)
    ensures
        visual_entry_header(width, height).len() == 78,
{
    broadcast use lemma_be_bytes_len;

}

/// What follows the configuration box of a sample entry at `at`: a `colr` box
/// with the three code points and the range in the top bit of its last byte,
/// where there is a colour description, and else nothing.
#[verifier::opaque]
pub open spec fn ends_with_color(entry: Seq<u8>, at: int, color: Option<ColorInfo>) -> bool {
    match color {
        Some(info) => {
            &&& entry.len() == at + 19
            &&& box_at(entry, at, 19, tag('c', 'o', 'l', 'r'))
            &&& entry.subrange(at + 8, at + 12) == tag('n', 'c', 'l', 'x')
            &&& u16_at(entry, at + 12) == info.primaries
            &&& u16_at(entry, at + 14) == info.transfer
            &&& u16_at(entry, at + 16) == info.matrix
            &&& entry[at + 18] == if info.full_range {
                128u8
            } else {
                0u8
            }
        },
        None => entry.len() == at,
    }
}

/// A colour description at the end of a sample entry.
proof fn lemma_ends_with_color(entry: Seq<u8>, at: int, color: Option<ColorInfo>)
    requires
        0 <= at <= entry.len(),
        entry.subrange(at, entry.len() as int) == optional_colr(color),
    ensures
        ends_with_color(entry, at, color),
{
    reveal(ends_with_color);
    broadcast use lemma_be_bytes_len;

    let rest = entry.subrange(at, entry.len() as int);
    if let Some(info) = color {
        let last = if info.full_range {
            0x80u8
        } else {
            0u8
        };
        let body = NCLX@ + be_bytes(info.primaries as nat, 2) + be_bytes(info.transfer as nat, 2)
            + be_bytes(info.matrix as nat, 2) + seq![last];
        let end = at + 19;
        assert(rest == boxed(COLR@, body));
        assert(body.len() == 11);
        law_box_starts_with_its_length(COLR@, body);
        lemma_box_at(entry, at, COLR@, body);
        assert(COLR@ =~= tag('c', 'o', 'l', 'r'));
        assert(rest.subrange(8, 12) =~= tag('n', 'c', 'l', 'x'));
        assert(rest.subrange(12, 14) =~= be_bytes(info.primaries as nat, 2));
        assert(rest.subrange(14, 16) =~= be_bytes(info.transfer as nat, 2));
        assert(rest.subrange(16, 18) =~= be_bytes(info.matrix as nat, 2));
        assert(rest[18] == last);
        assert(rest.len() == 19);
        assert(entry[at + 18] == rest[18]);
        lemma_part_of_part(entry, at, end, 8, 12);
        lemma_part_of_part(entry, at, end, 12, 14);
        lemma_part_of_part(entry, at, end, 14, 16);
        lemma_part_of_part(entry, at, end, 16, 18);
        lemma_u16_at(entry, at + 12, info.primaries as nat);
        lemma_u16_at(entry, at + 14, info.transfer as nat);
        lemma_u16_at(entry, at + 16, info.matrix as nat);
    } else {
        assert(rest.len() == 0);
    }
}

/// A number of a part of a sequence.
proof fn lemma_u16_of_part(bytes: Seq<u8>, at: int, end: int, k: int)
    requires
        0 <= at <= end <= bytes.len(),
        0 <= k,
        k + 2 <= end - at,
    ensures
        u16_at(bytes, at + k) == u16_at(bytes.subrange(at, end), k),
{
    reveal(u16_at);
}

/// The body of an `avcC` at `at`: version 1; profile, compatibility and level,
/// which are bytes 1, 2 and 3 of the SPS, and 0x42, 0x00 and 0x1e only where
/// the SPS ends before them; NAL lengths of four bytes; one SPS and one PPS,
/// each behind its length.
#[verifier::opaque]
pub open spec fn has_avcc(bytes: Seq<u8>, at: int, sps: Seq<u8>, pps: Seq<u8>) -> bool {
    let n = sps.len() as int;
    let m = pps.len() as int;
    &&& 0 <= at
    &&& at + 11 + n + m <= bytes.len()
    &&& bytes[at] == 1
    &&& bytes[at + 1] == if n > 1 {
        sps[1]
    } else {
        0x42
    }
    &&& bytes[at + 2] == if n > 2 {
        sps[2]
    } else {
        0x00
    }
    &&& bytes[at + 3] == if n > 3 {
        sps[3]
    } else {
        0x1e
    }
    &&& bytes[at + 4] == 0xff
    &&& bytes[at + 5] == 0xe1
    &&& u16_at(bytes, at + 6) == n % 0x1_0000
    &&& bytes.subrange(at + 8, at + 8 + n) == sps
    &&& bytes[at + 8 + n] == 1
    &&& u16_at(bytes, at + 9 + n) == m % 0x1_0000
    &&& bytes.subrange(at + 11 + n, at + 11 + n + m) == pps
}

/// An `avcC` box has the body of an `avcC`.
proof fn lemma_avcc_body(sps: Seq<u8>, pps: Seq<u8>) -> (body: Seq<u8>)
    ensures
        avcc_box(sps, pps) == boxed(AVCC@, body),
        body.len() == 11 + sps.len() + pps.len(),
        has_avcc(body, 0, sps, pps),
{
    reveal(has_avcc);
    broadcast use lemma_be_bytes_len;

    let front = seq![1u8] + seq![byte_or(sps, 1, 0x42)] + seq![byte_or(sps, 2, 0x00)] + seq![
        byte_or(sps, 3, 0x1e),
    ] + seq![0xffu8] + seq![0xe1u8];
    let body = front + sized_set(sps) + seq![1u8] + sized_set(pps);
    let n = sps.len() as int;
    assert(front.len() == 6);
    assert(body.subrange(6, 8) =~= be_bytes(sps.len(), 2));
    assert(body.subrange(8, 8 + n) =~= sps);
    assert(body.subrange(9 + n, 11 + n) =~= be_bytes(pps.len(), 2));
    assert(body.subrange(11 + n, 11 + n + pps.len()) =~= pps);
    lemma_u16_at(body, 6, sps.len());
    lemma_u16_at(body, 9 + n, pps.len());
    body
}

/// The body of an `avcC` in its place.
proof fn lemma_avcc_of_part(bytes: Seq<u8>, at: int, end: int, sps: Seq<u8>, pps: Seq<u8>)
    requires
        0 <= at <= end <= bytes.len(),
        has_avcc(bytes.subrange(at, end), 0, sps, pps),
    ensures
        has_avcc(bytes, at, sps, pps),
{
    reveal(has_avcc);
    let part = bytes.subrange(at, end);
    let n = sps.len() as int;
    let m = pps.len() as int;
    assert(bytes[at] == part[0] && bytes[at + 1] == part[1] && bytes[at + 2] == part[2]);
    assert(bytes[at + 3] == part[3] && bytes[at + 4] == part[4] && bytes[at + 5] == part[5]);
    assert(bytes[at + 8 + n] == part[8 + n]);
    lemma_u16_of_part(bytes, at, end, 6);
    lemma_u16_of_part(bytes, at, end, 9 + n);
    lemma_part_of_part(bytes, at, end, 8, 8 + n);
    lemma_part_of_part(bytes, at, end, 11 + n, 11 + n + m);
}

/// Whether a sample entry of type `kind` has the fields of every sample entry,
/// then a configuration box of type `inner_kind` with `len` bytes in it, then
/// the colour description, and nothing else.
#[verifier::opaque]
pub open spec fn is_framed(
    entry: Seq<u8>,
    kind: Seq<u8>,
    inner_kind: Seq<u8>,
    len: int,
    config: FragmentConfig,
) -> bool {
    &&& box_at(entry, 0, entry.len() as int, kind)
    &&& has_visual_fields(entry, config.width, config.height)
    &&& box_at(entry, 86, 8 + len, inner_kind)
    &&& ends_with_color(entry, 94 + len, config.color)
}

/// What every sample entry has that ends with the colour description.
proof fn lemma_framed(
    entry: Seq<u8>,
    kind: Seq<u8>,
    inner_kind: Seq<u8>,
    body: Seq<u8>,
    config: FragmentConfig,
)
    requires
        kind.len() == 4,
        inner_kind.len() == 4,
        entry == boxed(
            kind,
            visual_entry_header(config.width, config.height) + boxed(inner_kind, body)
                + optional_colr(config.color),
        ),
    ensures
        is_framed(entry, kind, inner_kind, body.len() as int, config),
        94 + body.len() <= entry.len(),
        entry.subrange(94, 94 + body.len() as int) == body,
{
    reveal(is_framed);
    let header = visual_entry_header(config.width, config.height);
    lemma_header_len(config.width, config.height);
    lemma_entry_parts(kind, header, inner_kind, body, optional_colr(config.color));
    lemma_visual_fields(entry, config.width, config.height);
    lemma_ends_with_color(entry, 94 + body.len() as int, config.color);
}

/// The sample entry of an H.264 track: the fields of every sample entry, then
/// the `avcC`, then the colour description.
pub proof fn law_avc1_entry(config: FragmentConfig)
    requires
        config.codec == VideoCodec::H264,
    ensures
        is_framed(
            sample_entry(config),
            tag('a', 'v', 'c', '1'),
            tag('a', 'v', 'c', 'C'),
            11 + config.sps@.len() + config.pps@.len() as int,
            config,
        ),
        has_avcc(sample_entry(config), 94, config.sps@, config.pps@),
{
    let body = lemma_avcc_body(config.sps@, config.pps@);
    lemma_avc1_entry(sample_entry(config), body, config);
}

/// An entry of type `avc1` around an `avcC` body.
proof fn lemma_avc1_entry(entry: Seq<u8>, body: Seq<u8>, config: FragmentConfig)
    requires
        entry == boxed(
            AVC1@,
            visual_entry_header(config.width, config.height) + boxed(AVCC@, body) + optional_colr(
                config.color,
            ),
        ),
        has_avcc(body, 0, config.sps@, config.pps@),
    ensures
        is_framed(
            entry,
            tag('a', 'v', 'c', '1'),
            tag('a', 'v', 'c', 'C'),
            body.len() as int,
            config,
        ),
        has_avcc(entry, 94, config.sps@, config.pps@),
{
    lemma_framed(entry, AVC1@, AVCC@, body, config);
    assert(AVC1@ =~= tag('a', 'v', 'c', '1'));
    assert(AVCC@ =~= tag('a', 'v', 'c', 'C'));
    lemma_avcc_of_part(entry, 94, 94 + body.len() as int, config.sps@, config.pps@);
}

/// An array of an `hvcC` at `at`: its header byte, one parameter set, and that
/// set behind its length.
pub open spec fn has_array(bytes: Seq<u8>, at: int, header: u8, set: Seq<u8>) -> bool {
    &&& 0 <= at
    &&& at + 5 + set.len() <= bytes.len()
    &&& bytes[at] == header
    &&& u16_at(bytes, at + 1) == 1
    &&& u16_at(bytes, at + 3) == set.len() % 0x1_0000
    &&& bytes.subrange(at + 5, at + 5 + set.len()) == set
}

/// An array of an `hvcC` in its place.
proof fn lemma_array(bytes: Seq<u8>, at: int, header: u8, set: Seq<u8>)
    requires
        0 <= at,
        at + 5 + set.len() <= bytes.len(),
        bytes.subrange(at, at + 5 + set.len()) == hvcc_array(header, set),
    ensures
        has_array(bytes, at, header, set),
{
    broadcast use lemma_be_bytes_len;

    let part = hvcc_array(header, set);
    let end = at + 5 + set.len();
    assert(part.len() == 5 + set.len());
    assert(bytes[at] == part[0]);
    assert(part.subrange(1, 3) =~= be_bytes(1, 2));
    assert(part.subrange(3, 5) =~= be_bytes(set.len(), 2));
    assert(part.subrange(5, 5 + set.len() as int) =~= set);
    lemma_part_of_part(bytes, at, end, 1, 3);
    lemma_part_of_part(bytes, at, end, 3, 5);
    lemma_part_of_part(bytes, at, end, 5, 5 + set.len() as int);
    lemma_u16_at(bytes, at + 1, 1);
    lemma_u16_at(bytes, at + 3, set.len());
}

/// The 22 bytes that an `hvcC` body at `at` starts with: version 1; space,
/// tier and profile in one byte; fixed compatibility and constraint flags; the
/// level; and the values for 8-bit 4:2:0 with NAL lengths of four bytes.
#[verifier::opaque]
pub open spec fn has_hvcc_head(bytes: Seq<u8>, at: int, ptl: ProfileTierLevel) -> bool {
    &&& 0 <= at
    &&& at + 22 <= bytes.len()
    &&& bytes[at] == 1
    &&& bytes[at + 1] / 64 == ptl.profile_space % 4
    &&& bytes[at + 1] / 32 % 2 == 1 <==> ptl.tier_flag
    &&& bytes[at + 1] % 32 == ptl.profile_idc % 32
    &&& bytes.subrange(at + 2, at + 12) == seq![0x60u8, 0, 0, 0, 0x90, 0, 0, 0, 0, 0]
    &&& bytes[at + 12] == ptl.level_idc
    &&& bytes.subrange(at + 13, at + 22) == seq![0xf0u8, 0, 0xfc, 0xfd, 0xf8, 0xf8, 0, 0, 3]
}

/// The start of an `hvcC` body in its place.
proof fn lemma_hvcc_head(bytes: Seq<u8>, at: int, ptl: ProfileTierLevel)
    requires
        0 <= at,
        at + 22 <= bytes.len(),
        bytes.subrange(at, at + 22) == seq![
            1u8,
            profile_byte(ptl),
            0x60,
            0,
            0,
            0,
            0x90,
            0,
            0,
            0,
            0,
            0,
            ptl.level_idc,
            0xf0,
            0,
        ] + seq![0xfcu8, 0xfd, 0xf8, 0xf8, 0, 0, 0x03],
    ensures
        has_hvcc_head(bytes, at, ptl),
{
    reveal(has_hvcc_head);
    let part = bytes.subrange(at, at + 22);
    assert(bytes[at] == part[0] && bytes[at + 1] == part[1] && bytes[at + 12] == part[12]);
    lemma_part_of_part(bytes, at, at + 22, 2, 12);
    lemma_part_of_part(bytes, at, at + 22, 13, 22);
    assert(part.subrange(2, 12) =~= seq![0x60u8, 0, 0, 0, 0x90, 0, 0, 0, 0, 0]);
    assert(part.subrange(13, 22) =~= seq![0xf0u8, 0, 0xfc, 0xfd, 0xf8, 0xf8, 0, 0, 3]);
}

/// The arrays of an `hvcC` body, the number of which stands at `at`: the VPS
/// (type 32) where there is one, the SPS (33) and the PPS (34), each marked
/// complete.
#[verifier::opaque]
pub open spec fn has_hvcc_arrays(
    bytes: Seq<u8>,
    at: int,
    vps: Option<Vec<u8>>,
    sps: Seq<u8>,
    pps: Seq<u8>,
) -> bool {
    &&& 0 <= at < bytes.len()
    &&& match vps {
        Some(set) => {
            let n = set@.len() as int;
            &&& bytes[at] == 3
            &&& has_array(bytes, at + 1, 160, set@)
            &&& has_array(bytes, at + 6 + n, 161, sps)
            &&& has_array(bytes, at + 11 + n + sps.len(), 162, pps)
        },
        None => {
            &&& bytes[at] == 2
            &&& has_array(bytes, at + 1, 161, sps)
            &&& has_array(bytes, at + 6 + sps.len(), 162, pps)
        },
    }
}

/// The arrays of an `hvcC` body in their place.
proof fn lemma_hvcc_arrays(
    bytes: Seq<u8>,
    at: int,
    vps: Option<Vec<u8>>,
    sps: Seq<u8>,
    pps: Seq<u8>,
)
    requires
        ({
            let vps_array = match vps {
                Some(set) => seq![3u8] + hvcc_array(0xa0, set@),
                None => seq![2u8],
            };
            let arrays = vps_array + hvcc_array(0xa1, sps) + hvcc_array(0xa2, pps);
            &&& 0 <= at
            &&& at + arrays.len() <= bytes.len()
            &&& bytes.subrange(at, at + arrays.len()) == arrays
        }),
    ensures
        has_hvcc_arrays(bytes, at, vps, sps, pps),
{
    broadcast use lemma_be_bytes_len;

    reveal(has_hvcc_arrays);
    let vps_array = match vps {
        Some(set) => seq![3u8] + hvcc_array(0xa0, set@),
        None => seq![2u8],
    };
    let sps_array = hvcc_array(0xa1, sps);
    let pps_array = hvcc_array(0xa2, pps);
    let arrays = vps_array + sps_array + pps_array;
    let end = at + arrays.len();
    let first = vps_array.len() as int;
    let second = first + sps_array.len();
    assert(sps_array.len() == 5 + sps.len());
    assert(pps_array.len() == 5 + pps.len());
    assert(bytes[at] == arrays[0]);
    assert(arrays.subrange(first, second) =~= sps_array);
    assert(arrays.subrange(second, arrays.len() as int) =~= pps_array);
    lemma_part_of_part(bytes, at, end, first, second);
    lemma_part_of_part(bytes, at, end, second, arrays.len() as int);
    lemma_array(bytes, at + first, 0xa1, sps);
    lemma_array(bytes, at + second, 0xa2, pps);
    if let Some(set) = vps {
        assert(hvcc_array(0xa0, set@).len() == 5 + set@.len());
        assert(arrays.subrange(1, first) =~= hvcc_array(0xa0, set@));
        lemma_part_of_part(bytes, at, end, 1, first);
        lemma_array(bytes, at + 1, 0xa0, set@);
    }
}

/// An `hvcC` box has its 22 bytes and its arrays.
proof fn lemma_hvcc_body(vps: Option<Vec<u8>>, sps: Seq<u8>, pps: Seq<u8>) -> (body: Seq<u8>)
    ensures
        hvcc_box(sps, pps, vps) == boxed(HVCC@, body),
        body.len() == 33 + sps.len() + pps.len() + match vps {
            Some(set) => 5 + set@.len() as int,
            None => 0,
        },
        has_hvcc_head(body, 0, declared_ptl(sps)),
        has_hvcc_arrays(body, 22, vps, sps, pps),
{
    broadcast use lemma_be_bytes_len;

    let ptl = declared_ptl(sps);
    let head = seq![
        1u8,
        profile_byte(ptl),
        0x60,
        0,
        0,
        0,
        0x90,
        0,
        0,
        0,
        0,
        0,
        ptl.level_idc,
        0xf0,
        0,
    ] + seq![0xfcu8, 0xfd, 0xf8, 0xf8, 0, 0, 0x03];
    let vps_array = match vps {
        Some(set) => seq![3u8] + hvcc_array(0xa0, set@),
        None => seq![2u8],
    };
    let arrays = vps_array + hvcc_array(0xa1, sps) + hvcc_array(0xa2, pps);
    let body = head + vps_array + hvcc_array(0xa1, sps) + hvcc_array(0xa2, pps);
    assert(body =~= head + arrays);
    assert(head.len() == 22);
    assert(body.subrange(0, 22) =~= head);
    assert(body.subrange(22, 22 + arrays.len() as int) =~= arrays);
    lemma_hvcc_head(body, 0, ptl);
    lemma_hvcc_arrays(body, 22, vps, sps, pps);
    body
}

/// An array in a part of a sequence.
proof fn lemma_array_of_part(bytes: Seq<u8>, at: int, end: int, k: int, header: u8, set: Seq<u8>)
    requires
        0 <= at <= end <= bytes.len(),
        has_array(bytes.subrange(at, end), k, header, set),
    ensures
        has_array(bytes, at + k, header, set),
{
    lemma_u16_of_part(bytes, at, end, k + 1);
    lemma_u16_of_part(bytes, at, end, k + 3);
    lemma_part_of_part(bytes, at, end, k + 5, k + 5 + set.len());
}

/// The body of an `hvcC` in its place.
proof fn lemma_hvcc_of_part(
    bytes: Seq<u8>,
    at: int,
    end: int,
    ptl: ProfileTierLevel,
    vps: Option<Vec<u8>>,
    sps: Seq<u8>,
    pps: Seq<u8>,
)
    requires
        0 <= at <= end <= bytes.len(),
        has_hvcc_head(bytes.subrange(at, end), 0, ptl),
        has_hvcc_arrays(bytes.subrange(at, end), 22, vps, sps, pps),
    ensures
        has_hvcc_head(bytes, at, ptl),
        has_hvcc_arrays(bytes, at + 22, vps, sps, pps),
{
    let part = bytes.subrange(at, end);
    assert(has_hvcc_head(bytes, at, ptl)) by {
        reveal(has_hvcc_head);
        assert(bytes[at] == part[0] && bytes[at + 1] == part[1] && bytes[at + 12] == part[12]);
        lemma_part_of_part(bytes, at, end, 2, 12);
        lemma_part_of_part(bytes, at, end, 13, 22);
    }
    reveal(has_hvcc_arrays);
    assert(bytes[at + 22] == part[22]);
    match vps {
        Some(set) => {
            let n = set@.len() as int;
            lemma_array_of_part(bytes, at, end, 23, 160, set@);
            lemma_array_of_part(bytes, at, end, 28 + n, 161, sps);
            lemma_array_of_part(bytes, at, end, 33 + n + sps.len(), 162, pps);
        },
        None => {
            lemma_array_of_part(bytes, at, end, 23, 161, sps);
            lemma_array_of_part(bytes, at, end, 28 + sps.len() as int, 162, pps);
        },
    }
}

/// The sample entry of an H.265 track: the fields of every sample entry, then
/// the `hvcC` with what the SPS declares and the parameter sets, then the
/// colour description.
pub proof fn law_hvc1_entry(config: FragmentConfig)
    requires
        config.codec == VideoCodec::H265,
    ensures
        is_framed(
            sample_entry(config),
            tag('h', 'v', 'c', '1'),
            tag('h', 'v', 'c', 'C'),
            33 + config.sps@.len() + config.pps@.len() + match config.vps {
                Some(set) => 5 + set@.len() as int,
                None => 0,
            },
            config,
        ),
        has_hvcc_head(sample_entry(config), 94, declared_ptl(config.sps@)),
        has_hvcc_arrays(sample_entry(config), 116, config.vps, config.sps@, config.pps@),
{
    let body = lemma_hvcc_body(config.vps, config.sps@, config.pps@);
    lemma_hvc1_entry(sample_entry(config), body, declared_ptl(config.sps@), config);
}

/// An entry of type `hvc1` around an `hvcC` body.
proof fn lemma_hvc1_entry(
    entry: Seq<u8>,
    body: Seq<u8>,
    ptl: ProfileTierLevel,
    config: FragmentConfig,
)
    requires
        entry == boxed(
            HVC1@,
            visual_entry_header(config.width, config.height) + boxed(HVCC@, body) + optional_colr(
                config.color,
            ),
        ),
        has_hvcc_head(body, 0, ptl),
        has_hvcc_arrays(body, 22, config.vps, config.sps@, config.pps@),
    ensures
        is_framed(
            entry,
            tag('h', 'v', 'c', '1'),
            tag('h', 'v', 'c', 'C'),
            body.len() as int,
            config,
        ),
        has_hvcc_head(entry, 94, ptl),
        has_hvcc_arrays(entry, 116, config.vps, config.sps@, config.pps@),
{
    let end = 94 + body.len() as int;
    lemma_framed(entry, HVC1@, HVCC@, body, config);
    assert(HVC1@ =~= tag('h', 'v', 'c', '1'));
    assert(HVCC@ =~= tag('h', 'v', 'c', 'C'));
    lemma_hvcc_of_part(entry, 94, end, ptl, config.vps, config.sps@, config.pps@);
}

/// The body of an `av1C` at `at`: marker and version; profile and level; tier,
/// bit depth and colour format, a bit each but for the two of the sample
/// position; and the OBU that declares them.
#[verifier::opaque]
pub open spec fn has_av1c(
    bytes: Seq<u8>,
    at: int,
    header: SequenceHeader,
    obu: Seq<u8>,
) -> bool {
    let profile = bytes[at + 1] as int;
    let format = bytes[at + 2] as int;
    &&& 0 <= at
    &&& at + 4 + obu.len() <= bytes.len()
    &&& bytes[at] == 0x81
    &&& profile / 32 == header.profile % 8
    &&& profile % 32 == header.level % 32
    &&& format / 128 == header.tier % 2
    &&& format / 64 % 2 == 1 <==> header.color.high_bitdepth
    &&& format / 32 % 2 == 1 <==> header.color.twelve_bit
    &&& format / 16 % 2 == 1 <==> header.color.monochrome
    &&& format / 8 % 2 == 1 <==> header.color.subsampling_x
    &&& format / 4 % 2 == 1 <==> header.color.subsampling_y
    &&& format % 4 == header.color.sample_position % 4
    &&& bytes[at + 3] == 0
    &&& bytes.subrange(at + 4, at + 4 + obu.len()) == obu
}

/// The bytes of an AV1 configuration, none where they are missing.
pub open spec fn av1_stream(config: FragmentConfig) -> Seq<u8> {
    match config.av1_sequence_header {
        Some(bytes) => bytes@,
        None => Seq::empty(),
    }
}

/// The sample entry of an AV1 track whose sequence header can be read: the
/// fields of every sample entry, then the `av1C` with what the first sequence
/// header declares and with its OBU, then the colour description.
pub proof fn law_av01_entry(config: FragmentConfig, header: SequenceHeader, obu: Seq<u8>)
    requires
        config.codec == VideoCodec::Av1,
        declared_header(av1_stream(config)) == Some((header, obu)),
    ensures
        is_framed(
            sample_entry(config),
            tag('a', 'v', '0', '1'),
            tag('a', 'v', '1', 'C'),
            4 + obu.len() as int,
            config,
        ),
        has_av1c(sample_entry(config), 94, header, obu),
{
    let body = seq![0x81u8, av1_level_byte(header), av1_format_byte(header), 0] + obu;
    lemma_av01_shape(config, body);
    lemma_av1c(sample_entry(config), 94, header, obu);
}

/// The sample entry of an AV1 track whose sequence header cannot be read: the
/// fields of the `av1C` are zero and the bytes are repeated as they came.
pub proof fn law_av01_entry_without_header(config: FragmentConfig)
    requires
        config.codec == VideoCodec::Av1,
        declared_header(av1_stream(config)) is None,
    ensures
        ({
            let stream = av1_stream(config);
            let len = 4 + stream.len() as int;
            &&& is_framed(
                sample_entry(config),
                tag('a', 'v', '0', '1'),
                tag('a', 'v', '1', 'C'),
                len,
                config,
            )
            &&& sample_entry(config).subrange(94, 94 + len) == seq![0x81u8, 0, 0, 0] + stream
        }),
{
    let body = seq![0x81u8, 0, 0, 0] + av1_stream(config);
    lemma_av01_shape(config, body);
}

/// An entry of type `av01` around an `av1C` body.
proof fn lemma_av01_shape(config: FragmentConfig, body: Seq<u8>)
    requires
        config.codec == VideoCodec::Av1,
        av1c_box(av1_stream(config)) == boxed(AV1C@, body),
    ensures
        is_framed(
            sample_entry(config),
            tag('a', 'v', '0', '1'),
            tag('a', 'v', '1', 'C'),
            body.len() as int,
            config,
        ),
        94 + body.len() <= sample_entry(config).len(),
        sample_entry(config).subrange(94, 94 + body.len() as int) == body,
{
    assert(bytes_or_none(config.av1_sequence_header) == av1_stream(config));
    lemma_framed(sample_entry(config), AV01@, AV1C@, body, config);
    assert(AV01@ =~= tag('a', 'v', '0', '1'));
    assert(AV1C@ =~= tag('a', 'v', '1', 'C'));
}

/// The body of an `av1C` in its place.
proof fn lemma_av1c(bytes: Seq<u8>, at: int, header: SequenceHeader, obu: Seq<u8>)
    requires
        0 <= at,
        at + 4 + obu.len() <= bytes.len(),
        bytes.subrange(at, at + 4 + obu.len()) == seq![
            0x81u8,
            av1_level_byte(header),
            av1_format_byte(header),
            0,
        ] + obu,
    ensures
        has_av1c(bytes, at, header, obu),
{
    reveal(has_av1c);
    let end = at + 4 + obu.len();
    let part = bytes.subrange(at, end);
    assert(bytes[at] == part[0] && bytes[at + 1] == part[1]);
    assert(bytes[at + 2] == part[2] && bytes[at + 3] == part[3]);
    assert(part.subrange(4, 4 + obu.len() as int) =~= obu);
    lemma_part_of_part(bytes, at, end, 4, 4 + obu.len() as int);
}

/// The sample entry of a VP9 track: the fields of every sample entry, then the
/// `vpcC` with version 1 and the fields of the configuration in this order,
/// and with nothing where there is no configuration. It ends there.
pub proof fn law_vp09_entry(config: FragmentConfig)
    requires
        config.codec == VideoCodec::Vp9,
    ensures
        ({
            let entry = sample_entry(config);
            &&& box_at(entry, 0, entry.len() as int, tag('v', 'p', '0', '9'))
            &&& has_visual_fields(entry, config.width, config.height)
            &&& match config.vp9_config {
                Some(vp9) => {
                    &&& entry.len() == 102
                    &&& box_at(entry, 86, 16, tag('v', 'p', 'c', 'C'))
                    &&& entry[94] == 1
                    &&& entry[95] == vp9.profile
                    &&& entry[96] == vp9.level
                    &&& entry[97] == vp9.bit_depth
                    &&& entry[98] == vp9.color_space
                    &&& entry[99] == vp9.transfer_function
                    &&& entry[100] == vp9.matrix_coefficients
                    &&& entry[101] == vp9.full_range_flag
                },
                None => entry.len() == 94 && box_at(entry, 86, 8, tag('v', 'p', 'c', 'C')),
            }
        }),
{
    let entry = sample_entry(config);
    let header = visual_entry_header(config.width, config.height);
    let body = match config.vp9_config {
        Some(vp9) => seq![
            1u8,
            vp9.profile,
            vp9.level,
            vp9.bit_depth,
            vp9.color_space,
            vp9.transfer_function,
            vp9.matrix_coefficients,
            vp9.full_range_flag,
        ],
        None => Seq::empty(),
    };
    let none = Seq::<u8>::empty();
    lemma_header_len(config.width, config.height);
    assert(vpcc_box(config.vp9_config) == boxed(VPCC@, body));
    assert(header + boxed(VPCC@, body) + none =~= header + boxed(VPCC@, body));
    lemma_entry_parts(VP09@, header, VPCC@, body, none);
    lemma_visual_fields(entry, config.width, config.height);
    assert(VP09@ =~= tag('v', 'p', '0', '9'));
    assert(VPCC@ =~= tag('v', 'p', 'c', 'C'));
    if config.vp9_config is Some {
        assert(body.len() == 8);
        assert forall|k: int| 0 <= k < 8 implies entry[94 + k] == #[trigger] body[k] by {
            assert(entry.subrange(94, 102)[k] == entry[94 + k]);
        }
        assert(entry[94] == body[0] && entry[95] == body[1] && entry[96] == body[2]);
        assert(entry[97] == body[3] && entry[98] == body[4] && entry[99] == body[5]);
        assert(entry[100] == body[6] && entry[101] == body[7]);
    }
}

/// A language code takes three letters, five bits each: letter `a` is 1 and
/// `z` is 26. Further characters do not count, and what is missing is that of
/// `und`.
pub proof fn law_language_packs_three_letters(language: Seq<char>)
    ensures
        packed_language(language) < 0x8000,
        language.len() >= 3 && (forall|i: int|
            0 <= i < 3 ==> 'a' <= #[trigger] language[i] <= 'z') ==> {
            &&& packed_language(language) / 1024 == language[0] as int - 96
            &&& packed_language(language) / 32 % 32 == language[1] as int - 96
            &&& packed_language(language) % 32 == language[2] as int - 96
        },
        language.len() > 3 ==> packed_language(language) == packed_language(language.take(3)),
        language.len() == 2 ==> packed_language(language) == packed_language(language.push('d')),
        language.len() == 1 ==> packed_language(language) == packed_language(language.push('n')),
        language.len() == 0 ==> packed_language(language) == packed_language(language.push('u')),
{
    let a = language_letter(language_char(language, 0, 'u'));
    let b = language_letter(language_char(language, 1, 'n'));
    let c = language_letter(language_char(language, 2, 'd'));
    lemma_three_letters(a, b, c);
    if language.len() >= 3 && (forall|i: int|
        0 <= i < 3 ==> 'a' <= #[trigger] language[i] <= 'z') {
        assert('a' <= language[0] <= 'z');
        assert('a' <= language[1] <= 'z');
        assert('a' <= language[2] <= 'z');
    }
}

/// Three letters of five bits can be told apart.
proof fn lemma_three_letters(a: nat, b: nat, c: nat)
    requires
        a < 32,
        b < 32,
        c < 32,
    ensures
        a * 1024 + b * 32 + c < 0x8000,
        (a * 1024 + b * 32 + c) / 1024 == a,
        (a * 1024 + b * 32 + c) / 32 % 32 == b,
        (a * 1024 + b * 32 + c) % 32 == c,
{
}

/// Any character counts by what its low 16 bits exceed 96, modulo 32, and not
/// at all where they do not.
pub proof fn law_language_counts_above_96(language: Seq<char>)
    requires
        language.len() >= 3,
    ensures
        ({
            let value = |c: char|
                if c as int % 0x1_0000 > 96 {
                    (c as int % 0x1_0000 - 96) % 32
                } else {
                    0
                };
            packed_language(language) == value(language[0]) * 1024 + value(language[1]) * 32
                + value(language[2])
        }),
{
}

} // verus!
