//! Init segments: the `ftyp` and the `moov` that describe the track.

use vstd::prelude::*;
use vstd::string::StrSliceExecFns;

use crate::api::VideoCodec;
use crate::boxes::{boxed, write_box};
use crate::bytes::{
    be_bytes, lemma_concat_empty, low_u16, put_bytes, put_u16, put_u32, put_u8, put_zeros, zeros,
};
use crate::codec::av1::{
    config_of, declared_header, extract_av1_config, Av1Config, SequenceHeader,
};
use crate::codec::h265::{declared_ptl, sps_profile_tier_level, ProfileTierLevel};
use crate::codec::vp9::Vp9Config;
use crate::fourcc::{
    AV01, AV1C, AVC1, AVCC, COLR, DINF, DREF, FTYP, HDLR, HVC1, HVCC, ISO5, ISO6, MDHD, MDIA, MINF,
    MOOV, MP41, MVEX, MVHD, NCLX, STBL, STCO, STSC, STSD, STSZ, STTS, TKHD, TRAK, TREX, URL, VIDE,
    VMHD, VP09, VPCC,
};
use crate::fragmented::{ColorInfo, FragmentConfig};

verus! {

/// The `ftyp` box: brand `iso5`, compatible with `iso5`, `iso6` and `mp41`.
pub open spec fn ftyp_box() -> Seq<u8> {
    boxed(FTYP@, ISO5@ + be_bytes(0, 4) + ISO5@ + ISO6@ + MP41@)
}

/// Append the `ftyp` box to `out`.
pub(crate) fn write_ftyp(out: &mut Vec<u8>)
    ensures
        final(out)@ == old(out)@ + ftyp_box(),
{
    broadcast use lemma_concat_empty;

    let mut o: Vec<u8> = Vec::new();
    put_bytes(&mut o, &ISO5);  // major brand
    put_u32(&mut o, 0);  // minor version
    put_bytes(&mut o, &ISO5);
    put_bytes(&mut o, &ISO6);
    put_bytes(&mut o, &MP41);
    write_box(out, &FTYP, &o);
}

/// The unity matrix.
pub open spec fn unity_matrix() -> Seq<u8> {
    be_bytes(0x0001_0000, 4) + zeros(12) + be_bytes(0x0001_0000, 4) + zeros(12) + be_bytes(
        0x4000_0000,
        4,
    )
}

/// Append the unity matrix to `out`.
fn put_unity_matrix(out: &mut Vec<u8>)
    ensures
        final(out)@ == old(out)@ + unity_matrix(),
{
    put_u32(out, 0x0001_0000);
    put_zeros(out, 12);
    put_u32(out, 0x0001_0000);
    put_zeros(out, 12);
    put_u32(out, 0x4000_0000);
    assert(out@ =~= old(out)@ + unity_matrix());
}

/// The `mvhd` box: no creation or modification time, duration unknown, rate
/// 1.0, full volume, unity matrix, next track 2.
pub open spec fn mvhd_box(timescale: u32) -> Seq<u8> {
    boxed(
        MVHD@,
        be_bytes(0, 4) + be_bytes(0, 4) + be_bytes(0, 4) + be_bytes(timescale as nat, 4) + be_bytes(
            0,
            4,
        ) + be_bytes(0x0001_0000, 4) + be_bytes(0x0100, 2) + zeros(10) + unity_matrix() + zeros(24)
            + be_bytes(2, 4),
    )
}

/// Append the `mvhd` box to `out`.
fn write_mvhd(out: &mut Vec<u8>, timescale: u32)
    ensures
        final(out)@ == old(out)@ + mvhd_box(timescale),
{
    broadcast use lemma_concat_empty;

    let mut o: Vec<u8> = Vec::new();
    put_u32(&mut o, 0);  // version + flags
    put_u32(&mut o, 0);  // creation time
    put_u32(&mut o, 0);  // modification time
    put_u32(&mut o, timescale);
    put_u32(&mut o, 0);  // duration (unknown for live)
    put_u32(&mut o, 0x0001_0000);  // rate (1.0)
    put_u16(&mut o, 0x0100);  // volume
    put_zeros(&mut o, 10);  // reserved
    put_unity_matrix(&mut o);
    put_zeros(&mut o, 24);  // pre-defined
    put_u32(&mut o, 2);  // next track ID
    write_box(out, &MVHD, &o);
}

/// The `trex` box: track 1, sample description 1, no defaults.
pub open spec fn trex_box() -> Seq<u8> {
    boxed(
        TREX@,
        be_bytes(0, 4) + be_bytes(1, 4) + be_bytes(1, 4) + be_bytes(0, 4) + be_bytes(0, 4)
            + be_bytes(0, 4),
    )
}

/// The `mvex` box around the `trex`.
pub open spec fn mvex_box() -> Seq<u8> {
    boxed(MVEX@, trex_box())
}

/// Append the `mvex` box to `out`.
fn write_mvex(out: &mut Vec<u8>)
    ensures
        final(out)@ == old(out)@ + mvex_box(),
{
    broadcast use lemma_concat_empty;

    let mut t: Vec<u8> = Vec::new();
    put_u32(&mut t, 0);  // version + flags
    put_u32(&mut t, 1);  // track ID
    put_u32(&mut t, 1);  // default sample description index
    put_u32(&mut t, 0);  // default sample duration
    put_u32(&mut t, 0);  // default sample size
    put_u32(&mut t, 0);  // default sample flags
    let mut o: Vec<u8> = Vec::new();
    write_box(&mut o, &TREX, &t);
    write_box(out, &MVEX, &o);
}

/// The `tkhd` box of track 1, enabled and in the movie, with its size as
/// 16.16 fixed-point numbers of which the upper half keeps 16 bits.
pub open spec fn tkhd_box(width: u32, height: u32) -> Seq<u8> {
    boxed(
        TKHD@,
        be_bytes(3, 4) + be_bytes(0, 4) + be_bytes(0, 4) + be_bytes(1, 4) + be_bytes(0, 4)
            + be_bytes(0, 4) + zeros(8) + be_bytes(0, 2) + be_bytes(0, 2) + be_bytes(0, 2)
            + be_bytes(0, 2) + unity_matrix() + be_bytes(width as nat % 0x1_0000 * 0x1_0000, 4)
            + be_bytes(height as nat % 0x1_0000 * 0x1_0000, 4),
    )
}

/// `pixels` as a 16.16 fixed-point number.
fn fixed_point(pixels: u32) -> (fixed: u32)
    ensures
        fixed == pixels as nat % 0x1_0000 * 0x1_0000,
{
    assert(pixels << 16 == pixels % 0x1_0000 * 0x1_0000) by (bit_vector);
    pixels << 16
}

/// Append the `tkhd` box to `out`.
fn write_tkhd(out: &mut Vec<u8>, config: &FragmentConfig)
    ensures
        final(out)@ == old(out)@ + tkhd_box(config.width, config.height),
{
    broadcast use lemma_concat_empty;

    let mut o: Vec<u8> = Vec::new();
    put_u32(&mut o, 0x0000_0003);  // enabled + in_movie
    put_u32(&mut o, 0);  // creation time
    put_u32(&mut o, 0);  // modification time
    put_u32(&mut o, 1);  // track ID
    put_u32(&mut o, 0);  // reserved
    put_u32(&mut o, 0);  // duration
    put_zeros(&mut o, 8);  // reserved
    put_u16(&mut o, 0);  // layer
    put_u16(&mut o, 0);  // alternate group
    put_u16(&mut o, 0);  // volume (0 for video)
    put_u16(&mut o, 0);  // reserved
    put_unity_matrix(&mut o);
    // Width/height in fixed-point 16.16.
    put_u32(&mut o, fixed_point(config.width));
    put_u32(&mut o, fixed_point(config.height));
    write_box(out, &TKHD, &o);
}

/// Character `i` of a language code, and `fallback` where it is too short.
pub open spec fn language_char(language: Seq<char>, i: int, fallback: char) -> char {
    if i < language.len() {
        language[i]
    } else {
        fallback
    }
}

/// A letter of a language code in five bits, `a` being 1: what the low 16
/// bits of the character exceed 0x60 by.
pub open spec fn language_letter(c: char) -> nat {
    let code = c as nat % 0x1_0000;
    if code > 0x60 {
        ((code - 0x60) % 32) as nat
    } else {
        0
    }
}

/// The first three letters of a language code, five bits each. Letters that
/// are missing are those of `und`.
pub open spec fn packed_language(language: Seq<char>) -> nat {
    language_letter(language_char(language, 0, 'u')) * 1024 + language_letter(
        language_char(language, 1, 'n'),
    ) * 32 + language_letter(language_char(language, 2, 'd'))
}

/// A letter of a language code in five bits.
fn encode_letter(c: char) -> (letter: u16)
    ensures
        letter == language_letter(c),
        letter < 32,
{
    let wide: u32 = c as u32;
    let code: u16 = c as u16;
    assert(wide as u16 == wide % 0x1_0000) by (bit_vector);
    let above: u16 = code.saturating_sub(0x60);
    assert(above & 0x1f == above % 32) by (bit_vector);
    above & 0x1f
}

/// Pack the first three letters of a language code into two bytes.
pub fn encode_language_code(language: &str) -> (code: [u8; 2])
    ensures
        code@ == be_bytes(packed_language(language@), 2),
{
    let count: usize = language.unicode_len();
    let c1: char = if count > 0 {
        language.get_char(0)
    } else {
        'u'
    };
    let c2: char = if count > 1 {
        language.get_char(1)
    } else {
        'n'
    };
    let c3: char = if count > 2 {
        language.get_char(2)
    } else {
        'd'
    };
    let packed: u16 = encode_letter(c1) * 1024 + encode_letter(c2) * 32 + encode_letter(c3);
    let code = [(packed / 256) as u8, (packed % 256) as u8];
    proof {
        reveal_with_fuel(be_bytes, 3);
    }
    assert(code@ =~= be_bytes(packed_language(language@), 2));
    code
}

/// The `mdhd` box: duration unknown, language undetermined.
pub open spec fn mdhd_box(timescale: u32) -> Seq<u8> {
    boxed(
        MDHD@,
        be_bytes(0, 4) + be_bytes(0, 4) + be_bytes(0, 4) + be_bytes(timescale as nat, 4) + be_bytes(
            0,
            4,
        ) + be_bytes(packed_language("und"@), 2) + be_bytes(0, 2),
    )
}

/// Append the `mdhd` box to `out`.
fn write_mdhd(out: &mut Vec<u8>, timescale: u32)
    ensures
        final(out)@ == old(out)@ + mdhd_box(timescale),
{
    broadcast use lemma_concat_empty;

    let mut o: Vec<u8> = Vec::new();
    put_u32(&mut o, 0);  // version + flags
    put_u32(&mut o, 0);  // creation time
    put_u32(&mut o, 0);  // modification time
    put_u32(&mut o, timescale);
    put_u32(&mut o, 0);  // duration (unknown)
    let language = encode_language_code("und");
    put_bytes(&mut o, &language);
    put_u16(&mut o, 0);  // quality
    write_box(out, &MDHD, &o);
}

/// The name of the handler, with its terminating zero.
pub const HANDLER_NAME: [u8; 13] = [
    'V' as u8,
    'i' as u8,
    'd' as u8,
    'e' as u8,
    'o' as u8,
    'H' as u8,
    'a' as u8,
    'n' as u8,
    'd' as u8,
    'l' as u8,
    'e' as u8,
    'r' as u8,
    0,
];

/// The `hdlr` box of a video track.
pub open spec fn hdlr_box() -> Seq<u8> {
    boxed(HDLR@, be_bytes(0, 4) + be_bytes(0, 4) + VIDE@ + zeros(12) + HANDLER_NAME@)
}

/// Append the `hdlr` box to `out`.
fn write_hdlr_video(out: &mut Vec<u8>)
    ensures
        final(out)@ == old(out)@ + hdlr_box(),
{
    broadcast use lemma_concat_empty;

    let mut o: Vec<u8> = Vec::new();
    put_u32(&mut o, 0);  // version + flags
    put_u32(&mut o, 0);  // pre-defined
    put_bytes(&mut o, &VIDE);
    put_zeros(&mut o, 12);  // reserved
    put_bytes(&mut o, &HANDLER_NAME);
    write_box(out, &HDLR, &o);
}

/// The `vmhd` box.
pub open spec fn vmhd_box() -> Seq<u8> {
    boxed(VMHD@, be_bytes(1, 4) + zeros(8))
}

/// Append the `vmhd` box to `out`.
fn write_vmhd(out: &mut Vec<u8>)
    ensures
        final(out)@ == old(out)@ + vmhd_box(),
{
    broadcast use lemma_concat_empty;

    let mut o: Vec<u8> = Vec::new();
    put_u32(&mut o, 0x0000_0001);
    put_zeros(&mut o, 8);  // graphics mode + op color
    write_box(out, &VMHD, &o);
}

/// The `url ` box of data in the same file.
pub open spec fn url_box() -> Seq<u8> {
    boxed(URL@, be_bytes(1, 4))
}

/// The `dref` box with that one entry.
pub open spec fn dref_box() -> Seq<u8> {
    boxed(DREF@, be_bytes(0, 4) + be_bytes(1, 4) + url_box())
}

/// The `dinf` box around the `dref`.
pub open spec fn dinf_box() -> Seq<u8> {
    boxed(DINF@, dref_box())
}

/// Append the `dinf` box to `out`.
fn write_dinf(out: &mut Vec<u8>)
    ensures
        final(out)@ == old(out)@ + dinf_box(),
{
    broadcast use lemma_concat_empty;

    let mut u: Vec<u8> = Vec::new();
    put_u32(&mut u, 1);  // self-contained
    let mut d: Vec<u8> = Vec::new();
    put_u32(&mut d, 0);  // version + flags
    put_u32(&mut d, 1);  // entry count
    write_box(&mut d, &URL, &u);
    let mut o: Vec<u8> = Vec::new();
    write_box(&mut o, &DREF, &d);
    write_box(out, &DINF, &o);
}

/// The fields that every visual sample entry starts with. Width and height
/// keep 16 bits.
pub open spec fn visual_entry_header(width: u32, height: u32) -> Seq<u8> {
    zeros(6) + be_bytes(1, 2) + be_bytes(0, 2) + be_bytes(0, 2) + zeros(12) + be_bytes(
        width as nat,
        2,
    ) + be_bytes(height as nat, 2) + be_bytes(0x0048_0000, 4) + be_bytes(0x0048_0000, 4) + be_bytes(
        0,
        4,
    ) + be_bytes(1, 2) + zeros(32) + be_bytes(0x0018, 2) + be_bytes(0xffff, 2)
}

/// Append the fields that every visual sample entry starts with to `out`.
fn write_visual_sample_entry_header(out: &mut Vec<u8>, width: u32, height: u32)
    ensures
        final(out)@ == old(out)@ + visual_entry_header(width, height),
{
    broadcast use lemma_concat_empty;

    let mut o: Vec<u8> = Vec::new();
    put_zeros(&mut o, 6);  // reserved
    put_u16(&mut o, 1);  // data reference index
    put_u16(&mut o, 0);  // pre-defined
    put_u16(&mut o, 0);  // reserved
    put_zeros(&mut o, 12);  // pre-defined
    put_u16(&mut o, low_u16(width as u64));
    put_u16(&mut o, low_u16(height as u64));
    put_u32(&mut o, 0x0048_0000);  // 72 dpi
    put_u32(&mut o, 0x0048_0000);
    put_u32(&mut o, 0);  // reserved
    put_u16(&mut o, 1);  // frame count
    put_zeros(&mut o, 32);  // compressor name
    put_u16(&mut o, 0x0018);  // 24-bit depth
    put_u16(&mut o, 0xffff);  // pre-defined (-1)
    put_bytes(out, &o);
}

/// The `colr` box of a colour description: type `nclx`, the three code
/// points, and the range in the top bit of the last byte.
pub open spec fn colr_box(color: ColorInfo) -> Seq<u8> {
    boxed(
        COLR@,
        NCLX@ + be_bytes(color.primaries as nat, 2) + be_bytes(color.transfer as nat, 2) + be_bytes(
            color.matrix as nat,
            2,
        ) + seq![
            if color.full_range {
                0x80u8
            } else {
                0u8
            },
        ],
    )
}

/// The `colr` box, where there is a colour description.
pub open spec fn optional_colr(color: Option<ColorInfo>) -> Seq<u8> {
    match color {
        Some(info) => colr_box(info),
        None => Seq::empty(),
    }
}

/// Append the `colr` box to `out`, where there is a colour description.
fn write_colr(out: &mut Vec<u8>, color: &Option<ColorInfo>)
    ensures
        final(out)@ == old(out)@ + optional_colr(*color),
{
    broadcast use lemma_concat_empty;

    match color {
        Some(info) => {
            let mut o: Vec<u8> = Vec::new();
            put_bytes(&mut o, &NCLX);
            put_u16(&mut o, info.primaries);
            put_u16(&mut o, info.transfer);
            put_u16(&mut o, info.matrix);
            put_u8(
                &mut o,
                if info.full_range {
                    0x80
                } else {
                    0
                },
            );
            write_box(out, &COLR, &o);
        },
        None => {
            assert(out@ =~= old(out)@ + optional_colr(*color));
        },
    }
}

/// Byte `i` of `bytes`, and `fallback` past the end.
pub open spec fn byte_or(bytes: Seq<u8>, i: int, fallback: u8) -> u8 {
    if i < bytes.len() {
        bytes[i]
    } else {
        fallback
    }
}

/// Byte `i` of `bytes`, and `fallback` past the end.
fn get_or(bytes: &Vec<u8>, i: usize, fallback: u8) -> (byte: u8)
    ensures
        byte == byte_or(bytes@, i as int, fallback),
{
    if i < bytes.len() {
        bytes[i]
    } else {
        fallback
    }
}

/// A parameter set behind its length in two bytes.
pub open spec fn sized_set(set: Seq<u8>) -> Seq<u8> {
    be_bytes(set.len(), 2) + set
}

/// Append a parameter set to `out` behind its length in two bytes.
fn put_sized_set(out: &mut Vec<u8>, set: &Vec<u8>)
    ensures
        final(out)@ == old(out)@ + sized_set(set@),
{
    put_u16(out, low_u16(set.len() as u64));
    put_bytes(out, set);
    assert(out@ =~= old(out)@ + sized_set(set@));
}

/// The `avcC` box: profile, compatibility and level from the SPS, four-byte
/// NAL lengths, one SPS and one PPS.
pub open spec fn avcc_box(sps: Seq<u8>, pps: Seq<u8>) -> Seq<u8> {
    boxed(
        AVCC@,
        seq![1u8] + seq![byte_or(sps, 1, 0x42)] + seq![byte_or(sps, 2, 0x00)] + seq![
            byte_or(sps, 3, 0x1e),
        ] + seq![0xffu8] + seq![0xe1u8] + sized_set(sps) + seq![1u8] + sized_set(pps),
    )
}

/// Append the `avcC` box to `out`.
fn write_avcc(out: &mut Vec<u8>, config: &FragmentConfig)
    ensures
        final(out)@ == old(out)@ + avcc_box(config.sps@, config.pps@),
{
    broadcast use lemma_concat_empty;

    let mut o: Vec<u8> = Vec::new();
    put_u8(&mut o, 1);  // configuration version
    put_u8(&mut o, get_or(&config.sps, 1, 0x42));  // profile
    put_u8(&mut o, get_or(&config.sps, 2, 0x00));  // profile compatibility
    put_u8(&mut o, get_or(&config.sps, 3, 0x1e));  // level
    put_u8(&mut o, 0xff);  // 6 reserved + lengthSizeMinusOne (4-byte length prefix)
    put_u8(&mut o, 0xe1);  // 3 reserved + numSPS
    put_sized_set(&mut o, &config.sps);
    put_u8(&mut o, 1);  // numPPS
    put_sized_set(&mut o, &config.pps);
    write_box(out, &AVCC, &o);
}

/// The `avc1` sample entry.
pub open spec fn avc1_box(config: FragmentConfig) -> Seq<u8> {
    boxed(
        AVC1@,
        visual_entry_header(config.width, config.height) + avcc_box(config.sps@, config.pps@)
            + optional_colr(config.color),
    )
}

/// Append the `avc1` sample entry to `out`.
fn write_avc1(out: &mut Vec<u8>, config: &FragmentConfig)
    ensures
        final(out)@ == old(out)@ + avc1_box(*config),
{
    broadcast use lemma_concat_empty;

    let mut o: Vec<u8> = Vec::new();
    write_visual_sample_entry_header(&mut o, config.width, config.height);
    write_avcc(&mut o, config);
    write_colr(&mut o, &config.color);
    write_box(out, &AVC1, &o);
}

/// An array of the `hvcC` box that holds one complete parameter set.
pub open spec fn hvcc_array(header: u8, set: Seq<u8>) -> Seq<u8> {
    seq![header] + be_bytes(1, 2) + sized_set(set)
}

/// Append an array of the `hvcC` box to `out`.
fn put_hvcc_array(out: &mut Vec<u8>, header: u8, set: &Vec<u8>)
    ensures
        final(out)@ == old(out)@ + hvcc_array(header, set@),
{
    put_u8(out, header);
    put_u16(out, 1);
    put_sized_set(out, set);
    assert(out@ =~= old(out)@ + hvcc_array(header, set@));
}

/// Profile space, tier and profile in one byte.
pub open spec fn profile_byte(ptl: ProfileTierLevel) -> u8 {
    (ptl.profile_space % 4 * 64 + (if ptl.tier_flag {
        32int
    } else {
        0int
    }) + ptl.profile_idc % 32) as u8
}

/// The `hvcC` box: profile, tier and level from the SPS, 8-bit 4:2:0,
/// four-byte NAL lengths, and an array for each parameter set that is there.
pub open spec fn hvcc_box(sps: Seq<u8>, pps: Seq<u8>, vps: Option<Vec<u8>>) -> Seq<u8> {
    let ptl = declared_ptl(sps);
    boxed(
        HVCC@,
        seq![1u8, profile_byte(ptl), 0x60, 0, 0, 0, 0x90, 0, 0, 0, 0, 0, ptl.level_idc, 0xf0, 0]
            + seq![0xfcu8, 0xfd, 0xf8, 0xf8, 0, 0, 0x03] + (match vps {
            Some(set) => seq![3u8] + hvcc_array(0xa0, set@),
            None => seq![2u8],
        }) + hvcc_array(0xa1, sps) + hvcc_array(0xa2, pps),
    )
}

/// Append the `hvcC` box to `out`.
fn write_hvcc(out: &mut Vec<u8>, config: &FragmentConfig)
    ensures
        final(out)@ == old(out)@ + hvcc_box(config.sps@, config.pps@, config.vps),
{
    broadcast use lemma_concat_empty;

    // Profile/tier/level extracted from SPS without owning the bytes.
    let ptl = sps_profile_tier_level(&config.sps);
    let space: u8 = ptl.profile_space;
    let tier: u8 = if ptl.tier_flag {
        0x20
    } else {
        0
    };
    let idc: u8 = ptl.profile_idc;
    let byte1: u8 = (space << 6) | tier | (idc & 0x1f);
    assert(byte1 == space % 4 * 64 + tier + idc % 32) by (bit_vector)
        requires
            byte1 == (space << 6) | tier | (idc & 0x1f),
            tier == 0x20 || tier == 0,
    ;

    let mut o: Vec<u8> = Vec::new();
    put_bytes(
        &mut o,
        &[
            1,  // configuration version
            byte1,
            // profile compatibility
            0x60,
            0,
            0,
            0,
            // constraint indicator
            0x90,
            0,
            0,
            0,
            0,
            0,
            ptl.level_idc,
            // min_spatial_segmentation_idc
            0xf0,
            0,
        ],
    );
    assert(o@ =~= seq![
        1u8,
        profile_byte(ptl),
        0x60,
        0,
        0,
        0,
        0x90,
        0,
        0,
        0,
        0,
        0,
        ptl.level_idc,
        0xf0,
        0,
    ]);
    let ghost head = o@;
    put_bytes(
        &mut o,
        &[
            0xfc,  // parallelismType
            0xfd,  // chromaFormat (4:2:0)
            0xf8,  // bitDepthLumaMinus8 (8-bit)
            0xf8,  // bitDepthChromaMinus8 (8-bit)
            // avgFrameRate
            0,
            0,
            0x03,  // constantFrameRate=0, numTemporalLayers=0, lengthSizeMinusOne=3
        ],
    );
    assert(o@ =~= head + seq![0xfcu8, 0xfd, 0xf8, 0xf8, 0, 0, 0x03]);
    let ghost fixed = o@;
    match &config.vps {
        Some(vps) => {
            put_u8(&mut o, 3);  // number of arrays
            put_hvcc_array(&mut o, 0b1010_0000, vps);
            assert(o@ =~= fixed + (seq![3u8] + hvcc_array(0xa0, vps@)));
        },
        None => {
            put_u8(&mut o, 2);  // number of arrays
        },
    }
    put_hvcc_array(&mut o, 0b1010_0001, &config.sps);
    put_hvcc_array(&mut o, 0b1010_0010, &config.pps);
    write_box(out, &HVCC, &o);
}

/// The `hvc1` sample entry.
pub open spec fn hvc1_box(config: FragmentConfig) -> Seq<u8> {
    boxed(
        HVC1@,
        visual_entry_header(config.width, config.height) + hvcc_box(
            config.sps@,
            config.pps@,
            config.vps,
        ) + optional_colr(config.color),
    )
}

/// Append the `hvc1` sample entry to `out`.
fn write_hvc1(out: &mut Vec<u8>, config: &FragmentConfig)
    ensures
        final(out)@ == old(out)@ + hvc1_box(*config),
{
    broadcast use lemma_concat_empty;

    let mut o: Vec<u8> = Vec::new();
    write_visual_sample_entry_header(&mut o, config.width, config.height);
    write_hvcc(&mut o, config);
    write_colr(&mut o, &config.color);
    write_box(out, &HVC1, &o);
}

/// `weight` where `flag` is set, else 0.
pub open spec fn weighted(flag: bool, weight: nat) -> nat {
    if flag {
        weight
    } else {
        0
    }
}

/// Profile and level in one byte.
pub open spec fn av1_level_byte(header: SequenceHeader) -> u8 {
    (header.profile % 8 * 32 + header.level % 32) as u8
}

/// Tier, bit depth and colour format in one byte.
pub open spec fn av1_format_byte(header: SequenceHeader) -> u8 {
    (header.tier % 2 * 128 + weighted(header.color.high_bitdepth, 64) + weighted(
        header.color.twelve_bit,
        32,
    ) + weighted(header.color.monochrome, 16) + weighted(header.color.subsampling_x, 8) + weighted(
        header.color.subsampling_y,
        4,
    ) + header.color.sample_position % 4) as u8
}

/// The bytes of an optional buffer; none where it is missing.
pub open spec fn bytes_or_none(bytes: Option<Vec<u8>>) -> Seq<u8> {
    match bytes {
        Some(found) => found@,
        None => Seq::empty(),
    }
}

/// The `av1C` box: what the sequence header declares and its OBU. Where no
/// sequence header can be read the fields are zero and the bytes are
/// repeated as they came.
pub open spec fn av1c_box(stream: Seq<u8>) -> Seq<u8> {
    boxed(
        AV1C@,
        match declared_header(stream) {
            Some((header, obu)) => seq![
                0x81u8,
                av1_level_byte(header),
                av1_format_byte(header),
                0,
            ] + obu,
            None => seq![0x81u8, 0, 0, 0] + stream,
        },
    )
}

/// Profile and level of `config` in one byte.
fn pack_av1_level(config: &Av1Config) -> (byte: u8)
    ensures
        byte == config.seq_profile % 8 * 32 + config.seq_level_idx % 32,
{
    let profile: u8 = config.seq_profile;
    let level: u8 = config.seq_level_idx;
    assert(((profile & 0x07) << 5) | (level & 0x1f) == profile % 8 * 32 + level % 32)
        by (bit_vector);
    ((profile & 0x07) << 5) | (level & 0x1f)
}

/// `weight` where `flag` is set, else 0.
fn flag_bit(flag: bool, weight: u8) -> (value: u8)
    ensures
        value == weighted(flag, weight as nat),
{
    if flag {
        weight
    } else {
        0
    }
}

/// Tier, bit depth and colour format of `config` in one byte.
fn pack_av1_format(config: &Av1Config) -> (byte: u8)
    ensures
        byte == config.seq_tier % 2 * 128 + weighted(config.high_bitdepth, 64) + weighted(
            config.twelve_bit,
            32,
        ) + weighted(config.monochrome, 16) + weighted(config.chroma_subsampling_x, 8) + weighted(
            config.chroma_subsampling_y,
            4,
        ) + config.chroma_sample_position % 4,
{
    config.seq_tier % 2 * 128 + flag_bit(config.high_bitdepth, 64) + flag_bit(config.twelve_bit, 32)
        + flag_bit(config.monochrome, 16) + flag_bit(config.chroma_subsampling_x, 8) + flag_bit(
        config.chroma_subsampling_y,
        4,
    ) + config.chroma_sample_position % 4
}

/// Append the `av1C` box to `out`.
fn write_av1c(out: &mut Vec<u8>, config: &FragmentConfig)
    ensures
        final(out)@ == old(out)@ + av1c_box(bytes_or_none(config.av1_sequence_header)),
{
    broadcast use lemma_concat_empty;

    let none: Vec<u8> = Vec::new();
    let stream: &Vec<u8> = match &config.av1_sequence_header {
        Some(bytes) => bytes,
        None => &none,
    };
    assert(stream@ =~= bytes_or_none(config.av1_sequence_header));
    let mut o: Vec<u8> = Vec::new();
    put_u8(&mut o, 0x81);  // marker (1) + version (1)
    match extract_av1_config(stream) {
        Some(av1) => {
            put_u8(&mut o, pack_av1_level(&av1));
            put_u8(&mut o, pack_av1_format(&av1));
            put_u8(&mut o, 0x00);  // no initial presentation delay
            proof {
                let (header, obu) = declared_header(stream@).unwrap();
                assert(config_of(av1, header, obu));
                assert(o@ =~= seq![0x81u8, av1_level_byte(header), av1_format_byte(header), 0]);
            }
            put_bytes(&mut o, &av1.sequence_header);
        },
        None => {
            put_u8(&mut o, 0);
            put_u8(&mut o, 0);
            put_u8(&mut o, 0x00);  // no initial presentation delay
            assert(o@ =~= seq![0x81u8, 0, 0, 0]);
            put_bytes(&mut o, stream);
        },
    }
    write_box(out, &AV1C, &o);
}

/// The `av01` sample entry.
pub open spec fn av01_box(config: FragmentConfig) -> Seq<u8> {
    boxed(
        AV01@,
        visual_entry_header(config.width, config.height) + av1c_box(
            bytes_or_none(config.av1_sequence_header),
        ) + optional_colr(config.color),
    )
}

/// Append the `av01` sample entry to `out`.
fn write_av01(out: &mut Vec<u8>, config: &FragmentConfig)
    ensures
        final(out)@ == old(out)@ + av01_box(*config),
{
    broadcast use lemma_concat_empty;

    let mut o: Vec<u8> = Vec::new();
    write_visual_sample_entry_header(&mut o, config.width, config.height);
    write_av1c(&mut o, config);
    write_colr(&mut o, &config.color);
    write_box(out, &AV01, &o);
}

/// The `vpcC` box; empty where there is no VP9 configuration.
pub open spec fn vpcc_box(config: Option<Vp9Config>) -> Seq<u8> {
    boxed(
        VPCC@,
        match config {
            Some(vp9) => seq![
                1u8,
                vp9.profile,
                vp9.level,
                vp9.bit_depth,
                vp9.color_space,
                vp9.transfer_function,
                vp9.matrix_coefficients,
                vp9.full_range_flag,
            ],
            None => Seq::empty(),
        },
    )
}

/// Append the `vpcC` box to `out`.
fn write_vpcc(out: &mut Vec<u8>, config: &FragmentConfig)
    ensures
        final(out)@ == old(out)@ + vpcc_box(config.vp9_config),
{
    let mut o: Vec<u8> = Vec::new();
    if let Some(vp9_config) = &config.vp9_config {
        o.push(1);
        o.push(vp9_config.profile);
        o.push(vp9_config.level);
        o.push(vp9_config.bit_depth);
        o.push(vp9_config.color_space);
        o.push(vp9_config.transfer_function);
        o.push(vp9_config.matrix_coefficients);
        o.push(vp9_config.full_range_flag);
        assert(o@ =~= seq![
            1u8,
            vp9_config.profile,
            vp9_config.level,
            vp9_config.bit_depth,
            vp9_config.color_space,
            vp9_config.transfer_function,
            vp9_config.matrix_coefficients,
            vp9_config.full_range_flag,
        ]);
    }
    write_box(out, &VPCC, &o);
}

/// The `vp09` sample entry. It has no `colr` box: the `vpcC` box carries the
/// colour description.
pub open spec fn vp09_box(config: FragmentConfig) -> Seq<u8> {
    boxed(
        VP09@,
        visual_entry_header(config.width, config.height) + vpcc_box(config.vp9_config),
    )
}

/// Append the `vp09` sample entry to `out`.
fn write_vp09(out: &mut Vec<u8>, config: &FragmentConfig)
    ensures
        final(out)@ == old(out)@ + vp09_box(*config),
{
    broadcast use lemma_concat_empty;

    let mut o: Vec<u8> = Vec::new();
    write_visual_sample_entry_header(&mut o, config.width, config.height);
    write_vpcc(&mut o, config);
    write_box(out, &VP09, &o);
}

/// The sample entry of the codec.
pub open spec fn sample_entry(config: FragmentConfig) -> Seq<u8> {
    match config.codec {
        VideoCodec::H264 => avc1_box(config),
        VideoCodec::H265 => hvc1_box(config),
        VideoCodec::Av1 => av01_box(config),
        VideoCodec::Vp9 => vp09_box(config),
    }
}

/// The `stsd` box with the one sample entry.
pub open spec fn stsd_box(config: FragmentConfig) -> Seq<u8> {
    boxed(STSD@, be_bytes(0, 4) + be_bytes(1, 4) + sample_entry(config))
}

/// Append the `stsd` box to `out`.
fn write_stsd(out: &mut Vec<u8>, config: &FragmentConfig)
    ensures
        final(out)@ == old(out)@ + stsd_box(*config),
{
    broadcast use lemma_concat_empty;

    let mut o: Vec<u8> = Vec::new();
    put_u32(&mut o, 0);  // version + flags
    put_u32(&mut o, 1);  // entry count
    match config.codec {
        VideoCodec::H264 => write_avc1(&mut o, config),
        VideoCodec::H265 => write_hvc1(&mut o, config),
        VideoCodec::Av1 => write_av01(&mut o, config),
        VideoCodec::Vp9 => write_vp09(&mut o, config),
    }
    write_box(out, &STSD, &o);
}

/// The `stbl` box. All tables but the description are empty: the samples are
/// described by the fragments.
pub open spec fn stbl_box(config: FragmentConfig) -> Seq<u8> {
    boxed(
        STBL@,
        stsd_box(config) + boxed(STTS@, zeros(8)) + boxed(STSC@, zeros(8)) + boxed(STSZ@, zeros(12))
            + boxed(STCO@, zeros(8)),
    )
}

/// Append a box of `count` zero bytes to `out`.
fn write_zero_box(out: &mut Vec<u8>, kind: &[u8; 4], count: usize)
    ensures
        final(out)@ == old(out)@ + boxed(kind@, zeros(count as nat)),
{
    broadcast use lemma_concat_empty;

    let mut o: Vec<u8> = Vec::new();
    put_zeros(&mut o, count);
    write_box(out, kind, &o);
}

/// Append the `stbl` box to `out`.
fn write_stbl(out: &mut Vec<u8>, config: &FragmentConfig)
    ensures
        final(out)@ == old(out)@ + stbl_box(*config),
{
    broadcast use lemma_concat_empty;

    let mut o: Vec<u8> = Vec::new();
    write_stsd(&mut o, config);
    // Empty sample tables: actual data lives in moof/trun.
    write_zero_box(&mut o, &STTS, 8);
    write_zero_box(&mut o, &STSC, 8);
    write_zero_box(&mut o, &STSZ, 12);
    write_zero_box(&mut o, &STCO, 8);
    write_box(out, &STBL, &o);
}

/// The `minf` box.
pub open spec fn minf_box(config: FragmentConfig) -> Seq<u8> {
    boxed(MINF@, vmhd_box() + dinf_box() + stbl_box(config))
}

/// Append the `minf` box to `out`.
fn write_minf(out: &mut Vec<u8>, config: &FragmentConfig)
    ensures
        final(out)@ == old(out)@ + minf_box(*config),
{
    broadcast use lemma_concat_empty;

    let mut o: Vec<u8> = Vec::new();
    write_vmhd(&mut o);
    write_dinf(&mut o);
    write_stbl(&mut o, config);
    write_box(out, &MINF, &o);
}

/// The `mdia` box.
pub open spec fn mdia_box(config: FragmentConfig) -> Seq<u8> {
    boxed(MDIA@, mdhd_box(config.timescale) + hdlr_box() + minf_box(config))
}

/// Append the `mdia` box to `out`.
fn write_mdia(out: &mut Vec<u8>, config: &FragmentConfig)
    ensures
        final(out)@ == old(out)@ + mdia_box(*config),
{
    broadcast use lemma_concat_empty;

    let mut o: Vec<u8> = Vec::new();
    write_mdhd(&mut o, config.timescale);
    write_hdlr_video(&mut o);
    write_minf(&mut o, config);
    write_box(out, &MDIA, &o);
}

/// The `trak` box.
pub open spec fn trak_box(config: FragmentConfig) -> Seq<u8> {
    boxed(TRAK@, tkhd_box(config.width, config.height) + mdia_box(config))
}

/// Append the `trak` box to `out`.
fn write_trak(out: &mut Vec<u8>, config: &FragmentConfig)
    ensures
        final(out)@ == old(out)@ + trak_box(*config),
{
    broadcast use lemma_concat_empty;

    let mut o: Vec<u8> = Vec::new();
    write_tkhd(&mut o, config);
    write_mdia(&mut o, config);
    write_box(out, &TRAK, &o);
}

/// The `moov` box.
pub open spec fn moov_box(config: FragmentConfig) -> Seq<u8> {
    boxed(MOOV@, mvhd_box(config.timescale) + mvex_box() + trak_box(config))
}

/// Append the `moov` box to `out`.
pub(crate) fn write_moov(out: &mut Vec<u8>, config: &FragmentConfig)
    ensures
        final(out)@ == old(out)@ + moov_box(*config),
{
    broadcast use lemma_concat_empty;

    let mut o: Vec<u8> = Vec::new();
    write_mvhd(&mut o, config.timescale);
    write_mvex(&mut o);
    write_trak(&mut o, config);
    write_box(out, &MOOV, &o);
}

/// The init segment of a stream: `ftyp` and `moov`.
pub open spec fn init_bytes(config: FragmentConfig) -> Seq<u8> {
    ftyp_box() + moov_box(config)
}

} // verus!
