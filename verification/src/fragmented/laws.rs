//! What a reader of the stream can rely on.

use vstd::prelude::*;

use crate::api::VideoCodec;
use crate::boxes::{boxed, law_box_reads_back, read_box};
use crate::bytes::{
    be_bytes, lemma_be_bytes_len, lemma_concat_assoc, lemma_u16_at, lemma_u32_at, lemma_u64_at,
    u16_at, u64_at,
};
use crate::codec::common::{
    lemma_filters_agree, lemma_sample_nals_have_bytes, sample_nals, split_prefixed,
};
use crate::codec::h264::law_avcc_sample_reads_back;
use crate::codec::h265::laws::type_bits;
use crate::codec::h265::{declared_ptl, is_parameter_set, law_samples_hold_no_parameter_sets};
use crate::fourcc::{
    AVC1, AVCC, FTYP, HVC1, HVCC, ISO5, ISO6, MDAT, MFHD, MOOF, MOOV, MP41, TFDT, TFHD, TRAF, TRUN,
};
use crate::fragmented::init::{
    byte_or, ftyp_box, hvcc_array, init_bytes, moov_box, mvex_box, mvhd_box, optional_colr,
    profile_byte, sample_entry, sized_set, trak_box, visual_entry_header,
};
use crate::fragmented::media::{
    composition_offset, duration, fragment_bytes, lemma_moof_layout, lemma_trun_entry_at, media_bytes,
    mfhd_box, moof_box, moof_len, no_sizes, offset_fits, payload_sizes, sample_flags,
    sample_payload, tfdt_box, tfhd_box, traf_box, trun_box, trun_entries, trun_entry,
};
use crate::fragmented::{
    dts_drops_at, dts_first_drops_at, dts_non_decreasing, is_outcome, time_after, FragmentConfig,
    FragmentedError, SampleSpec,
};
use crate::text::digits;

pub use crate::bytes::u32_at;

verus! {

/// A four-character code.
pub open spec fn tag(a: char, b: char, c: char, d: char) -> Seq<u8> {
    seq![a as u8, b as u8, c as u8, d as u8]
}

/// An init segment is an `ftyp` box of 28 bytes and then a `moov` box that
/// ends it, as long as the size of the `moov` fits into its size field.
pub proof fn law_init_is_ftyp_and_moov(config: FragmentConfig)
    requires
        moov_box(config).len() < 0x1_0000_0000,
    ensures
        ftyp_box().len() == 28,
        u32_at(init_bytes(config), 0) == 28,
        init_bytes(config).subrange(4, 8) == tag('f', 't', 'y', 'p'),
        init_bytes(config).subrange(32, 36) == tag('m', 'o', 'o', 'v'),
        read_box(init_bytes(config)) matches Some((kind, _, rest)) && kind == FTYP@ && rest
            == moov_box(config),
        read_box(moov_box(config)) == Some(
            (
                MOOV@,
                mvhd_box(config.timescale) + mvex_box() + trak_box(config),
                Seq::<u8>::empty(),
            ),
        ),
{
    broadcast use lemma_be_bytes_len;

    let init = init_bytes(config);
    let brands = ISO5@ + be_bytes(0, 4) + ISO5@ + ISO6@ + MP41@;
    let body = mvhd_box(config.timescale) + mvex_box() + trak_box(config);
    law_box_reads_back(FTYP@, brands, moov_box(config));
    law_box_reads_back(MOOV@, body, Seq::empty());
    assert(moov_box(config) + Seq::<u8>::empty() =~= moov_box(config));
    assert(init.subrange(0, 4) =~= be_bytes(28, 4));
    lemma_u32_at(init, 0, 28);
    assert(init.subrange(4, 8) =~= tag('f', 't', 'y', 'p'));
    assert(init.subrange(32, 36) =~= tag('m', 'o', 'o', 'v'));
}

/// The type of the sample entry tells the codec.
pub proof fn law_sample_entry_tells_codec(config: FragmentConfig)
    ensures
        sample_entry(config).subrange(4, 8) == match config.codec {
            VideoCodec::H264 => tag('a', 'v', 'c', '1'),
            VideoCodec::H265 => tag('h', 'v', 'c', '1'),
            VideoCodec::Av1 => tag('a', 'v', '0', '1'),
            VideoCodec::Vp9 => tag('v', 'p', '0', '9'),
        },
{
    broadcast use lemma_be_bytes_len;

    let kind = match config.codec {
        VideoCodec::H264 => tag('a', 'v', 'c', '1'),
        VideoCodec::H265 => tag('h', 'v', 'c', '1'),
        VideoCodec::Av1 => tag('a', 'v', '0', '1'),
        VideoCodec::Vp9 => tag('v', 'p', '0', '9'),
    };
    assert(sample_entry(config).subrange(4, 8) =~= kind);
}

/// The parameter set that stands at `at` behind its length in two bytes.
pub open spec fn set_at(bytes: Seq<u8>, at: int) -> Seq<u8> {
    bytes.subrange(at + 2, at + 2 + u16_at(bytes, at))
}

/// A parameter set can be read back behind what precedes it.
proof fn lemma_set_at(front: Seq<u8>, set: Seq<u8>, back: Seq<u8>)
    requires
        set.len() < 0x1_0000,
    ensures
        set_at(front + sized_set(set) + back, front.len() as int) == set,
{
    broadcast use lemma_be_bytes_len;

    let bytes = front + sized_set(set) + back;
    let at = front.len() as int;
    assert(bytes.subrange(at, at + 2) =~= be_bytes(set.len(), 2));
    lemma_u16_at(bytes, at, set.len());
    assert(bytes.subrange(at + 2, at + 2 + set.len()) =~= set);
}

/// The fields that every visual sample entry starts with take 78 bytes.
proof fn lemma_visual_entry_header_len(width: u32, height: u32)
    ensures
        visual_entry_header(width, height).len() == 78,
{
    broadcast use lemma_be_bytes_len;

}

/// A parameter set in the configuration box of a sample entry can be read
/// back.
proof fn lemma_set_in_entry(
    kind: Seq<u8>,
    header: Seq<u8>,
    inner_kind: Seq<u8>,
    front: Seq<u8>,
    set: Seq<u8>,
    back: Seq<u8>,
    rest: Seq<u8>,
)
    requires
        kind.len() == 4,
        header.len() == 78,
        inner_kind.len() == 4,
        set.len() < 0x1_0000,
    ensures
        set_at(
            boxed(kind, header + boxed(inner_kind, front + sized_set(set) + back) + rest),
            94 + front.len() as int,
        ) == set,
{
    let inner = boxed(inner_kind, front + sized_set(set) + back);
    let entry = boxed(kind, header + inner + rest);
    let size = be_bytes(8 + (header + inner + rest).len(), 4);
    let inner_size = be_bytes(8 + (front + sized_set(set) + back).len(), 4);
    let before = size + kind + header + inner_size + inner_kind + front;
    lemma_be_bytes_len(8 + (header + inner + rest).len(), 4);
    lemma_be_bytes_len(8 + (front + sized_set(set) + back).len(), 4);
    assert(entry =~= before + sized_set(set) + (back + rest));
    lemma_set_at(before, set, back + rest);
}

/// The sample entry of an H.264 track carries the SPS and the PPS, as long as
/// their lengths fit into two bytes.
pub proof fn law_avc1_carries_parameter_sets(config: FragmentConfig)
    requires
        config.codec == VideoCodec::H264,
        config.sps@.len() < 0x1_0000,
        config.pps@.len() < 0x1_0000,
    ensures
        set_at(sample_entry(config), 100) == config.sps@,
        set_at(sample_entry(config), 103 + config.sps@.len() as int) == config.pps@,
{
    let sps = config.sps@;
    let pps = config.pps@;
    let header = visual_entry_header(config.width, config.height);
    let colr = optional_colr(config.color);
    let front = seq![1u8] + seq![byte_or(sps, 1, 0x42)] + seq![byte_or(sps, 2, 0x00)] + seq![
        byte_or(sps, 3, 0x1e),
    ] + seq![0xffu8] + seq![0xe1u8];
    let body = front + sized_set(sps) + seq![1u8] + sized_set(pps);
    lemma_visual_entry_header_len(config.width, config.height);
    lemma_be_bytes_len(sps.len(), 2);
    lemma_concat_assoc(front + sized_set(sps), seq![1u8], sized_set(pps));
    lemma_set_in_entry(AVC1@, header, AVCC@, front, sps, seq![1u8] + sized_set(pps), colr);
    assert(body =~= body + Seq::<u8>::empty());
    lemma_set_in_entry(
        AVC1@,
        header,
        AVCC@,
        front + sized_set(sps) + seq![1u8],
        pps,
        Seq::empty(),
        colr,
    );
}

/// The sample entry of an H.265 track carries the VPS where there is one, the
/// SPS and the PPS, as long as their lengths fit into two bytes.
pub proof fn law_hvc1_carries_parameter_sets(config: FragmentConfig)
    requires
        config.codec == VideoCodec::H265,
        config.sps@.len() < 0x1_0000,
        config.pps@.len() < 0x1_0000,
        config.vps matches Some(vps) ==> vps@.len() < 0x1_0000,
    ensures
        ({
            let entry = sample_entry(config);
            let sps_at = match config.vps {
                Some(vps) => 125 + vps@.len() as int,
                None => 120,
            };
            &&& config.vps matches Some(vps) ==> set_at(entry, 120) == vps@
            &&& set_at(entry, sps_at) == config.sps@
            &&& set_at(entry, sps_at + 5 + config.sps@.len()) == config.pps@
        }),
{
    let sps = config.sps@;
    let pps = config.pps@;
    let header = visual_entry_header(config.width, config.height);
    let colr = optional_colr(config.color);
    let ptl = declared_ptl(sps);
    let fixed = seq![1u8, profile_byte(ptl), 0x60, 0, 0, 0, 0x90, 0, 0, 0, 0, 0, ptl.level_idc, 0xf0, 0]
        + seq![0xfcu8, 0xfd, 0xf8, 0xf8, 0, 0, 0x03];
    let vps_arrays = match config.vps {
        Some(vps) => seq![3u8] + hvcc_array(0xa0, vps@),
        None => seq![2u8],
    };
    let sps_array = hvcc_array(0xa1, sps);
    let pps_array = hvcc_array(0xa2, pps);
    let body = fixed + vps_arrays + sps_array + pps_array;
    assert(sample_entry(config) == boxed(HVC1@, header + boxed(HVCC@, body) + colr));
    lemma_visual_entry_header_len(config.width, config.height);
    lemma_be_bytes_len(1, 2);
    lemma_be_bytes_len(sps.len(), 2);
    if let Some(vps) = config.vps {
        let front = fixed + seq![3u8] + (seq![0xa0u8] + be_bytes(1, 2));
        lemma_be_bytes_len(vps@.len(), 2);
        assert(body =~= front + sized_set(vps@) + (sps_array + pps_array));
        lemma_set_in_entry(HVC1@, header, HVCC@, front, vps@, sps_array + pps_array, colr);
    }
    let before_sps = fixed + vps_arrays + (seq![0xa1u8] + be_bytes(1, 2));
    assert(body =~= before_sps + sized_set(sps) + pps_array);
    lemma_set_in_entry(HVC1@, header, HVCC@, before_sps, sps, pps_array, colr);
    let before_pps = fixed + vps_arrays + sps_array + (seq![0xa2u8] + be_bytes(1, 2));
    assert(body =~= before_pps + sized_set(pps) + Seq::<u8>::empty());
    lemma_set_in_entry(HVC1@, header, HVCC@, before_pps, pps, Seq::empty(), colr);
}

/// A fragment is a `moof` box, whose size follows from the number of samples
/// alone, and then an `mdat` box that ends it, as long as both sizes fit into
/// their size fields.
pub proof fn law_fragment_is_moof_and_mdat(
    codec: VideoCodec,
    sequence_number: u32,
    base_media_decode_time: u64,
    samples: Seq<SampleSpec<'_>>,
)
    requires
        moof_len(samples.len()) < 0x1_0000_0000,
        8 + media_bytes(codec, samples, samples.len()).len() < 0x1_0000_0000,
    ensures
        ({
            let fragment = fragment_bytes(codec, sequence_number, base_media_decode_time, samples);
            let mdat = boxed(MDAT@, media_bytes(codec, samples, samples.len()));
            let at = 88 + 16 * samples.len() as int;
            &&& u32_at(fragment, 0) == at
            &&& fragment.subrange(4, 8) == tag('m', 'o', 'o', 'f')
            &&& fragment.subrange(at + 4, at + 8) == tag('m', 'd', 'a', 't')
            &&& read_box(fragment) matches Some((kind, _, rest)) && kind == MOOF@ && rest == mdat
            &&& read_box(mdat) == Some(
                (MDAT@, media_bytes(codec, samples, samples.len()), Seq::<u8>::empty()),
            )
        }),
{
    broadcast use lemma_be_bytes_len;

    let sizes = payload_sizes(codec, samples);
    let fragment = fragment_bytes(codec, sequence_number, base_media_decode_time, samples);
    let media = media_bytes(codec, samples, samples.len());
    let mdat = boxed(MDAT@, media);
    let moof = moof_box(sequence_number, base_media_decode_time, samples, sizes);
    let body = mfhd_box(sequence_number) + traf_box(base_media_decode_time, samples, sizes);
    let at = moof_len(samples.len()) as int;
    lemma_moof_layout(sequence_number, base_media_decode_time, samples, sizes);
    assert(moof == boxed(MOOF@, body));
    assert(8 + body.len() == at);
    law_box_reads_back(MOOF@, body, mdat);
    law_box_reads_back(MDAT@, media, Seq::empty());
    assert(mdat + Seq::<u8>::empty() =~= mdat);
    assert(fragment.subrange(0, 4) =~= be_bytes(at as nat, 4));
    lemma_u32_at(fragment, 0, at as nat);
    assert(fragment.subrange(4, 8) =~= tag('m', 'o', 'o', 'f'));
    assert(fragment.subrange(at + 4, at + 8) =~= tag('m', 'd', 'a', 't'));
}

/// The 88 bytes of a `moof` before the `trun` entries, and the header of the
/// `mdat` behind them, as boxes.
proof fn lemma_fragment_parts(
    codec: VideoCodec,
    sequence_number: u32,
    base_media_decode_time: u64,
    samples: Seq<SampleSpec<'_>>,
)
    ensures
        ({
            let fragment = fragment_bytes(codec, sequence_number, base_media_decode_time, samples);
            let sizes = payload_sizes(codec, samples);
            let n = samples.len();
            let end = 88 + 16 * n as int;
            let media = media_bytes(codec, samples, n);
            &&& fragment.len() == end + 8 + media.len()
            &&& fragment.take(8) == be_bytes(88 + 16 * n, 4) + MOOF@
            &&& fragment.subrange(8, 24) == mfhd_box(sequence_number)
            &&& fragment.subrange(24, 32) == be_bytes(64 + 16 * n, 4) + TRAF@
            &&& fragment.subrange(32, 48) == tfhd_box()
            &&& fragment.subrange(48, 68) == tfdt_box(base_media_decode_time)
            &&& fragment.subrange(68, 88) == be_bytes(20 + 16 * n, 4) + TRUN@ + be_bytes(
                0x0100_0f01,
                4,
            ) + be_bytes(n, 4) + be_bytes(96 + 16 * n, 4)
            &&& fragment.subrange(end, end + 8) == be_bytes(8 + media.len(), 4) + MDAT@
            &&& fragment.skip(end + 8) == media
        }),
{
    broadcast use lemma_be_bytes_len;

    let n = samples.len();
    let sizes = payload_sizes(codec, samples);
    let fragment = fragment_bytes(codec, sequence_number, base_media_decode_time, samples);
    let moof = moof_box(sequence_number, base_media_decode_time, samples, sizes);
    let mfhd = mfhd_box(sequence_number);
    let tfdt = tfdt_box(base_media_decode_time);
    let trun = trun_box(samples, sizes);
    let traf = traf_box(base_media_decode_time, samples, sizes);
    let media = media_bytes(codec, samples, n);
    let mdat = boxed(MDAT@, media);
    let end = 88 + 16 * n as int;
    lemma_moof_layout(sequence_number, base_media_decode_time, samples, sizes);
    assert(mfhd.len() == 16 && tfhd_box().len() == 16 && tfdt.len() == 20);
    assert(moof == boxed(MOOF@, mfhd + traf));
    assert(traf == boxed(TRAF@, tfhd_box() + tfdt + trun));
    assert(traf.len() == 64 + 16 * n);
    assert(trun.len() == 20 + 16 * n);
    assert(fragment.take(8) =~= be_bytes(88 + 16 * n, 4) + MOOF@);
    assert(fragment.subrange(8, 24) =~= mfhd);
    assert(fragment.subrange(24, end) =~= traf);
    assert(fragment.subrange(24, 32) =~= be_bytes(64 + 16 * n, 4) + TRAF@) by {
        assert(fragment.subrange(24, 32) =~= traf.take(8));
    }
    assert(fragment.subrange(32, 48) =~= tfhd_box()) by {
        assert(fragment.subrange(32, 48) =~= traf.subrange(8, 24));
    }
    assert(fragment.subrange(48, 68) =~= tfdt) by {
        assert(fragment.subrange(48, 68) =~= traf.subrange(24, 44));
    }
    let head = be_bytes(20 + 16 * n, 4) + TRUN@ + be_bytes(0x0100_0f01, 4) + be_bytes(n, 4)
        + be_bytes(96 + 16 * n, 4);
    assert(fragment.subrange(68, 88) =~= head) by {
        assert(fragment.subrange(68, 88) =~= traf.subrange(44, 64));
        assert(traf.subrange(44, 64) =~= trun.take(20));
        assert(trun.take(20) =~= head);
    }
    assert(fragment.skip(end) =~= mdat);
    assert(fragment.subrange(end, end + 8) =~= be_bytes(8 + media.len(), 4) + MDAT@);
    assert(fragment.skip(end + 8) =~= media);
}

/// The length of a fragment.
proof fn lemma_fragment_len(
    codec: VideoCodec,
    sequence_number: u32,
    base_media_decode_time: u64,
    samples: Seq<SampleSpec<'_>>,
)
    ensures
        fragment_bytes(codec, sequence_number, base_media_decode_time, samples).len() == 96 + 16
            * samples.len() + media_bytes(codec, samples, samples.len()).len(),
{
    lemma_fragment_parts(codec, sequence_number, base_media_decode_time, samples);
}

/// The number in a part of a sequence is the number in the sequence.
proof fn lemma_word_in_part(bytes: Seq<u8>, at: int, end: int, k: int, value: nat)
    requires
        0 <= at <= end <= bytes.len(),
        0 <= k,
        k + 4 <= end - at,
        bytes.subrange(at, end).subrange(k, k + 4) == be_bytes(value, 4),
    ensures
        u32_at(bytes, at + k) == value % 0x1_0000_0000,
{
    lemma_subrange_of_subrange(bytes, at, end, k, k + 4);
    lemma_u32_at(bytes, at + k, value);
}

/// The header of a fragment, number by number: the lengths, flags and fields
/// of its boxes, and the length of the `mdat`, which reaches to the end.
/// Lengths and counts keep 32 bits.
pub proof fn law_fragment_header(
    codec: VideoCodec,
    sequence_number: u32,
    base_media_decode_time: u64,
    samples: Seq<SampleSpec<'_>>,
)
    ensures
        ({
            let f = fragment_bytes(codec, sequence_number, base_media_decode_time, samples);
            let n = samples.len() as int;
            let end = 88 + 16 * n;
            &&& f.len() >= end + 8
            &&& u32_at(f, 0) == end % 0x1_0000_0000
            &&& u32_at(f, 8) == 16
            &&& u32_at(f, 16) == 0
            &&& u32_at(f, 20) == sequence_number
            &&& u32_at(f, 24) == (end - 24) % 0x1_0000_0000
            &&& u32_at(f, 32) == 16
            &&& u32_at(f, 40) == 0x0002_0000
            &&& u32_at(f, 44) == 1
            &&& u32_at(f, 48) == 20
            &&& u32_at(f, 56) == 0x0100_0000
            &&& u64_at(f, 60) == base_media_decode_time
            &&& u32_at(f, 68) == (end - 68) % 0x1_0000_0000
            &&& u32_at(f, 76) == 0x0100_0f01
            &&& u32_at(f, 80) == n % 0x1_0000_0000
            &&& u32_at(f, 84) == (end + 8) % 0x1_0000_0000
            &&& u32_at(f, end) == (f.len() - end) % 0x1_0000_0000
        }),
{
    broadcast use lemma_be_bytes_len;

    let f = fragment_bytes(codec, sequence_number, base_media_decode_time, samples);
    let n = samples.len();
    let end = 88 + 16 * n as int;
    let media = media_bytes(codec, samples, n);
    lemma_fragment_parts(codec, sequence_number, base_media_decode_time, samples);
    let mfhd = mfhd_box(sequence_number);
    let tfhd = tfhd_box();
    let tfdt = tfdt_box(base_media_decode_time);
    let trun = f.subrange(68, 88);
    let mdat = f.subrange(end, end + 8);
    assert(f.subrange(0, 8) =~= f.take(8));
    assert(f.subrange(0, 8).subrange(0, 4) =~= be_bytes(88 + 16 * n, 4));
    lemma_word_in_part(f, 0, 8, 0, 88 + 16 * n);
    assert(mfhd.subrange(0, 4) =~= be_bytes(16, 4));
    assert(mfhd.subrange(8, 12) =~= be_bytes(0, 4));
    assert(mfhd.subrange(12, 16) =~= be_bytes(sequence_number as nat, 4));
    lemma_word_in_part(f, 8, 24, 0, 16);
    lemma_word_in_part(f, 8, 24, 8, 0);
    lemma_word_in_part(f, 8, 24, 12, sequence_number as nat);
    assert(f.subrange(24, 32).subrange(0, 4) =~= be_bytes(64 + 16 * n, 4));
    lemma_word_in_part(f, 24, 32, 0, 64 + 16 * n);
    assert(tfhd.subrange(0, 4) =~= be_bytes(16, 4));
    assert(tfhd.subrange(8, 12) =~= be_bytes(0x0002_0000, 4));
    assert(tfhd.subrange(12, 16) =~= be_bytes(1, 4));
    lemma_word_in_part(f, 32, 48, 0, 16);
    lemma_word_in_part(f, 32, 48, 8, 0x0002_0000);
    lemma_word_in_part(f, 32, 48, 12, 1);
    assert(tfdt.subrange(0, 4) =~= be_bytes(20, 4));
    assert(tfdt.subrange(8, 12) =~= be_bytes(0x0100_0000, 4));
    assert(tfdt.subrange(12, 20) =~= be_bytes(base_media_decode_time as nat, 8));
    lemma_word_in_part(f, 48, 68, 0, 20);
    lemma_word_in_part(f, 48, 68, 8, 0x0100_0000);
    lemma_subrange_of_subrange(f, 48, 68, 12, 20);
    lemma_u64_at(f, 60, base_media_decode_time);
    assert(trun.subrange(0, 4) =~= be_bytes(20 + 16 * n, 4));
    assert(trun.subrange(8, 12) =~= be_bytes(0x0100_0f01, 4));
    assert(trun.subrange(12, 16) =~= be_bytes(n, 4));
    assert(trun.subrange(16, 20) =~= be_bytes(96 + 16 * n, 4));
    lemma_word_in_part(f, 68, 88, 0, 20 + 16 * n);
    lemma_word_in_part(f, 68, 88, 8, 0x0100_0f01);
    lemma_word_in_part(f, 68, 88, 12, n);
    lemma_word_in_part(f, 68, 88, 16, 96 + 16 * n);
    assert(mdat.subrange(0, 4) =~= be_bytes(8 + media.len(), 4));
    lemma_word_in_part(f, end, end + 8, 0, 8 + media.len());
}

/// The boxes of a fragment: `moof` with `mfhd` and `traf`, in which `tfhd`,
/// `tfdt` and `trun` follow each other, and then `mdat`.
pub proof fn law_fragment_boxes(
    codec: VideoCodec,
    sequence_number: u32,
    base_media_decode_time: u64,
    samples: Seq<SampleSpec<'_>>,
)
    ensures
        ({
            let f = fragment_bytes(codec, sequence_number, base_media_decode_time, samples);
            let end = 88 + 16 * samples.len() as int;
            &&& f.subrange(4, 8) == tag('m', 'o', 'o', 'f')
            &&& f.subrange(12, 16) == tag('m', 'f', 'h', 'd')
            &&& f.subrange(28, 32) == tag('t', 'r', 'a', 'f')
            &&& f.subrange(36, 40) == tag('t', 'f', 'h', 'd')
            &&& f.subrange(52, 56) == tag('t', 'f', 'd', 't')
            &&& f.subrange(72, 76) == tag('t', 'r', 'u', 'n')
            &&& f.subrange(end + 4, end + 8) == tag('m', 'd', 'a', 't')
        }),
{
    broadcast use lemma_be_bytes_len;

    let f = fragment_bytes(codec, sequence_number, base_media_decode_time, samples);
    let end = 88 + 16 * samples.len() as int;
    lemma_fragment_parts(codec, sequence_number, base_media_decode_time, samples);
    let mfhd = mfhd_box(sequence_number);
    let tfhd = tfhd_box();
    let tfdt = tfdt_box(base_media_decode_time);
    let trun = f.subrange(68, 88);
    let mdat = f.subrange(end, end + 8);
    assert(f.subrange(0, 8) =~= f.take(8));
    assert(f.subrange(4, 8) =~= tag('m', 'o', 'o', 'f')) by {
        lemma_subrange_of_subrange(f, 0, 8, 4, 8);
        assert(f.subrange(0, 8).subrange(4, 8) =~= MOOF@);
    }
    assert(f.subrange(12, 16) =~= tag('m', 'f', 'h', 'd')) by {
        lemma_subrange_of_subrange(f, 8, 24, 4, 8);
        assert(mfhd.subrange(4, 8) =~= MFHD@);
    }
    assert(f.subrange(28, 32) =~= tag('t', 'r', 'a', 'f')) by {
        lemma_subrange_of_subrange(f, 24, 32, 4, 8);
        assert(f.subrange(24, 32).subrange(4, 8) =~= TRAF@);
    }
    assert(f.subrange(36, 40) =~= tag('t', 'f', 'h', 'd')) by {
        lemma_subrange_of_subrange(f, 32, 48, 4, 8);
        assert(tfhd.subrange(4, 8) =~= TFHD@);
    }
    assert(f.subrange(52, 56) =~= tag('t', 'f', 'd', 't')) by {
        lemma_subrange_of_subrange(f, 48, 68, 4, 8);
        assert(tfdt.subrange(4, 8) =~= TFDT@);
    }
    assert(f.subrange(72, 76) =~= tag('t', 'r', 'u', 'n')) by {
        lemma_subrange_of_subrange(f, 68, 88, 4, 8);
        assert(trun.subrange(4, 8) =~= TRUN@);
    }
    assert(f.subrange(end + 4, end + 8) =~= tag('m', 'd', 'a', 't')) by {
        lemma_subrange_of_subrange(f, end, end + 8, 4, 8);
        assert(mdat.subrange(4, 8) =~= MDAT@);
    }
}

/// A fragment carries the sequence number and the decode time of the caller,
/// the number of samples, and the distance to its media data.
pub proof fn law_fragment_carries_its_numbers(
    codec: VideoCodec,
    sequence_number: u32,
    base_media_decode_time: u64,
    samples: Seq<SampleSpec<'_>>,
)
    requires
        88 + 16 * samples.len() + 8 < 0x1_0000_0000,
    ensures
        ({
            let fragment = fragment_bytes(codec, sequence_number, base_media_decode_time, samples);
            &&& u32_at(fragment, 20) == sequence_number
            &&& u64_at(fragment, 60) == base_media_decode_time
            &&& u32_at(fragment, 80) == samples.len()
            &&& u32_at(fragment, 84) == 88 + 16 * samples.len() + 8
        }),
{
    law_fragment_header(codec, sequence_number, base_media_decode_time, samples);
}

/// The size that the `trun` of a fragment gives sample `i`.
pub open spec fn listed_size(fragment: Seq<u8>, i: int) -> nat {
    u32_at(fragment, 88 + 16 * i + 4)
}

/// The sizes of the samples before sample `i`, taken together.
pub open spec fn listed_sizes_before(fragment: Seq<u8>, i: nat) -> nat
    decreases i,
{
    if i == 0 {
        0
    } else {
        listed_sizes_before(fragment, (i - 1) as nat) + listed_size(fragment, i - 1)
    }
}

/// Sample `i` of a fragment, found the way a reader finds it: the data offset
/// leads to the first sample, and the sizes lead on from there.
pub open spec fn read_sample(fragment: Seq<u8>, i: nat) -> Seq<u8> {
    let start = u32_at(fragment, 84) + listed_sizes_before(fragment, i);
    fragment.subrange(start as int, (start + listed_size(fragment, i as int)) as int)
}

/// The `trun` entry of sample `i` gives its duration, size, flags and
/// composition offset.
pub proof fn law_trun_lists_every_sample(
    codec: VideoCodec,
    sequence_number: u32,
    base_media_decode_time: u64,
    samples: Seq<SampleSpec<'_>>,
    i: int,
)
    requires
        0 <= i < samples.len(),
    ensures
        fragment_bytes(codec, sequence_number, base_media_decode_time, samples).subrange(
            88 + 16 * i,
            88 + 16 * i + 16,
        ) == trun_entry(samples, i, sample_payload(codec, samples[i].frame@).len()),
{
    let count = samples.len();
    let sizes = payload_sizes(codec, samples);
    let fragment = fragment_bytes(codec, sequence_number, base_media_decode_time, samples);
    let entries = trun_entries(samples, sizes, count);
    lemma_moof_layout(sequence_number, base_media_decode_time, samples, sizes);
    lemma_moof_layout(
        sequence_number,
        base_media_decode_time,
        samples,
        no_sizes(count),
    );
    lemma_trun_entry_at(samples, sizes, count, i);
    assert(fragment.subrange(88 + 16 * i, 88 + 16 * i + 16) =~= entries.subrange(
        16 * i,
        16 * i + 16,
    ));
}

/// The ticks from one DTS to a later one, and none to an earlier one, in 32
/// bits.
pub open spec fn ticks_between(from: u64, to: u64) -> int {
    if to >= from {
        (to - from) % 0x1_0000_0000
    } else {
        0
    }
}

/// The `trun` entry of sample `i`, field by field: the ticks to the next
/// sample, for the last sample those from the one before and for a single
/// sample 3000; its size; whether it is a sync sample; and the distance from
/// its DTS to its PTS in two's complement.
pub proof fn law_trun_fields(
    codec: VideoCodec,
    sequence_number: u32,
    base_media_decode_time: u64,
    samples: Seq<SampleSpec<'_>>,
    i: int,
)
    requires
        0 <= i < samples.len(),
    ensures
        ({
            let f = fragment_bytes(codec, sequence_number, base_media_decode_time, samples);
            let n = samples.len();
            let at = 88 + 16 * i;
            &&& u32_at(f, at) == if i + 1 < n {
                ticks_between(samples[i].dts, samples[i + 1].dts)
            } else if n > 1 {
                ticks_between(samples[i - 1].dts, samples[i].dts)
            } else {
                3000
            }
            &&& u32_at(f, at + 4) == sample_payload(codec, samples[i].frame@).len()
                % 0x1_0000_0000
            &&& u32_at(f, at + 8) == if samples[i].is_sync {
                0x0200_0000nat
            } else {
                0x0101_0000nat
            }
            &&& u32_at(f, at + 12) == (samples[i].pts - samples[i].dts) % 0x1_0000_0000
        }),
{
    broadcast use lemma_be_bytes_len;

    let f = fragment_bytes(codec, sequence_number, base_media_decode_time, samples);
    let size = sample_payload(codec, samples[i].frame@).len();
    let entry = trun_entry(samples, i, size);
    let at = 88 + 16 * i;
    law_trun_lists_every_sample(codec, sequence_number, base_media_decode_time, samples, i);
    lemma_fragment_parts(codec, sequence_number, base_media_decode_time, samples);
    assert(at + 16 <= f.len());
    assert(entry.subrange(0, 4) =~= be_bytes(duration(samples, i), 4));
    assert(entry.subrange(4, 8) =~= be_bytes(size, 4));
    assert(entry.subrange(8, 12) =~= be_bytes(sample_flags(samples[i].is_sync), 4));
    assert(entry.subrange(12, 16) =~= be_bytes(composition_offset(samples[i]), 4));
    lemma_word_in_part(f, at, at + 16, 0, duration(samples, i));
    lemma_word_in_part(f, at, at + 16, 4, size);
    lemma_word_in_part(f, at, at + 16, 8, sample_flags(samples[i].is_sync));
    lemma_word_in_part(f, at, at + 16, 12, composition_offset(samples[i]));
}

/// The media data of more samples is the longer.
proof fn lemma_media_grows(codec: VideoCodec, samples: Seq<SampleSpec<'_>>, less: nat, more: nat)
    requires
        less <= more,
    ensures
        media_bytes(codec, samples, less).len() <= media_bytes(codec, samples, more).len(),
        media_bytes(codec, samples, more).take(media_bytes(codec, samples, less).len() as int)
            == media_bytes(codec, samples, less),
    decreases more,
{
    let short = media_bytes(codec, samples, less);
    let long = media_bytes(codec, samples, more);
    if less == more {
        assert(long.take(short.len() as int) =~= short);
    } else {
        lemma_media_grows(codec, samples, less, (more - 1) as nat);
        let middle = media_bytes(codec, samples, (more - 1) as nat);
        assert(long.take(short.len() as int) =~= middle.take(short.len() as int));
    }
}

/// A part of a part is a part of the whole.
proof fn lemma_subrange_of_subrange(bytes: Seq<u8>, at: int, end: int, from: int, to: int)
    requires
        0 <= at <= end <= bytes.len(),
        0 <= from <= to <= end - at,
    ensures
        bytes.subrange(at, end).subrange(from, to) == bytes.subrange(at + from, at + to),
{
    assert(bytes.subrange(at, end).subrange(from, to) =~= bytes.subrange(at + from, at + to));
}

/// The listed size of sample `i` is its size.
proof fn lemma_listed_size(
    codec: VideoCodec,
    sequence_number: u32,
    base_media_decode_time: u64,
    samples: Seq<SampleSpec<'_>>,
    i: int,
)
    requires
        0 <= i < samples.len(),
        sample_payload(codec, samples[i].frame@).len() < 0x1_0000_0000,
    ensures
        listed_size(
            fragment_bytes(codec, sequence_number, base_media_decode_time, samples),
            i,
        ) == sample_payload(codec, samples[i].frame@).len(),
{
    law_trun_fields(codec, sequence_number, base_media_decode_time, samples, i);
}

/// The listed sizes add up to the media data of the samples before.
proof fn lemma_listed_sizes(
    codec: VideoCodec,
    sequence_number: u32,
    base_media_decode_time: u64,
    samples: Seq<SampleSpec<'_>>,
    i: nat,
)
    requires
        i <= samples.len(),
        media_bytes(codec, samples, samples.len()).len() < 0x1_0000_0000,
    ensures
        listed_sizes_before(
            fragment_bytes(codec, sequence_number, base_media_decode_time, samples),
            i,
        ) == media_bytes(codec, samples, i).len(),
    decreases i,
{
    if i > 0 {
        let before = (i - 1) as nat;
        lemma_listed_sizes(codec, sequence_number, base_media_decode_time, samples, before);
        lemma_media_grows(codec, samples, i, samples.len());
        lemma_listed_size(codec, sequence_number, base_media_decode_time, samples, i - 1);
    }
}

/// Every sample can be read back from the fragment: what the data offset and
/// the listed sizes lead to are the bytes of that sample, as long as the
/// fragment's numbers fit into their fields.
pub proof fn law_samples_read_back(
    codec: VideoCodec,
    sequence_number: u32,
    base_media_decode_time: u64,
    samples: Seq<SampleSpec<'_>>,
    i: nat,
)
    requires
        i < samples.len(),
        moof_len(samples.len()) + 8 < 0x1_0000_0000,
        media_bytes(codec, samples, samples.len()).len() < 0x1_0000_0000,
    ensures
        read_sample(
            fragment_bytes(codec, sequence_number, base_media_decode_time, samples),
            i,
        ) == sample_payload(codec, samples[i as int].frame@),
{
    broadcast use lemma_be_bytes_len;

    let fragment = fragment_bytes(codec, sequence_number, base_media_decode_time, samples);
    let sizes = payload_sizes(codec, samples);
    let media = media_bytes(codec, samples, samples.len());
    let payload = sample_payload(codec, samples[i as int].frame@);
    let start = media_bytes(codec, samples, i).len() as int;
    let end = start + payload.len();
    let offset = moof_len(samples.len()) as int + 8;
    law_fragment_carries_its_numbers(codec, sequence_number, base_media_decode_time, samples);
    lemma_listed_sizes(codec, sequence_number, base_media_decode_time, samples, i);
    lemma_media_grows(codec, samples, i + 1, samples.len());
    lemma_listed_size(codec, sequence_number, base_media_decode_time, samples, i as int);
    lemma_moof_layout(sequence_number, base_media_decode_time, samples, sizes);
    let upto = media_bytes(codec, samples, i + 1);
    assert(upto.subrange(start, end) =~= payload);
    assert(media.subrange(start, end) =~= media.take(upto.len() as int).subrange(start, end));
    assert(fragment.subrange(offset + start, offset + end) =~= media.subrange(start, end));
}

/// A frame can be recovered from the fragment it went into: an AV1 or VP9
/// frame as it is, of an H.264 frame its NAL units, and of an H.265 frame its
/// NAL units but for the parameter sets.
pub proof fn law_frames_read_back(
    codec: VideoCodec,
    sequence_number: u32,
    base_media_decode_time: u64,
    samples: Seq<SampleSpec<'_>>,
    i: nat,
)
    requires
        i < samples.len(),
        moof_len(samples.len()) + 8 < 0x1_0000_0000,
        media_bytes(codec, samples, samples.len()).len() < 0x1_0000_0000,
        samples[i as int].frame@.len() < 0x1_0000_0000,
    ensures
        ({
            let frame = samples[i as int].frame@;
            let sample = read_sample(
                fragment_bytes(codec, sequence_number, base_media_decode_time, samples),
                i,
            );
            match codec {
                VideoCodec::H264 => split_prefixed(sample) == Some(sample_nals(frame)),
                VideoCodec::H265 => split_prefixed(sample) == Some(
                    sample_nals(frame).filter(|nal: Seq<u8>| !(32 <= type_bits(nal) <= 34)),
                ),
                VideoCodec::Av1 => sample == frame,
                VideoCodec::Vp9 => sample == frame,
            }
        }),
{
    let frame = samples[i as int].frame@;
    law_samples_read_back(codec, sequence_number, base_media_decode_time, samples, i);
    law_avcc_sample_reads_back(frame);
    law_samples_hold_no_parameter_sets(frame);
    lemma_sample_nals_have_bytes(frame);
    lemma_filters_agree(
        sample_nals(frame),
        |nal: Seq<u8>| !is_parameter_set(nal),
        |nal: Seq<u8>| !(32 <= type_bits(nal) <= 34),
    );
}

/// The samples fill the media data: the data offset and all listed sizes
/// together lead to the end of the fragment.
pub proof fn law_samples_fill_the_fragment(
    codec: VideoCodec,
    sequence_number: u32,
    base_media_decode_time: u64,
    samples: Seq<SampleSpec<'_>>,
)
    requires
        88 + 16 * samples.len() + 8 < 0x1_0000_0000,
        media_bytes(codec, samples, samples.len()).len() < 0x1_0000_0000,
    ensures
        ({
            let f = fragment_bytes(codec, sequence_number, base_media_decode_time, samples);
            u32_at(f, 84) + listed_sizes_before(f, samples.len()) == f.len()
        }),
{
    law_fragment_carries_its_numbers(codec, sequence_number, base_media_decode_time, samples);
    lemma_fragment_len(codec, sequence_number, base_media_decode_time, samples);
    lemma_listed_sizes(codec, sequence_number, base_media_decode_time, samples, samples.len());
}

/// The durations that the `trun` gives the first `count` samples, taken
/// together.
pub open spec fn durations_before(samples: Seq<SampleSpec<'_>>, count: nat) -> nat
    decreases count,
{
    if count == 0 {
        0
    } else {
        durations_before(samples, (count - 1) as nat) + duration(samples, count - 1)
    }
}

/// Whether every gap between neighbours fits into a duration field.
pub open spec fn gaps_fit(samples: Seq<SampleSpec<'_>>) -> bool {
    forall|i: int|
        0 < i < samples.len() ==> (#[trigger] samples[i]).dts - samples[i - 1].dts < 0x1_0000_0000
}

/// A player that starts at the first DTS and adds up the durations is at the
/// DTS of each sample when it comes to that sample.
pub proof fn law_durations_lead_to_every_sample(samples: Seq<SampleSpec<'_>>, i: nat)
    requires
        i < samples.len(),
        dts_non_decreasing(samples),
        gaps_fit(samples),
    ensures
        samples[0].dts + durations_before(samples, i) == samples[i as int].dts,
    decreases i,
{
    if i > 0 {
        law_durations_lead_to_every_sample(samples, (i - 1) as nat);
        assert(!dts_drops_at(samples, i as int));
        assert(samples[i as int].dts - samples[i - 1].dts < 0x1_0000_0000);
    }
}

/// The next fragment continues the timeline: its decode time is where the
/// durations of this one end.
pub proof fn law_next_decode_time_continues_timeline(samples: Seq<SampleSpec<'_>>)
    requires
        samples.len() > 0,
        dts_non_decreasing(samples),
        gaps_fit(samples),
    ensures
        samples[0].dts + durations_before(samples, samples.len()) == time_after(samples),
{
    law_durations_lead_to_every_sample(samples, (samples.len() - 1) as nat);
}

/// The number that a 32-bit field holds in two's complement.
pub open spec fn signed_field(field: nat) -> int {
    if field < 0x8000_0000 {
        field as int
    } else {
        field - 0x1_0000_0000
    }
}

/// The composition offset of a sample reads back as the signed distance from
/// its DTS to its PTS, as long as that fits into 32 bits.
pub proof fn law_composition_offset_is_signed(sample: SampleSpec<'_>)
    requires
        -0x8000_0000 <= sample.pts - sample.dts < 0x8000_0000,
    ensures
        signed_field(composition_offset(sample)) == sample.pts - sample.dts,
{
}

/// The durations that a fragment lists for its first `count` samples, taken
/// together.
pub open spec fn listed_durations_before(fragment: Seq<u8>, count: nat) -> nat
    decreases count,
{
    if count == 0 {
        0
    } else {
        listed_durations_before(fragment, (count - 1) as nat) + u32_at(
            fragment,
            88 + 16 * (count - 1),
        )
    }
}

/// Whether no DTS is smaller than the one before or 2^32 ticks behind it.
pub open spec fn evenly_timed(samples: Seq<SampleSpec<'_>>) -> bool {
    forall|k: int|
        0 < k < samples.len() ==> 0 <= (#[trigger] samples[k]).dts - samples[k - 1].dts
            < 0x1_0000_0000
}

/// Durations that are the gaps between the samples lead to each of them.
proof fn lemma_gaps_add_up(bytes: Seq<u8>, samples: Seq<SampleSpec<'_>>, i: nat)
    requires
        i < samples.len(),
        forall|k: int|
            #![trigger samples[k]]
            0 <= k < i ==> u32_at(bytes, 88 + 16 * k) == samples[k + 1].dts - samples[k].dts,
    ensures
        samples[0].dts + listed_durations_before(bytes, i) == samples[i as int].dts,
    decreases i,
{
    if i > 0 {
        lemma_gaps_add_up(bytes, samples, (i - 1) as nat);
        assert(u32_at(bytes, 88 + 16 * (i - 1)) == samples[i as int].dts - samples[i - 1].dts);
    }
}

/// The durations that a fragment lists lead from the first DTS to that of each
/// sample.
pub proof fn law_listed_durations_lead_to_every_sample(
    codec: VideoCodec,
    sequence_number: u32,
    base_media_decode_time: u64,
    samples: Seq<SampleSpec<'_>>,
    i: nat,
)
    requires
        i < samples.len(),
        evenly_timed(samples),
    ensures
        samples[0].dts + listed_durations_before(
            fragment_bytes(codec, sequence_number, base_media_decode_time, samples),
            i,
        ) == samples[i as int].dts,
{
    let f = fragment_bytes(codec, sequence_number, base_media_decode_time, samples);
    assert forall|k: int|
        #![trigger samples[k]]
        0 <= k < i implies u32_at(f, 88 + 16 * k) == samples[k + 1].dts - samples[k].dts by {
        law_trun_fields(codec, sequence_number, base_media_decode_time, samples, k);
        assert(0 <= samples[k + 1].dts - samples[k].dts < 0x1_0000_0000);
    }
    lemma_gaps_add_up(f, samples, i);
}

/// The next decode time: behind a single sample its DTS and 3000 ticks, and
/// else the last DTS and once more the ticks from the DTS before it.
pub proof fn law_next_decode_time(samples: Seq<SampleSpec<'_>>)
    requires
        samples.len() > 0,
    ensures
        samples.len() == 1 ==> time_after(samples) == samples[0].dts + 3000,
        samples.len() > 1 ==> {
            let last = samples[samples.len() - 1].dts;
            let previous = samples[samples.len() - 2].dts;
            &&& time_after(samples) == last + ticks_between(previous, last)
            &&& 0 <= last - previous < 0x1_0000_0000 ==> time_after(samples) == 2 * last - previous
        },
{
}

/// The next decode time is where the durations end that the fragment lists.
pub proof fn law_next_decode_time_follows_fragment(
    codec: VideoCodec,
    sequence_number: u32,
    base_media_decode_time: u64,
    samples: Seq<SampleSpec<'_>>,
)
    requires
        samples.len() > 0,
        evenly_timed(samples),
    ensures
        time_after(samples) == samples[0].dts + listed_durations_before(
            fragment_bytes(codec, sequence_number, base_media_decode_time, samples),
            samples.len(),
        ),
{
    let last = (samples.len() - 1) as nat;
    law_listed_durations_lead_to_every_sample(
        codec,
        sequence_number,
        base_media_decode_time,
        samples,
        last,
    );
    law_trun_fields(codec, sequence_number, base_media_decode_time, samples, last as int);
    law_next_decode_time(samples);
}

/// A fragment is written if and only if no sample has a smaller DTS than the
/// one before it; equal ones are in order. The error names the first such
/// pair. What was in the buffer stays; behind it comes the fragment, and
/// nothing where there are no samples or there is an error.
pub proof fn law_outcome(
    config: FragmentConfig,
    before: Seq<u8>,
    after: Seq<u8>,
    sequence_number: u32,
    base_media_decode_time: u64,
    samples: Seq<SampleSpec<'_>>,
    result: Result<(), FragmentedError>,
)
    requires
        is_outcome(
            config,
            before,
            after,
            sequence_number,
            base_media_decode_time,
            samples,
            result,
        ),
    ensures
        result is Ok <==> forall|i: int|
            0 < i < samples.len() ==> samples[i - 1].dts <= (#[trigger] samples[i]).dts,
        result matches Err(FragmentedError::NonMonotonicDts { prev_dts, curr_dts })
            ==> exists|i: int|
            {
                &&& 0 < i < samples.len()
                &&& (#[trigger] samples[i]).dts == curr_dts
                &&& samples[i - 1].dts == prev_dts
                &&& curr_dts < prev_dts
                &&& forall|k: int|
                    0 < k < i ==> samples[k - 1].dts <= (#[trigger] samples[k]).dts
            },
        result is Err || samples.len() == 0 ==> after == before,
        result is Ok && samples.len() > 0 ==> {
            &&& before.len() <= after.len()
            &&& after.take(before.len() as int) == before
            &&& after.skip(before.len() as int) == fragment_bytes(
                config.codec,
                sequence_number,
                base_media_decode_time,
                samples,
            )
        },
{
    match result {
        Ok(()) => {
            assert forall|i: int| 0 < i < samples.len() implies samples[i - 1].dts
                <= (#[trigger] samples[i]).dts by {
                assert(!dts_drops_at(samples, i));
            }
            if samples.len() > 0 {
                let written = fragment_bytes(
                    config.codec,
                    sequence_number,
                    base_media_decode_time,
                    samples,
                );
                assert(after.take(before.len() as int) =~= before);
                assert(after.skip(before.len() as int) =~= written);
            }
        },
        Err(FragmentedError::NonMonotonicDts { prev_dts, curr_dts }) => {
            let i = choose|i: int|
                {
                    &&& #[trigger] dts_first_drops_at(samples, i)
                    &&& prev_dts == samples[i - 1].dts
                    &&& curr_dts == samples[i].dts
                };
            assert forall|k: int| 0 < k < i implies samples[k - 1].dts
                <= (#[trigger] samples[k]).dts by {
                assert(!dts_drops_at(samples, k));
            }
            assert(samples[i].dts == curr_dts);
        },
    }
}

/// Timestamps on the same side of 2^63 are never too far apart.
pub proof fn law_ordinary_offsets_fit(sample: SampleSpec<'_>)
    requires
        sample.pts < 0x8000_0000_0000_0000 <==> sample.dts < 0x8000_0000_0000_0000,
    ensures
        offset_fits(sample),
{
}

/// The error in words names both timestamps in decimal.
pub proof fn law_message_names_both(prev_dts: u64, curr_dts: u64)
    ensures
        (FragmentedError::NonMonotonicDts { prev_dts, curr_dts }).message_text()
            == "DTS values must be non-decreasing: prev="@ + digits(prev_dts as nat, 10)
            + ", curr="@ + digits(curr_dts as nat, 10),
{
}

} // verus!
