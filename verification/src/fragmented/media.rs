//! Media segments: the `moof` that describes samples and the `mdat` that
//! holds them.

use vstd::prelude::*;

use crate::api::VideoCodec;
use crate::boxes::boxed;
use crate::bytes::{
    be_bytes, lemma_be_bytes_len, lemma_be_bytes_low_bits, lemma_concat_assoc,
    lemma_overwrite_middle, low_u32, overwritten, patch_u32, put_bytes, put_u32, put_u64,
};
use crate::codec::h264::{annexb_to_avcc_into, avcc_sample};
use crate::codec::h265::{hevc_annexb_to_hvcc_into, hvcc_sample};
use crate::fourcc::{MDAT, MFHD, MOOF, TFDT, TFHD, TRAF, TRUN};
use crate::fragmented::SampleSpec;

verus! {

const MFHD_SIZE: usize = 16;

const TFHD_SIZE: usize = 16;

const TFDT_SIZE: usize = 20;

const TRUN_HEADER_SIZE: usize = 20;

const TRUN_PER_SAMPLE: usize = 16;

const TRAF_HEADER_SIZE: usize = 8;

const MOOF_HEADER_SIZE: usize = 8;

/// Length of the `moof` that describes `count` samples.
pub open spec fn moof_len(count: nat) -> nat {
    88 + 16 * count
}

/// The bytes of a sample in the `mdat`.
pub open spec fn sample_payload(codec: VideoCodec, frame: Seq<u8>) -> Seq<u8> {
    match codec {
        VideoCodec::H264 => avcc_sample(frame),
        VideoCodec::H265 => hvcc_sample(frame),
        VideoCodec::Av1 => frame,
        VideoCodec::Vp9 => frame,
    }
}

/// Time from `earlier` to `later`, and zero where it would be negative.
pub open spec fn gap(earlier: u64, later: u64) -> nat {
    if later > earlier {
        (later - earlier) as nat
    } else {
        0
    }
}

/// Duration that the `trun` gives sample `i`: the gap to the next sample, for
/// the last one the gap before it, and 3000 ticks for a sample on its own.
/// Durations are kept modulo 2^32.
pub open spec fn duration(samples: Seq<SampleSpec<'_>>, i: int) -> nat {
    if i + 1 < samples.len() {
        gap(samples[i].dts, samples[i + 1].dts) % 0x1_0000_0000
    } else if i > 0 {
        gap(samples[i - 1].dts, samples[i].dts) % 0x1_0000_0000
    } else {
        3000
    }
}

/// Sample flags: whether other samples are needed to decode this one.
pub open spec fn sample_flags(is_sync: bool) -> nat {
    if is_sync {
        0x0200_0000
    } else {
        0x0101_0000
    }
}

/// A timestamp read as a signed 64-bit number.
pub open spec fn signed(timestamp: u64) -> int {
    if timestamp < 0x8000_0000_0000_0000 {
        timestamp as int
    } else {
        timestamp - 0x1_0000_0000_0000_0000
    }
}

/// Whether the distance of the two timestamps, read as signed numbers, is a
/// signed 64-bit number.
pub open spec fn offset_fits(sample: SampleSpec<'_>) -> bool {
    i64::MIN <= signed(sample.pts) - signed(sample.dts) <= i64::MAX
}

/// Composition time offset of a sample, as a 32-bit two's complement number.
pub open spec fn composition_offset(sample: SampleSpec<'_>) -> nat {
    ((sample.pts - sample.dts) % 0x1_0000_0000) as nat
}

/// The `trun` entry of sample `i`, of which `size` bytes stand in the `mdat`.
pub open spec fn trun_entry(samples: Seq<SampleSpec<'_>>, i: int, size: nat) -> Seq<u8> {
    be_bytes(duration(samples, i), 4) + be_bytes(size, 4) + be_bytes(
        sample_flags(samples[i].is_sync),
        4,
    ) + be_bytes(composition_offset(samples[i]), 4)
}

/// The `trun` entries of the first `count` samples.
pub open spec fn trun_entries(samples: Seq<SampleSpec<'_>>, sizes: Seq<nat>, count: nat) -> Seq<u8>
    decreases count,
{
    if count == 0 {
        Seq::empty()
    } else {
        trun_entries(samples, sizes, (count - 1) as nat) + trun_entry(
            samples,
            count - 1,
            sizes[count - 1],
        )
    }
}

/// The `mfhd` box of fragment `sequence_number`.
pub open spec fn mfhd_box(sequence_number: u32) -> Seq<u8> {
    boxed(MFHD@, be_bytes(0, 4) + be_bytes(sequence_number as nat, 4))
}

/// The `tfhd` box: track 1, offsets counted from the `moof`.
pub open spec fn tfhd_box() -> Seq<u8> {
    boxed(TFHD@, be_bytes(0x0002_0000, 4) + be_bytes(1, 4))
}

/// The `tfdt` box: version 1, for a decode time of 64 bits.
pub open spec fn tfdt_box(base_media_decode_time: u64) -> Seq<u8> {
    boxed(TFDT@, be_bytes(0x0100_0000, 4) + be_bytes(base_media_decode_time as nat, 8))
}

/// The `trun` box: version 1, for signed composition offsets, with the data
/// offset and with duration, size, flags and composition offset per sample.
/// The data offset reaches past the `moof` and the header of the `mdat`.
pub open spec fn trun_box(samples: Seq<SampleSpec<'_>>, sizes: Seq<nat>) -> Seq<u8> {
    boxed(
        TRUN@,
        be_bytes(0x0100_0f01, 4) + be_bytes(samples.len(), 4) + be_bytes(
            moof_len(samples.len()) + 8,
            4,
        ) + trun_entries(samples, sizes, samples.len()),
    )
}

/// The `traf` box of the one track.
pub open spec fn traf_box(
    base_media_decode_time: u64,
    samples: Seq<SampleSpec<'_>>,
    sizes: Seq<nat>,
) -> Seq<u8> {
    boxed(TRAF@, tfhd_box() + tfdt_box(base_media_decode_time) + trun_box(samples, sizes))
}

/// The `moof` box of a fragment whose samples take up `sizes` bytes.
pub open spec fn moof_box(
    sequence_number: u32,
    base_media_decode_time: u64,
    samples: Seq<SampleSpec<'_>>,
    sizes: Seq<nat>,
) -> Seq<u8> {
    boxed(
        MOOF@,
        mfhd_box(sequence_number) + traf_box(base_media_decode_time, samples, sizes),
    )
}

/// Size of the moof that describes `sample_count` samples.
pub fn moof_size_for(sample_count: usize) -> (size: usize)
    requires
        moof_len(sample_count as nat) <= usize::MAX,
    ensures
        size == moof_len(sample_count as nat),
{
    MOOF_HEADER_SIZE + MFHD_SIZE + TRAF_HEADER_SIZE + TFHD_SIZE + TFDT_SIZE + TRUN_HEADER_SIZE
        + TRUN_PER_SAMPLE * sample_count
}

/// Byte offset of the first per-sample trun entry within a moof.
fn trun_samples_offset_in_moof() -> (offset: usize)
    ensures
        offset == 88,
{
    MOOF_HEADER_SIZE + MFHD_SIZE + TRAF_HEADER_SIZE + TFHD_SIZE + TFDT_SIZE + TRUN_HEADER_SIZE
}

/// Per-sample duration in trun: gap to next sample, or for the last sample
/// mirror the previous gap. Single-sample fragments fall back to 3000 ticks.
pub(crate) fn sample_duration(samples: &[SampleSpec<'_>], i: usize) -> (ticks: u32)
    requires
        i < samples@.len() || i == 0,
    ensures
        ticks == duration(samples@, i as int),
{
    if i < samples.len() && samples.len() - i > 1 {
        low_gap(samples[i].dts, samples[i + 1].dts)
    } else if i > 0 {
        low_gap(samples[i - 1].dts, samples[i].dts)
    } else {
        3000
    }
}

/// The low 32 bits of the time from `earlier` to `later`.
fn low_gap(earlier: u64, later: u64) -> (ticks: u32)
    ensures
        ticks == gap(earlier, later) % 0x1_0000_0000,
{
    let ticks: u64 = later.saturating_sub(earlier);
    assert(ticks as u32 == ticks % 0x1_0000_0000) by (bit_vector);
    ticks as u32
}

/// The composition time offset of a sample, for the `trun`.
fn offset_field(sample: &SampleSpec<'_>) -> (field: u32)
    requires
        offset_fits(*sample),
    ensures
        field == composition_offset(*sample),
{
    let pts: u64 = sample.pts;
    let dts: u64 = sample.dts;
    proof {
        assert(pts as i64 == if pts < 0x8000_0000_0000_0000 {
            pts as int
        } else {
            pts - 0x1_0000_0000_0000_0000
        }) by (bit_vector);
        assert(dts as i64 == if dts < 0x8000_0000_0000_0000 {
            dts as int
        } else {
            dts - 0x1_0000_0000_0000_0000
        }) by (bit_vector);
    }
    let offset: i64 = pts as i64 - dts as i64;
    proof {
        let wide = offset as u64;
        assert(wide == if offset >= 0 {
            offset as int
        } else {
            offset + 0x1_0000_0000_0000_0000
        }) by (bit_vector)
            requires
                wide == offset as u64,
        ;
        assert((offset as i32) as u32 == wide % 0x1_0000_0000) by (bit_vector)
            requires
                wide == offset as u64,
        ;
    }
    (offset as i32) as u32
}

/// The size of a box with `header` bytes and one `trun` entry per sample, for
/// its size field.
fn run_size_field(header: u32, count: usize) -> (size: u32)
    ensures
        be_bytes(size as nat, 4) == be_bytes((header + 16 * count) as nat, 4),
{
    let low: u32 = low_u32(count);
    let wide: u64 = 16 * low as u64 + header as u64;
    let size: u32 = (wide % 0x1_0000_0000) as u32;
    proof {
        lemma_low_bits_of_sum(header as nat, count as nat);
        lemma_be_bytes_low_bits((header + 16 * count) as nat);
    }
    size
}

/// The low 32 bits of a sum depend on the low 32 bits of its parts alone.
proof fn lemma_low_bits_of_sum(header: nat, count: nat)
    ensures
        (header + 16 * count) % 0x1_0000_0000 == (header + 16 * (count % 0x1_0000_0000))
            % 0x1_0000_0000,
{
    let low = count % 0x1_0000_0000;
    let carry = count / 0x1_0000_0000;
    assert(header + 16 * count == 0x1_0000_0000 * (16 * carry) + (header + 16 * low));
    vstd::arithmetic::div_mod::lemma_mod_multiples_vanish(
        16 * carry as int,
        (header + 16 * low) as int,
        0x1_0000_0000,
    );
}

/// Sizes of samples that are not written yet.
pub open spec fn no_sizes(count: nat) -> Seq<nat> {
    Seq::new(count, |i: int| 0nat)
}

/// A `trun` entry takes 16 bytes.
proof fn lemma_trun_entries_len(samples: Seq<SampleSpec<'_>>, sizes: Seq<nat>, count: nat)
    ensures
        trun_entries(samples, sizes, count).len() == 16 * count,
    decreases count,
{
    broadcast use lemma_be_bytes_len;

    if count > 0 {
        lemma_trun_entries_len(samples, sizes, (count - 1) as nat);
    }
}

/// Append the `trun` to `out`, with all sample sizes zero.
fn write_trun_skeleton(out: &mut Vec<u8>, samples: &[SampleSpec<'_>])
    requires
        forall|i: int| 0 <= i < samples@.len() ==> offset_fits(#[trigger] samples@[i]),
    ensures
        final(out)@ == old(out)@ + trun_box(samples@, no_sizes(samples@.len())),
{
    broadcast use {lemma_be_bytes_len, lemma_concat_assoc};

    let ghost sizes = no_sizes(samples@.len());
    let count: usize = samples.len();
    put_u32(out, run_size_field(20, count));
    put_bytes(out, &TRUN);
    // Flags:
    //  0x000001 data-offset-present
    //  0x000100 sample-duration-present
    //  0x000200 sample-size-present
    //  0x000400 sample-flags-present
    //  0x000800 sample-composition-time-offset-present
    // Version 1 for signed composition time offsets.
    put_u32(out, 0x0100_0f01);
    put_u32(out, low_u32(count));
    put_u32(out, run_size_field(96, count));
    let ghost head = out@;
    // Per-sample: duration, size (left zero, patched after conversion), flags, cts.
    let mut i: usize = 0;
    assert(out@ =~= head + trun_entries(samples@, sizes, 0));
    while i < count
        invariant
            i <= count == samples@.len(),
            sizes == no_sizes(samples@.len()),
            forall|k: int| 0 <= k < samples@.len() ==> offset_fits(#[trigger] samples@[k]),
            out@ == head + trun_entries(samples@, sizes, i as nat),
        decreases count - i,
    {
        broadcast use lemma_concat_assoc;

        put_u32(out, sample_duration(samples, i));
        put_u32(out, 0);
        put_u32(
            out,
            if samples[i].is_sync {
                0x0200_0000
            } else {
                0x0101_0000
            },
        );
        put_u32(out, offset_field(&samples[i]));
        assert(out@ == head + (trun_entries(samples@, sizes, i as nat) + trun_entry(
            samples@,
            i as int,
            sizes[i as int],
        )));
        i += 1;
    }
    proof {
        lemma_trun_entries_len(samples@, sizes, samples@.len());
        assert(out@ == old(out)@ + trun_box(samples@, sizes));
    }
}

/// Write the moof in full except for per-sample sizes, which are patched
/// into the trun region as samples are appended to mdat.
fn write_moof_skeleton(
    out: &mut Vec<u8>,
    sequence_number: u32,
    base_media_decode_time: u64,
    samples: &[SampleSpec<'_>],
)
    requires
        forall|i: int| 0 <= i < samples@.len() ==> offset_fits(#[trigger] samples@[i]),
    ensures
        final(out)@ == old(out)@ + moof_box(
            sequence_number,
            base_media_decode_time,
            samples@,
            no_sizes(samples@.len()),
        ),
{
    broadcast use {lemma_be_bytes_len, lemma_concat_assoc};

    let ghost sizes = no_sizes(samples@.len());
    let count: usize = samples.len();
    proof {
        lemma_trun_entries_len(samples@, sizes, samples@.len());
        assert(trun_box(samples@, sizes).len() == 20 + 16 * count);
        assert(tfdt_box(base_media_decode_time).len() == 20);
        assert(tfhd_box().len() == 16);
        assert(mfhd_box(sequence_number).len() == 16);
    }
    put_u32(out, run_size_field(88, count));
    put_bytes(out, &MOOF);

    // mfhd
    put_u32(out, 16);
    put_bytes(out, &MFHD);
    put_u32(out, 0);  // version + flags
    put_u32(out, sequence_number);
    let ghost head = out@;
    assert(head == old(out)@ + (be_bytes((88 + 16 * count) as nat, 4) + MOOF@ + mfhd_box(
        sequence_number,
    )));

    // traf
    put_u32(out, run_size_field(64, count));
    put_bytes(out, &TRAF);

    // tfhd
    put_u32(out, 16);
    put_bytes(out, &TFHD);
    put_u32(out, 0x0002_0000);  // default-base-is-moof
    put_u32(out, 1);  // track ID

    // tfdt
    put_u32(out, 20);
    put_bytes(out, &TFDT);
    put_u32(out, 0x0100_0000);  // version 1 for 64-bit decode time
    put_u64(out, base_media_decode_time);
    assert(out@ == head + (be_bytes((64 + 16 * count) as nat, 4) + TRAF@ + (tfhd_box() + tfdt_box(
        base_media_decode_time,
    ))));

    write_trun_skeleton(out, samples);
    assert(out@ == head + traf_box(base_media_decode_time, samples@, sizes));
}

/// The samples of the `mdat`, one after the other, up to the first `count`.
pub open spec fn media_bytes(
    codec: VideoCodec,
    samples: Seq<SampleSpec<'_>>,
    count: nat,
) -> Seq<u8>
    decreases count,
{
    if count == 0 {
        Seq::empty()
    } else {
        media_bytes(codec, samples, (count - 1) as nat) + sample_payload(
            codec,
            samples[count - 1].frame@,
        )
    }
}

/// How many bytes each sample takes up in the `mdat`.
pub open spec fn payload_sizes(codec: VideoCodec, samples: Seq<SampleSpec<'_>>) -> Seq<nat> {
    Seq::new(samples.len(), |i: int| sample_payload(codec, samples[i].frame@).len())
}

/// The media fragment of `samples`: `moof` and `mdat`.
pub open spec fn fragment_bytes(
    codec: VideoCodec,
    sequence_number: u32,
    base_media_decode_time: u64,
    samples: Seq<SampleSpec<'_>>,
) -> Seq<u8> {
    moof_box(
        sequence_number,
        base_media_decode_time,
        samples,
        payload_sizes(codec, samples),
    ) + boxed(MDAT@, media_bytes(codec, samples, samples.len()))
}

/// Entry `i` of a `trun` stands at byte `16 * i`.
pub proof fn lemma_trun_entry_at(
    samples: Seq<SampleSpec<'_>>,
    sizes: Seq<nat>,
    count: nat,
    i: int,
)
    requires
        0 <= i < count,
    ensures
        trun_entries(samples, sizes, count).len() == 16 * count,
        trun_entry(samples, i, sizes[i]).len() == 16,
        trun_entries(samples, sizes, count).subrange(16 * i, 16 * i + 16) == trun_entry(
            samples,
            i,
            sizes[i],
        ),
    decreases count,
{
    broadcast use lemma_be_bytes_len;

    let entries = trun_entries(samples, sizes, count);
    let shorter = trun_entries(samples, sizes, (count - 1) as nat);
    lemma_trun_entries_len(samples, sizes, count);
    lemma_trun_entries_len(samples, sizes, (count - 1) as nat);
    if i == count - 1 {
        assert(entries.subrange(16 * i, 16 * i + 16) =~= trun_entry(samples, i, sizes[i]));
    } else {
        lemma_trun_entry_at(samples, sizes, (count - 1) as nat, i);
        assert(entries.subrange(16 * i, 16 * i + 16) =~= shorter.subrange(16 * i, 16 * i + 16));
    }
}

/// Overwriting the size of one entry changes that entry and nothing else.
proof fn lemma_patch_entry(
    samples: Seq<SampleSpec<'_>>,
    sizes: Seq<nat>,
    i: int,
    size: nat,
)
    requires
        sizes.len() == samples.len(),
        0 <= i < samples.len(),
    ensures
        overwritten(
            trun_entries(samples, sizes, samples.len()),
            16 * i + 4,
            be_bytes(size, 4),
        ) == trun_entries(samples, sizes.update(i, size), samples.len()),
{
    broadcast use lemma_be_bytes_len;

    let count = samples.len();
    let before = trun_entries(samples, sizes, count);
    let after = trun_entries(samples, sizes.update(i, size), count);
    lemma_trun_entries_len(samples, sizes, count);
    lemma_trun_entries_len(samples, sizes.update(i, size), count);
    let patched = overwritten(before, 16 * i + 4, be_bytes(size, 4));
    assert(patched.len() == after.len());
    assert forall|j: int| 0 <= j < after.len() implies patched[j] == after[j] by {
        let k = j / 16;
        let r = j % 16;
        lemma_trun_entry_at(samples, sizes, count, k);
        lemma_trun_entry_at(samples, sizes.update(i, size), count, k);
        assert(before.subrange(16 * k, 16 * k + 16)[r] == before[j]);
        assert(after.subrange(16 * k, 16 * k + 16)[r] == after[j]);
        if k == i {
            if 4 <= r < 8 {
                assert(trun_entry(samples, k, size)[r] == be_bytes(size, 4)[r - 4]);
                assert(patched[j] == be_bytes(size, 4)[r - 4]);
            } else {
                assert(trun_entry(samples, k, size)[r] == trun_entry(samples, k, sizes[k])[r]);
                assert(patched[j] == before[j]);
            }
        } else {
            assert(patched[j] == before[j]);
        }
    }
    assert(patched =~= after);
}

/// The `trun` entries end the `moof`; the 88 bytes before them do not depend
/// on the sample sizes.
pub proof fn lemma_moof_layout(
    sequence_number: u32,
    base_media_decode_time: u64,
    samples: Seq<SampleSpec<'_>>,
    sizes: Seq<nat>,
)
    ensures
        moof_box(sequence_number, base_media_decode_time, samples, sizes).len() == moof_len(
            samples.len(),
        ),
        moof_box(sequence_number, base_media_decode_time, samples, sizes) == moof_box(
            sequence_number,
            base_media_decode_time,
            samples,
            no_sizes(samples.len()),
        ).take(88) + trun_entries(samples, sizes, samples.len()),
{
    broadcast use {lemma_be_bytes_len, lemma_concat_assoc};

    let count = samples.len();
    let none = no_sizes(count);
    let entries = trun_entries(samples, sizes, count);
    let blank = trun_entries(samples, none, count);
    lemma_trun_entries_len(samples, sizes, count);
    lemma_trun_entries_len(samples, none, count);
    let trun_head = be_bytes(20 + 16 * count, 4) + TRUN@ + (be_bytes(0x0100_0f01, 4) + be_bytes(
        count,
        4,
    ) + be_bytes(moof_len(count) + 8, 4));
    assert(trun_box(samples, sizes) == trun_head + entries);
    assert(trun_box(samples, none) == trun_head + blank);
    let traf_head = be_bytes(64 + 16 * count, 4) + TRAF@ + (tfhd_box() + tfdt_box(
        base_media_decode_time,
    )) + trun_head;
    assert(traf_box(base_media_decode_time, samples, sizes) == traf_head + entries);
    assert(traf_box(base_media_decode_time, samples, none) == traf_head + blank);
    let head = be_bytes(88 + 16 * count, 4) + MOOF@ + mfhd_box(sequence_number) + traf_head;
    assert(moof_box(sequence_number, base_media_decode_time, samples, sizes) == head + entries);
    assert(moof_box(sequence_number, base_media_decode_time, samples, none) == head + blank);
    assert(head.len() == 88);
    assert((head + blank).take(88) =~= head);
}

/// The sizes of the first `count` samples; the others are not written yet.
spec fn sizes_so_far(codec: VideoCodec, samples: Seq<SampleSpec<'_>>, count: int) -> Seq<nat> {
    Seq::new(
        samples.len(),
        |i: int|
            if i < count {
                sample_payload(codec, samples[i].frame@).len()
            } else {
                0
            },
    )
}

/// Overwriting the size of one sample inside a buffer that holds the `moof`.
proof fn lemma_patch_moof(
    before: Seq<u8>,
    sequence_number: u32,
    base_media_decode_time: u64,
    samples: Seq<SampleSpec<'_>>,
    sizes: Seq<nat>,
    after: Seq<u8>,
    i: int,
    size: nat,
)
    requires
        sizes.len() == samples.len(),
        0 <= i < samples.len(),
    ensures
        overwritten(
            before + moof_box(sequence_number, base_media_decode_time, samples, sizes) + after,
            before.len() + 88 + 16 * i + 4,
            be_bytes(size, 4),
        ) == before + moof_box(
            sequence_number,
            base_media_decode_time,
            samples,
            sizes.update(i, size),
        ) + after,
{
    broadcast use lemma_be_bytes_len;

    let count = samples.len();
    let old_moof = moof_box(sequence_number, base_media_decode_time, samples, sizes);
    let new_moof = moof_box(sequence_number, base_media_decode_time, samples, sizes.update(i, size));
    let head = moof_box(
        sequence_number,
        base_media_decode_time,
        samples,
        no_sizes(count),
    ).take(88);
    let entries = trun_entries(samples, sizes, count);
    let field = be_bytes(size, 4);
    lemma_moof_layout(sequence_number, base_media_decode_time, samples, no_sizes(count));
    lemma_moof_layout(sequence_number, base_media_decode_time, samples, sizes);
    lemma_moof_layout(sequence_number, base_media_decode_time, samples, sizes.update(i, size));
    lemma_trun_entries_len(samples, sizes, count);
    lemma_patch_entry(samples, sizes, i, size);
    assert(head + entries + Seq::<u8>::empty() =~= old_moof);
    lemma_overwrite_middle(head, entries, Seq::empty(), 16 * i + 4, field);
    assert(overwritten(old_moof, 88 + 16 * i + 4, field) =~= new_moof);
    lemma_overwrite_middle(before, old_moof, after, 88 + 16 * i + 4, field);
}

/// Append the bytes of one sample to `out`.
fn convert_into(codec: VideoCodec, frame: &[u8], out: &mut Vec<u8>)
    ensures
        final(out)@ == old(out)@ + sample_payload(codec, frame@),
{
    match codec {
        VideoCodec::H264 => annexb_to_avcc_into(frame, out),
        VideoCodec::H265 => hevc_annexb_to_hvcc_into(frame, out),
        VideoCodec::Av1 | VideoCodec::Vp9 => put_bytes(out, frame),
    }
}

/// Bytes in the first `count` frames.
pub open spec fn frames_len(samples: Seq<SampleSpec<'_>>, count: nat) -> nat
    decreases count,
{
    if count == 0 {
        0
    } else {
        frames_len(samples, (count - 1) as nat) + samples[count - 1].frame@.len()
    }
}

/// Room to reserve for a fragment: `moof`, `mdat` header, the frames and one
/// length prefix per sample, as far as a `usize` can tell.
fn fragment_room(samples: &[SampleSpec<'_>]) -> (room: usize)
    ensures
        room == vstd::math::min(
            96 + 20 * samples@.len() as int + frames_len(samples@, samples@.len()),
            usize::MAX as int,
        ),
{
    let mut room: usize = 96;
    let mut i: usize = 0;
    while i < samples.len()
        invariant
            i <= samples@.len(),
            room == vstd::math::min(96 + 20 * i + frames_len(samples@, i as nat), usize::MAX as int),
        decreases samples@.len() - i,
    {
        room = room.saturating_add(20).saturating_add(samples[i].frame.len());
        i += 1;
    }
    room
}

/// The buffer once `count` samples are converted: what was there before, the
/// `moof` with the sizes of those samples, and an `mdat` whose own size is
/// still missing.
#[verifier::opaque]
spec fn in_progress(
    before: Seq<u8>,
    codec: VideoCodec,
    sequence_number: u32,
    base_media_decode_time: u64,
    samples: Seq<SampleSpec<'_>>,
    count: nat,
) -> Seq<u8> {
    before + moof_box(
        sequence_number,
        base_media_decode_time,
        samples,
        sizes_so_far(codec, samples, count as int),
    ) + (be_bytes(0, 4) + MDAT@ + media_bytes(codec, samples, count))
}

/// Nothing is converted yet.
proof fn lemma_in_progress_start(
    before: Seq<u8>,
    codec: VideoCodec,
    sequence_number: u32,
    base_media_decode_time: u64,
    samples: Seq<SampleSpec<'_>>,
)
    ensures
        in_progress(before, codec, sequence_number, base_media_decode_time, samples, 0) == before
            + moof_box(
            sequence_number,
            base_media_decode_time,
            samples,
            no_sizes(samples.len()),
        ) + be_bytes(0, 4) + MDAT@,
{
    reveal(in_progress);
    let moof = moof_box(
        sequence_number,
        base_media_decode_time,
        samples,
        no_sizes(samples.len()),
    );
    let head = be_bytes(0, 4) + MDAT@;
    assert(sizes_so_far(codec, samples, 0) =~= no_sizes(samples.len()));
    assert(head + media_bytes(codec, samples, 0) =~= head);
    lemma_concat_assoc(before + moof, be_bytes(0, 4), MDAT@);
}

/// One sample more is converted and its size patched in.
proof fn lemma_in_progress_step(
    before: Seq<u8>,
    codec: VideoCodec,
    sequence_number: u32,
    base_media_decode_time: u64,
    samples: Seq<SampleSpec<'_>>,
    i: nat,
)
    requires
        i < samples.len(),
    ensures
        before.len() + moof_len(samples.len()) <= in_progress(
            before,
            codec,
            sequence_number,
            base_media_decode_time,
            samples,
            i,
        ).len(),
        overwritten(
            in_progress(before, codec, sequence_number, base_media_decode_time, samples, i)
                + sample_payload(codec, samples[i as int].frame@),
            before.len() as int + 88 + 16 * i + 4,
            be_bytes(sample_payload(codec, samples[i as int].frame@).len(), 4),
        ) == in_progress(
            before,
            codec,
            sequence_number,
            base_media_decode_time,
            samples,
            i + 1,
        ),
{
    reveal(in_progress);
    let sizes = sizes_so_far(codec, samples, i as int);
    let payload = sample_payload(codec, samples[i as int].frame@);
    let moof = moof_box(sequence_number, base_media_decode_time, samples, sizes);
    let head = be_bytes(0, 4) + MDAT@;
    let media = media_bytes(codec, samples, i);
    let tail = head + media_bytes(codec, samples, i + 1);
    lemma_moof_layout(sequence_number, base_media_decode_time, samples, sizes);
    lemma_concat_assoc(head, media, payload);
    lemma_concat_assoc(before + moof, head + media, payload);
    lemma_patch_moof(
        before,
        sequence_number,
        base_media_decode_time,
        samples,
        sizes,
        tail,
        i as int,
        payload.len(),
    );
    assert(sizes.update(i as int, payload.len()) =~= sizes_so_far(codec, samples, i as int + 1));
}

/// All samples are converted; the size of the `mdat` is patched in.
proof fn lemma_in_progress_end(
    before: Seq<u8>,
    codec: VideoCodec,
    sequence_number: u32,
    base_media_decode_time: u64,
    samples: Seq<SampleSpec<'_>>,
)
    ensures
        in_progress(
            before,
            codec,
            sequence_number,
            base_media_decode_time,
            samples,
            samples.len(),
        ).len() == before.len() + moof_len(samples.len()) + 8 + media_bytes(
            codec,
            samples,
            samples.len(),
        ).len(),
        overwritten(
            in_progress(
                before,
                codec,
                sequence_number,
                base_media_decode_time,
                samples,
                samples.len(),
            ),
            (before.len() + moof_len(samples.len())) as int,
            be_bytes(8 + media_bytes(codec, samples, samples.len()).len(), 4),
        ) == before + fragment_bytes(codec, sequence_number, base_media_decode_time, samples),
{
    reveal(in_progress);
    let sizes = payload_sizes(codec, samples);
    let moof = moof_box(sequence_number, base_media_decode_time, samples, sizes);
    let head = be_bytes(0, 4) + MDAT@;
    let media = media_bytes(codec, samples, samples.len());
    let field = be_bytes(8 + media.len(), 4);
    lemma_be_bytes_len(0, 4);
    lemma_be_bytes_len(8 + media.len(), 4);
    assert(sizes_so_far(codec, samples, samples.len() as int) =~= sizes);
    lemma_moof_layout(sequence_number, base_media_decode_time, samples, sizes);
    assert((before + moof) + (head + media) =~= (before + moof) + (head + media) + Seq::<
        u8,
    >::empty());
    lemma_overwrite_middle(before + moof, head + media, Seq::empty(), 0, field);
    assert(overwritten(head + media, 0, field) =~= boxed(MDAT@, media));
    assert(before + moof + boxed(MDAT@, media) + Seq::<u8>::empty() =~= before + (moof + boxed(
        MDAT@,
        media,
    )));
}

/// Append the fragment of `samples` to `out`. Sample bytes are converted into
/// the mdat in a single pass; per-sample sizes are patched into the trun
/// region as they're discovered.
pub(crate) fn append_fragment(
    codec: VideoCodec,
    out: &mut Vec<u8>,
    sequence_number: u32,
    base_media_decode_time: u64,
    samples: &[SampleSpec<'_>],
)
    requires
        forall|i: int| 0 <= i < samples@.len() ==> offset_fits(#[trigger] samples@[i]),
    ensures
        final(out)@ == old(out)@ + fragment_bytes(
            codec,
            sequence_number,
            base_media_decode_time,
            samples@,
        ),
{
    let ghost before = out@;
    let ghost seq_no = sequence_number;
    let ghost base = base_media_decode_time;
    let count: usize = samples.len();
    let moof_at: usize = out.len();
    out.reserve(fragment_room(samples));
    write_moof_skeleton(out, sequence_number, base_media_decode_time, samples);
    proof {
        lemma_moof_layout(seq_no, base, samples@, no_sizes(samples@.len()));
        lemma_in_progress_start(before, codec, seq_no, base, samples@);
    }
    let mdat_at: usize = out.len();
    let entries_at: usize = moof_at + trun_samples_offset_in_moof();
    put_u32(out, 0);  // size placeholder
    put_bytes(out, &MDAT);
    let mut i: usize = 0;
    while i < count
        invariant
            i <= count == samples@.len(),
            mdat_at == before.len() + moof_len(count as nat),
            entries_at == before.len() + 88,
            out@ == in_progress(before, codec, seq_no, base, samples@, i as nat),
        decreases count - i,
    {
        proof {
            lemma_in_progress_step(before, codec, seq_no, base, samples@, i as nat);
        }
        let pre: usize = out.len();
        convert_into(codec, samples[i].frame, out);
        let size: u32 = low_u32(out.len() - pre);
        assert(entries_at + 16 * i + 8 <= mdat_at);
        patch_u32(out, entries_at + i * TRUN_PER_SAMPLE + 4, size);
        i += 1;
    }
    proof {
        lemma_in_progress_end(before, codec, seq_no, base, samples@);
    }
    let mdat_size: u32 = low_u32(out.len() - mdat_at);
    patch_u32(out, mdat_at, mdat_size);
}

} // verus!
