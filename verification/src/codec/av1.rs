//! AV1 codec configuration extraction.
//!
//! An AV1 stream is a sequence of open bitstream units (OBUs). The sequence
//! header OBU declares what the `av1C` box repeats: profile, level, tier and
//! colour format.

use vstd::prelude::*;
use vstd::slice::{slice_subrange, slice_to_vec};

use crate::codec::av1::bits::{bit_at, bits_at, lemma_bit_bound, read_bit, read_bits};

pub mod bits;
pub mod laws;

verus! {

/// OBU type of a sequence header.
pub const OBU_SEQUENCE_HEADER: u8 = 1;

/// AV1 codec configuration, read from a sequence header OBU.
#[derive(Debug, Clone, PartialEq, Eq)]
pub struct Av1Config {
    /// The sequence header OBU, with its OBU header.
    pub sequence_header: Vec<u8>,
    /// Profile (0 main, 1 high, 2 professional).
    pub seq_profile: u8,
    /// Level of the first operating point.
    pub seq_level_idx: u8,
    /// Tier of the first operating point.
    pub seq_tier: u8,
    /// Whether samples have more than eight bits.
    pub high_bitdepth: bool,
    /// Whether samples have twelve bits.
    pub twelve_bit: bool,
    /// Whether there is luma only.
    pub monochrome: bool,
    /// Whether chroma is halved horizontally.
    pub chroma_subsampling_x: bool,
    /// Whether chroma is halved vertically.
    pub chroma_subsampling_y: bool,
    /// Where chroma samples lie.
    pub chroma_sample_position: u8,
}

/// An OBU inside a stream: its type, where its payload starts and where it
/// ends.
pub struct ObuSpan {
    pub kind: int,
    pub payload: int,
    pub end: int,
}

/// An OBU that was read, as positions in the stream.
struct Obu {
    kind: u8,
    payload: usize,
    end: usize,
}

impl Obu {
    spec fn span(self) -> ObuSpan {
        ObuSpan { kind: self.kind as int, payload: self.payload as int, end: self.end as int }
    }
}

/// A LEB128 number of at most `left` bytes at `at`: its value and how many
/// bytes it takes.
pub open spec fn leb128(data: Seq<u8>, at: int, left: nat) -> Option<(nat, nat)>
    decreases left,
{
    if left == 0 || at >= data.len() {
        None
    } else if data[at] < 128 {
        Some((data[at] as nat, 1))
    } else {
        match leb128(data, at + 1, (left - 1) as nat) {
            Some((value, used)) => Some(((data[at] - 128 + 128 * value) as nat, used + 1)),
            None => None,
        }
    }
}

/// Past the largest LEB128 number of `left` bytes.
spec fn leb128_limit(left: nat) -> nat
    decreases left,
{
    if left == 0 {
        1
    } else {
        128 * leb128_limit((left - 1) as nat)
    }
}

/// Read a LEB128 number of at most `left` bytes at `at`.
fn read_leb128(data: &[u8], at: usize, left: u32) -> (number: Option<(u64, usize)>)
    requires
        left <= 8,
        at <= data@.len(),
    ensures
        match number {
            Some((value, used)) => {
                &&& leb128(data@, at as int, left as nat) == Some((value as nat, used as nat))
                &&& value < leb128_limit(left as nat)
                &&& at + used <= data@.len()
            },
            None => leb128(data@, at as int, left as nat) is None,
        },
    decreases left,
{
    if left == 0 || at >= data.len() {
        return None;
    }
    let byte: u8 = data[at];
    if byte < 128 {
        proof {
            lemma_leb128_limit(left as nat);
        }
        return Some((byte as u64, 1));
    }
    match read_leb128(data, at + 1, left - 1) {
        Some((value, used)) => {
            proof {
                lemma_leb128_limit((left - 1) as nat);
            }
            Some(((byte - 128) as u64 + 128 * value, used + 1))
        },
        None => None,
    }
}

/// One LEB128 byte holds seven bits, seven of them hold 49.
proof fn lemma_leb128_limit(left: nat)
    requires
        left <= 8,
    ensures
        left > 0 ==> leb128_limit(left) >= 128,
        left < 8 ==> leb128_limit(left) <= 0x2_0000_0000_0000,
{
    reveal_with_fuel(leb128_limit, 9);
}

/// The OBU at `at`: a header byte (type in bits 3-6, extension in bit 2, size
/// field in bit 1, bit 7 zero), an extension byte, a size, and as many bytes
/// as the size says. Without a size field it reaches to the end.
pub open spec fn obu_at(data: Seq<u8>, at: int) -> Option<ObuSpan> {
    let header = data[at] as int;
    let extension = header / 4 % 2;
    let sized = header / 2 % 2 == 1;
    let body = at + 1 + extension;
    if at >= data.len() || header >= 128 || body > data.len() {
        None
    } else if !sized {
        Some(ObuSpan { kind: header / 8, payload: body, end: data.len() as int })
    } else {
        match leb128(data, body, 8) {
            Some((size, used)) => if body + used + size <= data.len() {
                Some(
                    ObuSpan {
                        kind: header / 8,
                        payload: body + used,
                        end: body + used + size,
                    },
                )
            } else {
                None
            },
            None => None,
        }
    }
}

/// Read the OBU at `at`.
fn read_obu(data: &[u8], at: usize) -> (obu: Option<Obu>)
    requires
        at < data@.len(),
    ensures
        match obu {
            Some(unit) => {
                &&& obu_at(data@, at as int) == Some(unit.span())
                &&& at < unit.payload <= unit.end <= data@.len()
            },
            None => obu_at(data@, at as int) is None,
        },
{
    let total: usize = data.len();
    let header: u8 = data[at];
    if header >= 128 {
        return None;
    }
    let extension: usize = (header / 4 % 2) as usize;
    if extension > total - at - 1 {
        return None;
    }
    let body: usize = at + 1 + extension;
    if header / 2 % 2 == 0 {
        return Some(Obu { kind: header / 8, payload: body, end: total });
    }
    match read_leb128(data, body, 8) {
        Some((size, used)) => {
            let payload: usize = body + used;
            if size <= (total - payload) as u64 {
                Some(Obu { kind: header / 8, payload, end: payload + size as usize })
            } else {
                None
            }
        },
        None => None,
    }
}

/// The first sequence header OBU at or after `at`: where it starts, and the
/// OBU itself.
pub open spec fn sequence_header_from(data: Seq<u8>, at: int) -> Option<(int, ObuSpan)>
    decreases data.len() - at,
{
    if at < 0 || at >= data.len() {
        None
    } else {
        match obu_at(data, at) {
            Some(obu) => if obu.kind == OBU_SEQUENCE_HEADER {
                Some((at, obu))
            } else if obu.end > at {
                sequence_header_from(data, obu.end)
            } else {
                None
            },
            None => None,
        }
    }
}

/// Number of zero bits before the first one bit from `pos` on, at most 32;
/// the first `skipped` of them are counted already.
pub open spec fn leading_zeros(data: Seq<u8>, pos: nat, skipped: nat) -> nat
    decreases 32 - skipped,
{
    if skipped >= 32 || bit_at(data, pos + skipped) == 1 {
        skipped
    } else {
        leading_zeros(data, pos, skipped + 1)
    }
}

/// What the timing part of a sequence header says about the rest of it.
pub struct Timing {
    /// Position behind it.
    pub end: nat,
    /// Whether its variable-length number is well formed.
    pub valid: bool,
    /// Width of the decoder model delays, and 0 without a decoder model.
    pub delay_bits: nat,
}

/// The timing part of a sequence header at `pos`.
pub open spec fn timing_at(data: Seq<u8>, pos: nat) -> Timing {
    if bit_at(data, pos) != 1 {
        Timing { end: pos + 1, valid: true, delay_bits: 0 }
    } else {
        // num_units_in_display_tick (32) and time_scale (32)
        let equal_interval = pos + 65;
        let zeros = leading_zeros(data, equal_interval + 1, 0);
        let ticks_end = if bit_at(data, equal_interval) == 1 {
            equal_interval + 1 + 2 * zeros + 1
        } else {
            equal_interval + 1
        };
        let valid = bit_at(data, equal_interval) != 1 || zeros < 32;
        if bit_at(data, ticks_end) == 1 {
            // buffer_delay_length_minus_1 (5), num_units_in_decoding_tick (32),
            // buffer_removal_time_length_minus_1 (5),
            // frame_presentation_time_length_minus_1 (5)
            Timing {
                end: ticks_end + 48,
                valid,
                delay_bits: bits_at(data, ticks_end + 1, 5) + 1,
            }
        } else {
            Timing { end: ticks_end + 1, valid, delay_bits: 0 }
        }
    }
}

/// Position behind the operating point at `pos`.
pub open spec fn operating_point_end(
    data: Seq<u8>,
    pos: nat,
    delay_bits: nat,
    display_delay: bool,
) -> nat {
    // operating_point_idc (12), seq_level_idx (5), seq_tier (1) above level 7
    let level_end = if bits_at(data, pos + 12, 5) > 7 {
        pos + 18
    } else {
        pos + 17
    };
    let model_end = if delay_bits == 0 {
        level_end
    } else if bit_at(data, level_end) == 1 {
        level_end + 1 + 2 * delay_bits + 1
    } else {
        level_end + 1
    };
    if !display_delay {
        model_end
    } else if bit_at(data, model_end) == 1 {
        model_end + 5
    } else {
        model_end + 1
    }
}

/// Position behind `count` operating points.
pub open spec fn operating_points_end(
    data: Seq<u8>,
    pos: nat,
    count: nat,
    delay_bits: nat,
    display_delay: bool,
) -> nat
    decreases count,
{
    if count == 0 {
        pos
    } else {
        operating_point_end(
            data,
            operating_points_end(data, pos, (count - 1) as nat, delay_bits, display_delay),
            delay_bits,
            display_delay,
        )
    }
}

/// Position behind the frame size and the frame id lengths at `pos`.
pub open spec fn frame_size_end(data: Seq<u8>, pos: nat, reduced: bool) -> nat {
    let size_end = pos + 8 + (bits_at(data, pos, 4) + 1) + (bits_at(data, pos + 4, 4) + 1);
    if reduced {
        size_end
    } else if bit_at(data, size_end) == 1 {
        size_end + 8
    } else {
        size_end + 1
    }
}

/// Position behind the coding tool flags at `pos`.
pub open spec fn tools_end(data: Seq<u8>, pos: nat, reduced: bool) -> nat {
    // use_128x128_superblock, enable_filter_intra, enable_intra_edge_filter
    let inter = pos + 3;
    let inter_end = if reduced {
        inter
    } else {
        let order_hint = bit_at(data, inter + 4) == 1;
        let hint_end = if order_hint {
            inter + 7
        } else {
            inter + 5
        };
        let choose_tools = bit_at(data, hint_end) == 1;
        let tools_bits_end = if choose_tools {
            hint_end + 1
        } else {
            hint_end + 2
        };
        let mv_end = if choose_tools || bit_at(data, hint_end + 1) == 1 {
            if bit_at(data, tools_bits_end) == 1 {
                tools_bits_end + 1
            } else {
                tools_bits_end + 2
            }
        } else {
            tools_bits_end
        };
        if order_hint {
            mv_end + 3
        } else {
            mv_end
        }
    };
    // enable_superres, enable_cdef, enable_restoration
    inter_end + 3
}

/// The colour format that a sequence header declares.
pub struct ColorConfig {
    pub high_bitdepth: bool,
    pub twelve_bit: bool,
    pub monochrome: bool,
    pub subsampling_x: bool,
    pub subsampling_y: bool,
    pub sample_position: nat,
    /// Position behind it.
    pub end: nat,
}

/// Chroma subsampling of a stream that is neither monochrome nor RGB, and the
/// position behind the bits at `pos` that say so.
pub open spec fn subsampling_at(
    data: Seq<u8>,
    pos: nat,
    profile: nat,
    twelve_bit: bool,
) -> (bool, bool, nat) {
    if profile == 0 {
        (true, true, pos)
    } else if profile == 1 {
        (false, false, pos)
    } else if !twelve_bit {
        (true, false, pos)
    } else if bit_at(data, pos) == 1 {
        (true, bit_at(data, pos + 1) == 1, pos + 2)
    } else {
        (false, false, pos + 1)
    }
}

/// The colour part of a sequence header at `pos`.
pub open spec fn color_at(data: Seq<u8>, pos: nat, profile: nat) -> ColorConfig {
    let high_bitdepth = bit_at(data, pos) == 1;
    let twelve_coded = profile == 2 && high_bitdepth;
    let twelve_bit = twelve_coded && bit_at(data, pos + 1) == 1;
    let depth_end = if twelve_coded {
        pos + 2
    } else {
        pos + 1
    };
    let monochrome = profile != 1 && bit_at(data, depth_end) == 1;
    let mono_end = if profile != 1 {
        depth_end + 1
    } else {
        depth_end
    };
    let described = bit_at(data, mono_end) == 1;
    let range = if described {
        mono_end + 25
    } else {
        mono_end + 1
    };
    // BT.709 primaries, sRGB transfer and identity matrix
    let rgb = described && bits_at(data, mono_end + 1, 8) == 1 && bits_at(data, mono_end + 9, 8)
        == 13 && bits_at(data, mono_end + 17, 8) == 0;
    if monochrome {
        ColorConfig {
            high_bitdepth,
            twelve_bit,
            monochrome,
            subsampling_x: true,
            subsampling_y: true,
            sample_position: 0,
            end: range + 1,
        }
    } else if rgb {
        ColorConfig {
            high_bitdepth,
            twelve_bit,
            monochrome,
            subsampling_x: false,
            subsampling_y: false,
            sample_position: 0,
            end: range + 1,
        }
    } else {
        let (x, y, subsampling_end) = subsampling_at(data, range + 1, profile, twelve_bit);
        ColorConfig {
            high_bitdepth,
            twelve_bit,
            monochrome,
            subsampling_x: x,
            subsampling_y: y,
            sample_position: if x && y {
                bits_at(data, subsampling_end, 2)
            } else {
                0
            },
            end: if x && y {
                subsampling_end + 3
            } else {
                subsampling_end + 1
            },
        }
    }
}

/// What a sequence header declares.
pub struct SequenceHeader {
    pub profile: nat,
    pub level: nat,
    pub tier: nat,
    pub color: ColorConfig,
}

/// The sequence header in the OBU payload `data`, unless it is malformed or
/// runs past the end.
pub open spec fn sequence_header(data: Seq<u8>) -> Option<SequenceHeader> {
    let profile = bits_at(data, 0, 3);
    let reduced = bit_at(data, 4) == 1;
    let timing = timing_at(data, 5);
    let points = timing.end + 6;
    let level_at = if reduced {
        5
    } else {
        points + 12
    };
    let level = bits_at(data, level_at, 5);
    let tier = if !reduced && level > 7 {
        bit_at(data, level_at + 5)
    } else {
        0
    };
    let points_end = if reduced {
        10
    } else {
        operating_points_end(
            data,
            points,
            bits_at(data, timing.end + 1, 5) + 1,
            timing.delay_bits,
            bit_at(data, timing.end) == 1,
        )
    };
    let color = color_at(
        data,
        tools_end(data, frame_size_end(data, points_end, reduced), reduced),
        profile,
    );
    // film_grain_params_present (1)
    if (reduced || timing.valid) && color.end + 1 <= 8 * data.len() {
        Some(SequenceHeader { profile, level, tier, color })
    } else {
        None
    }
}

/// `config` holds what `header` declares, and the bytes of its OBU.
pub open spec fn config_of(config: Av1Config, header: SequenceHeader, obu: Seq<u8>) -> bool {
    &&& config.sequence_header@ == obu
    &&& config.seq_profile == header.profile
    &&& config.seq_level_idx == header.level
    &&& config.seq_tier == header.tier
    &&& config.high_bitdepth == header.color.high_bitdepth
    &&& config.twelve_bit == header.color.twelve_bit
    &&& config.monochrome == header.color.monochrome
    &&& config.chroma_subsampling_x == header.color.subsampling_x
    &&& config.chroma_subsampling_y == header.color.subsampling_y
    &&& config.chroma_sample_position == header.color.sample_position
}

/// Count the zero bits before the first one bit from `pos` on, at most 32.
fn count_leading_zeros(data: &[u8], pos: usize) -> (zeros: usize)
    requires
        pos <= 0x1000,
    ensures
        zeros == leading_zeros(data@, pos as nat, 0),
        zeros <= 32,
{
    let mut zeros: usize = 0;
    while zeros < 32 && !read_bit(data, pos + zeros)
        invariant
            pos <= 0x1000,
            zeros <= 32,
            leading_zeros(data@, pos as nat, zeros as nat) == leading_zeros(data@, pos as nat, 0),
        decreases 32 - zeros,
    {
        zeros += 1;
    }
    zeros
}

/// Read the timing part at `pos`: the position behind it, whether it is well
/// formed, and the width of the decoder model delays.
fn read_timing(data: &[u8], pos: usize) -> (timing: (usize, bool, usize))
    requires
        pos <= 0x100,
    ensures
        timing_at(data@, pos as nat) == (Timing {
            end: timing.0 as nat,
            valid: timing.1,
            delay_bits: timing.2 as nat,
        }),
        timing.0 <= 0x200,
        timing.2 <= 32,
{
    if !read_bit(data, pos) {
        return (pos + 1, true, 0);
    }
    let equal_interval: usize = pos + 65;
    let mut ticks_end: usize = equal_interval + 1;
    let mut valid = true;
    if read_bit(data, equal_interval) {
        let zeros: usize = count_leading_zeros(data, equal_interval + 1);
        ticks_end = equal_interval + 1 + 2 * zeros + 1;
        valid = zeros < 32;
    }
    if read_bit(data, ticks_end) {
        let width: usize = read_bits(data, ticks_end + 1, 5) as usize;
        assert(1u64 << 5u32 == 32) by (bit_vector);
        (ticks_end + 48, valid, width + 1)
    } else {
        (ticks_end + 1, valid, 0)
    }
}

/// Find the position behind the operating point at `pos`.
fn skip_operating_point(
    data: &[u8],
    pos: usize,
    delay_bits: usize,
    display_delay: bool,
) -> (end: usize)
    requires
        pos <= 0x1000,
        delay_bits <= 32,
    ensures
        end == operating_point_end(data@, pos as nat, delay_bits as nat, display_delay),
        end <= pos + 89,
{
    let level_end: usize = if read_bits(data, pos + 12, 5) > 7 {
        pos + 18
    } else {
        pos + 17
    };
    let model_end: usize = if delay_bits == 0 {
        level_end
    } else if read_bit(data, level_end) {
        level_end + 1 + 2 * delay_bits + 1
    } else {
        level_end + 1
    };
    if !display_delay {
        model_end
    } else if read_bit(data, model_end) {
        model_end + 5
    } else {
        model_end + 1
    }
}

/// Find the position behind `count` operating points.
fn skip_operating_points(
    data: &[u8],
    pos: usize,
    count: usize,
    delay_bits: usize,
    display_delay: bool,
) -> (end: usize)
    requires
        pos <= 0x300,
        count <= 32,
        delay_bits <= 32,
    ensures
        end == operating_points_end(
            data@,
            pos as nat,
            count as nat,
            delay_bits as nat,
            display_delay,
        ),
        end <= 0xf00,
{
    let mut end: usize = pos;
    let mut i: usize = 0;
    while i < count
        invariant
            i <= count <= 32,
            pos <= 0x300,
            delay_bits <= 32,
            end == operating_points_end(
                data@,
                pos as nat,
                i as nat,
                delay_bits as nat,
                display_delay,
            ),
            end <= pos + 89 * i,
        decreases count - i,
    {
        end = skip_operating_point(data, end, delay_bits, display_delay);
        i += 1;
    }
    end
}

/// Find the position behind the frame size and the frame id lengths at `pos`.
fn skip_frame_size(data: &[u8], pos: usize, reduced: bool) -> (end: usize)
    requires
        pos <= 0xf00,
    ensures
        end == frame_size_end(data@, pos as nat, reduced),
        end <= pos + 48,
{
    assert(1u64 << 4u32 == 16) by (bit_vector);
    let width_bits: usize = read_bits(data, pos, 4) as usize + 1;
    let height_bits: usize = read_bits(data, pos + 4, 4) as usize + 1;
    let size_end: usize = pos + 8 + width_bits + height_bits;
    if reduced {
        size_end
    } else if read_bit(data, size_end) {
        size_end + 8
    } else {
        size_end + 1
    }
}

/// Find the position behind the coding tool flags at `pos`.
fn skip_tools(data: &[u8], pos: usize, reduced: bool) -> (end: usize)
    requires
        pos <= 0xf80,
    ensures
        end == tools_end(data@, pos as nat, reduced),
        end <= pos + 20,
{
    let inter: usize = pos + 3;
    if reduced {
        return inter + 3;
    }
    let order_hint = read_bit(data, inter + 4);
    let hint_end: usize = if order_hint {
        inter + 7
    } else {
        inter + 5
    };
    let choose_tools = read_bit(data, hint_end);
    let tools_bits_end: usize = if choose_tools {
        hint_end + 1
    } else {
        hint_end + 2
    };
    let mv_end: usize = if choose_tools || read_bit(data, hint_end + 1) {
        if read_bit(data, tools_bits_end) {
            tools_bits_end + 1
        } else {
            tools_bits_end + 2
        }
    } else {
        tools_bits_end
    };
    if order_hint {
        mv_end + 6
    } else {
        mv_end + 3
    }
}

/// The colour format of a sequence header, and the position behind it.
struct ColorFields {
    high_bitdepth: bool,
    twelve_bit: bool,
    monochrome: bool,
    subsampling_x: bool,
    subsampling_y: bool,
    sample_position: u8,
    end: usize,
}

impl ColorFields {
    spec fn config(self) -> ColorConfig {
        ColorConfig {
            high_bitdepth: self.high_bitdepth,
            twelve_bit: self.twelve_bit,
            monochrome: self.monochrome,
            subsampling_x: self.subsampling_x,
            subsampling_y: self.subsampling_y,
            sample_position: self.sample_position as nat,
            end: self.end as nat,
        }
    }
}

/// Read the colour part at `pos`.
fn read_color(data: &[u8], pos: usize, profile: u8) -> (color: ColorFields)
    requires
        pos <= 0x1000,
    ensures
        color.config() == color_at(data@, pos as nat, profile as nat),
        color.end <= pos + 40,
{
    let high_bitdepth = read_bit(data, pos);
    let twelve_coded = profile == 2 && high_bitdepth;
    let twelve_bit = twelve_coded && read_bit(data, pos + 1);
    let depth_end: usize = if twelve_coded {
        pos + 2
    } else {
        pos + 1
    };
    let monochrome = profile != 1 && read_bit(data, depth_end);
    let mono_end: usize = if profile != 1 {
        depth_end + 1
    } else {
        depth_end
    };
    let described = read_bit(data, mono_end);
    let range: usize = if described {
        mono_end + 25
    } else {
        mono_end + 1
    };
    let rgb = described && read_bits(data, mono_end + 1, 8) == 1 && read_bits(
        data,
        mono_end + 9,
        8,
    ) == 13 && read_bits(data, mono_end + 17, 8) == 0;
    if monochrome || rgb {
        return ColorFields {
            high_bitdepth,
            twelve_bit,
            monochrome,
            subsampling_x: monochrome,
            subsampling_y: monochrome,
            sample_position: 0,
            end: range + 1,
        };
    }
    let (subsampling_x, subsampling_y, subsampling_end): (bool, bool, usize) = if profile == 0 {
        (true, true, range + 1)
    } else if profile == 1 {
        (false, false, range + 1)
    } else if !twelve_bit {
        (true, false, range + 1)
    } else if read_bit(data, range + 1) {
        (true, read_bit(data, range + 2), range + 3)
    } else {
        (false, false, range + 2)
    };
    if subsampling_x && subsampling_y {
        let position: u32 = read_bits(data, subsampling_end, 2);
        assert(1u64 << 2u32 == 4) by (bit_vector);
        ColorFields {
            high_bitdepth,
            twelve_bit,
            monochrome,
            subsampling_x,
            subsampling_y,
            sample_position: position as u8,
            end: subsampling_end + 3,
        }
    } else {
        ColorFields {
            high_bitdepth,
            twelve_bit,
            monochrome,
            subsampling_x,
            subsampling_y,
            sample_position: 0,
            end: subsampling_end + 1,
        }
    }
}

/// Read the sequence header in the OBU payload `data`; `obu` are the bytes of
/// the whole OBU.
#[verifier::rlimit(30)]
fn read_sequence_header(data: &[u8], obu: &[u8]) -> (config: Option<Av1Config>)
    ensures
        match config {
            Some(found) => match sequence_header(data@) {
                Some(header) => config_of(found, header, obu@),
                None => false,
            },
            None => sequence_header(data@) is None,
        },
{
    assert(1u64 << 3u32 == 8 && 1u64 << 5u32 == 32) by (bit_vector);
    let profile: u8 = read_bits(data, 0, 3) as u8;
    let reduced = read_bit(data, 4);
    let (timing_end, timing_valid, delay_bits) = read_timing(data, 5);
    let points: usize = timing_end + 6;
    let level_at: usize = if reduced {
        5
    } else {
        points + 12
    };
    let level: u8 = read_bits(data, level_at, 5) as u8;
    let tier: u8 = if !reduced && level > 7 && read_bit(data, level_at + 5) {
        1
    } else {
        0
    };
    let points_end: usize = if reduced {
        10
    } else {
        skip_operating_points(
            data,
            points,
            read_bits(data, timing_end + 1, 5) as usize + 1,
            delay_bits,
            read_bit(data, timing_end),
        )
    };
    let size_end: usize = skip_frame_size(data, points_end, reduced);
    let color = read_color(data, skip_tools(data, size_end, reduced), profile);
    assert(bit_at(data@, (level_at + 5) as nat) <= 1) by {
        lemma_bit_bound(data@, (level_at + 5) as nat);
    }
    if !(reduced || timing_valid) || color.end / 8 >= data.len() {
        return None;
    }
    Some(
        Av1Config {
            sequence_header: slice_to_vec(obu),
            seq_profile: profile,
            seq_level_idx: level,
            seq_tier: tier,
            high_bitdepth: color.high_bitdepth,
            twelve_bit: color.twelve_bit,
            monochrome: color.monochrome,
            chroma_subsampling_x: color.subsampling_x,
            chroma_subsampling_y: color.subsampling_y,
            chroma_sample_position: color.sample_position,
        },
    )
}

/// What the first sequence header OBU of a stream declares, with the bytes of
/// that OBU.
pub open spec fn declared_header(data: Seq<u8>) -> Option<(SequenceHeader, Seq<u8>)> {
    match sequence_header_from(data, 0) {
        Some((start, obu)) => match sequence_header(data.subrange(obu.payload, obu.end)) {
            Some(header) => Some((header, data.subrange(start, obu.end))),
            None => None,
        },
        None => None,
    }
}

/// Extract the AV1 configuration from the first sequence header OBU in
/// `data`. `None` where there is no such OBU or it cannot be read.
pub fn extract_av1_config(data: &[u8]) -> (config: Option<Av1Config>)
    ensures
        match config {
            Some(found) => match declared_header(data@) {
                Some((header, obu)) => config_of(found, header, obu),
                None => false,
            },
            None => declared_header(data@) is None,
        },
{
    let mut at: usize = 0;
    while at < data.len()
        invariant
            at <= data@.len(),
            sequence_header_from(data@, at as int) == sequence_header_from(data@, 0),
        decreases data@.len() - at,
    {
        match read_obu(data, at) {
            Some(obu) => {
                if obu.kind == OBU_SEQUENCE_HEADER {
                    return read_sequence_header(
                        slice_subrange(data, obu.payload, obu.end),
                        slice_subrange(data, at, obu.end),
                    );
                }
                at = obu.end;
            },
            None => {
                return None;
            },
        }
    }
    None
}

} // verus!
