//! H.265/HEVC codec configuration extraction.
//!
//! Provides NAL unit parsing to extract VPS, SPS, and PPS for building
//! the hvcC configuration box in MP4 containers.
//!
//! # NAL Unit Types (HEVC)
//!
//! | Type | Name | Purpose |
//! |------|------|---------|
//! | 0-9 | VCL | Coded slice segments |
//! | 16-18 | BLA | Broken Link Access |
//! | 19 | IDR_W_RADL | IDR with RADL pictures |
//! | 20 | IDR_N_LP | IDR without leading pictures |
//! | 21 | CRA | Clean Random Access |
//! | 32 | VPS | Video Parameter Set |
//! | 33 | SPS | Sequence Parameter Set |
//! | 34 | PPS | Picture Parameter Set |
//!
//! # Differences from H.264
//!
//! - NAL header is 2 bytes (vs 1 byte in H.264)
//! - NAL type is in bits 1-6 of the first byte: `(byte0 >> 1) & 0x3f`
//! - Requires VPS in addition to SPS/PPS
//! - Configuration box is `hvcC` instead of `avcC`
//!
//! # Input Format
//!
//! Input must be in Annex B format with start codes, same as H.264.

use vstd::prelude::*;
use vstd::slice::slice_to_vec;
use vstd::string::StringExecFns;

use crate::bytes::{be_value, lemma_concat_assoc, reverse_bits, reversed_bits, u32_from_be_bytes};
use crate::codec::common::{
    annexb, has_start_code, law_length_prefix_round_trip, law_sample_nals_of_annexb,
    lemma_filter_push, lemma_filtered_from, lemma_length_prefixed_push, lemma_nal_units_nonempty,
    lemma_sample_nals_len, length_prefixed, nal_units, prefixed, put_prefixed, sample_nals,
    split_prefixed, AnnexBNalIter,
};
use crate::text::{append_decimal, append_upper_hex, decimal, upper_hex};

pub mod laws;
pub mod nal_type;

verus! {

/// HEVC (H.265) codec configuration.
///
/// Contains VPS, SPS, and PPS NAL units needed to build the
/// hvcC box in MP4 containers.
#[derive(Debug, Clone, PartialEq, Eq)]
pub struct HevcConfig {
    /// Video Parameter Set NAL unit (without start code)
    pub vps: Vec<u8>,
    /// Sequence Parameter Set NAL unit (without start code)
    pub sps: Vec<u8>,
    /// Picture Parameter Set NAL unit (without start code)
    pub pps: Vec<u8>,
}

impl HevcConfig {
    /// Create a new HEVC configuration from VPS, SPS, and PPS data.
    pub fn new(vps: Vec<u8>, sps: Vec<u8>, pps: Vec<u8>) -> (config: Self)
        ensures
            config.vps == vps,
            config.sps == sps,
            config.pps == pps,
    {
        Self { vps, sps, pps }
    }

    /// Extract general_profile_space from the SPS (bits 0-1 of byte 3).
    pub fn general_profile_space(&self) -> (space: u8)
        ensures
            space == declared_ptl(self.sps@).profile_space,
    {
        sps_general_profile_space(&self.sps)
    }

    /// Extract general_tier_flag from the SPS (bit 2 of byte 3).
    pub fn general_tier_flag(&self) -> (tier: bool)
        ensures
            tier == declared_ptl(self.sps@).tier_flag,
    {
        sps_general_tier_flag(&self.sps)
    }

    /// Extract general_profile_idc from the SPS (bits 3-7 of byte 3).
    pub fn general_profile_idc(&self) -> (idc: u8)
        ensures
            idc == declared_ptl(self.sps@).profile_idc,
    {
        sps_general_profile_idc(&self.sps)
    }

    /// Extract general_level_idc from the SPS (byte 14).
    /// Level 5.1 = 153, Level 4.0 = 120, Level 3.1 = 93
    pub fn general_level_idc(&self) -> (level: u8)
        ensures
            level == declared_ptl(self.sps@).level_idc,
    {
        sps_general_level_idc(&self.sps)
    }

    /// Every general profile, tier and level field the SPS declares.
    pub fn profile_tier_level(&self) -> (ptl: ProfileTierLevel)
        ensures
            ptl == declared_ptl(self.sps@),
    {
        sps_profile_tier_level(&self.sps)
    }
}

/// The general profile, tier and level an SPS declares, read after its
/// emulation-prevention bytes are removed. Fields that a short SPS does not
/// reach have fallback values.
#[derive(Clone, Copy, Debug, PartialEq, Eq)]
pub struct ProfileTierLevel {
    pub profile_space: u8,
    pub tier_flag: bool,
    pub profile_idc: u8,
    pub compatibility_flags: [u8; 4],
    pub constraint_flags: [u8; 6],
    pub level_idc: u8,
}

/// `bytes` up to the last one that is not zero.
pub open spec fn without_trailing_zeros(bytes: Seq<u8>) -> Seq<u8>
    decreases bytes.len(),
{
    if bytes.len() == 0 || bytes.last() != 0 {
        bytes
    } else {
        without_trailing_zeros(bytes.drop_last())
    }
}

/// Each byte in hex behind a dot.
pub open spec fn dotted_hex(bytes: Seq<u8>) -> Seq<char>
    decreases bytes.len(),
{
    if bytes.len() == 0 {
        Seq::empty()
    } else {
        dotted_hex(bytes.drop_last()) + "."@ + upper_hex(bytes.last() as nat)
    }
}

/// The letter of a profile space, of which only the low two bits count;
/// space 0 has none.
pub open spec fn space_letter(space: u8) -> Seq<char> {
    if space % 4 == 0 {
        ""@
    } else if space % 4 == 1 {
        "A"@
    } else if space % 4 == 2 {
        "B"@
    } else {
        "C"@
    }
}

impl ProfileTierLevel {
    /// The `hvc1` codec string of these fields.
    pub open spec fn codec_text(self) -> Seq<char> {
        "hvc1."@ + space_letter(self.profile_space) + decimal(self.profile_idc as nat) + "."@
            + upper_hex(reversed_bits(be_value(self.compatibility_flags@) as u32, 32)) + "."@ + (
        if self.tier_flag {
            "H"@
        } else {
            "L"@
        }) + decimal(self.level_idc as nat) + dotted_hex(
            without_trailing_zeros(self.constraint_flags@),
        )
    }

    /// The `hvc1` codec string of ISO/IEC 14496-15 Annex E: the profile in
    /// its space, the compatibility flags bit-reversed in hex, the tier with
    /// the level, then each constraint byte in hex through the last set one.
    pub fn codec_string(&self) -> (text: String)
        ensures
            text@ == self.codec_text(),
    {
        let letters: u8 = self.profile_space & 0x03;
        let space: u8 = self.profile_space;
        assert(space & 0x03 == space % 4) by (bit_vector);
        let mut text: String = String::new();
        text.append("hvc1.");
        assert(text@ =~= "hvc1."@);
        text.append(
            match letters {
                0 => "",
                1 => "A",
                2 => "B",
                _ => "C",
            },
        );
        append_decimal(&mut text, self.profile_idc as u64);
        text.append(".");
        let compatibility: u32 = reverse_bits(u32_from_be_bytes(self.compatibility_flags));
        append_upper_hex(&mut text, compatibility as u64);
        text.append(".");
        text.append(
            if self.tier_flag {
                "H"
            } else {
                "L"
            },
        );
        append_decimal(&mut text, self.level_idc as u64);

        let mut set: usize = 6;
        assert(self.constraint_flags@.take(6) =~= self.constraint_flags@);
        while set > 0 && self.constraint_flags[set - 1] == 0
            invariant
                set <= 6,
                without_trailing_zeros(self.constraint_flags@) == without_trailing_zeros(
                    self.constraint_flags@.take(set as int),
                ),
            decreases set,
        {
            proof {
                let flags = self.constraint_flags@;
                assert(flags.take(set as int).drop_last() =~= flags.take(set - 1));
            }
            set -= 1;
        }
        let ghost head = text@;
        let mut i: usize = 0;
        proof {
            assert(text@ =~= head + dotted_hex(self.constraint_flags@.take(0)));
        }
        while i < set
            invariant
                i <= set <= 6,
                text@ == head + dotted_hex(self.constraint_flags@.take(i as int)),
            decreases set - i,
        {
            text.append(".");
            append_upper_hex(&mut text, self.constraint_flags[i] as u64);
            i += 1;
            proof {
                let flags = self.constraint_flags@;
                assert(flags.take(i as int).drop_last() =~= flags.take(i - 1));
                assert(text@ =~= head + dotted_hex(flags.take(i as int)));
            }
        }
        text
    }
}

/// Whether byte `i` of a NAL payload is emulation prevention: a 0x03 that
/// follows two zero bytes.
pub open spec fn is_emulation_byte(payload: Seq<u8>, i: int) -> bool {
    i >= 2 && payload[i] == 3 && payload[i - 1] == 0 && payload[i - 2] == 0
}

/// A NAL payload without its emulation-prevention bytes.
pub open spec fn unescaped(payload: Seq<u8>) -> Seq<u8>
    decreases payload.len(),
{
    if payload.len() == 0 {
        Seq::empty()
    } else if is_emulation_byte(payload, payload.len() - 1) {
        unescaped(payload.drop_last())
    } else {
        unescaped(payload.drop_last()).push(payload.last())
    }
}

/// Number of NAL header bytes that are there; they are never escaped.
pub open spec fn header_len(nal: Seq<u8>) -> int {
    if nal.len() < 2 {
        nal.len() as int
    } else {
        2
    }
}

/// The NAL header and the RBSP behind it.
pub open spec fn rbsp(nal: Seq<u8>) -> Seq<u8> {
    nal.take(header_len(nal)) + unescaped(nal.skip(header_len(nal)))
}

/// Byte `i` of `bytes`, and 0 past the end.
pub open spec fn byte_or_zero(bytes: Seq<u8>, i: int) -> u8 {
    if 0 <= i < bytes.len() {
        bytes[i]
    } else {
        0
    }
}

/// What an SPS declares: the space, tier and profile in RBSP byte 3, the
/// compatibility flags in bytes 4-7, the constraint flags in bytes 8-13 and
/// the level in byte 14. Where the SPS ends early the profile is 1, the
/// level 93 and everything else zero.
pub open spec fn declared_ptl(sps: Seq<u8>) -> ProfileTierLevel {
    let r = rbsp(sps);
    let b = |i: int| byte_or_zero(r, i);
    ProfileTierLevel {
        profile_space: if r.len() > 3 {
            (r[3] / 64) as u8
        } else {
            0
        },
        tier_flag: r.len() > 3 && r[3] / 32 % 2 == 1,
        profile_idc: if r.len() > 3 {
            (r[3] % 32) as u8
        } else {
            1
        },
        compatibility_flags: [b(4), b(5), b(6), b(7)],
        constraint_flags: [b(8), b(9), b(10), b(11), b(12), b(13)],
        level_idc: if r.len() > 14 {
            r[14]
        } else {
            93
        },
    }
}

/// The NAL header and RBSP bytes through general_level_idc.
const PROFILE_TIER_LEVEL_END: usize = 15;

/// Removing the emulation-prevention bytes of a longer payload only adds
/// bytes at the end.
proof fn lemma_unescaped_prefix(payload: Seq<u8>, n: int)
    requires
        0 <= n <= payload.len(),
    ensures
        unescaped(payload.take(n)).len() <= unescaped(payload).len(),
        unescaped(payload).take(unescaped(payload.take(n)).len() as int) == unescaped(
            payload.take(n),
        ),
    decreases payload.len(),
{
    let short = unescaped(payload.take(n));
    if n == payload.len() {
        assert(payload.take(n) =~= payload);
        assert(unescaped(payload).take(short.len() as int) =~= short);
    } else {
        lemma_unescaped_prefix(payload.drop_last(), n);
        assert(payload.drop_last().take(n) =~= payload.take(n));
        assert(unescaped(payload).take(short.len() as int) =~= unescaped(payload.drop_last()).take(
            short.len() as int,
        ));
    }
}

/// Parse profile_tier_level from the SPS. The two header bytes are never
/// escaped; in the payload a 0x03 that follows two zero bytes is emulation
/// prevention and is dropped.
pub fn sps_profile_tier_level(sps: &[u8]) -> (ptl: ProfileTierLevel)
    ensures
        ptl == declared_ptl(sps@),
{
    let mut rbsp_bytes: [u8; 15] = [0u8; 15];
    let header: usize = if sps.len() < 2 {
        sps.len()
    } else {
        2
    };
    if header > 0 {
        rbsp_bytes[0] = sps[0];
    }
    if header > 1 {
        rbsp_bytes[1] = sps[1];
    }
    let ghost payload = sps@.skip(header as int);
    let mut filled: usize = header;
    let mut zeros: usize = 0;
    let mut i: usize = header;
    proof {
        assert(payload.take(0) =~= Seq::<u8>::empty());
        assert(rbsp_bytes@.take(filled as int) =~= sps@.take(header as int) + unescaped(
            payload.take(0),
        ));
    }
    while i < sps.len() && filled < PROFILE_TIER_LEVEL_END
        invariant
            header == header_len(sps@),
            payload == sps@.skip(header as int),
            header <= i <= sps@.len(),
            header <= filled <= 15,
            zeros <= filled - header,
            zeros >= 1 <==> i - header >= 1 && payload[i - header - 1] == 0,
            zeros >= 2 <==> i - header >= 2 && payload[i - header - 1] == 0 && payload[i - header
                - 2] == 0,
            rbsp_bytes@.take(filled as int) == sps@.take(header as int) + unescaped(
                payload.take(i - header),
            ),
            forall|k: int| filled <= k < 15 ==> rbsp_bytes@[k] == 0,
        decreases sps@.len() - i,
    {
        let byte: u8 = sps[i];
        let ghost n = i - header;
        proof {
            assert(payload.take(n + 1).drop_last() =~= payload.take(n));
            assert(payload.take(n + 1).last() == byte);
        }
        if zeros >= 2 && byte == 0x03 {
            zeros = 0;
        } else {
            let ghost before = rbsp_bytes@;
            rbsp_bytes[filled] = byte;
            filled += 1;
            zeros = if byte == 0 {
                zeros + 1
            } else {
                0
            };
            proof {
                assert(rbsp_bytes@.take(filled as int) =~= before.take(filled - 1).push(byte));
                assert(rbsp_bytes@.take(filled as int) =~= sps@.take(header as int) + unescaped(
                    payload.take(n + 1),
                ));
            }
        }
        i += 1;
    }
    proof {
        let r = rbsp(sps@);
        lemma_unescaped_prefix(payload, i - header);
        if i == sps@.len() {
            assert(payload.take(i - header) =~= payload);
        }
        let n = unescaped(payload.take(i - header)).len();
        assert(rbsp_bytes@.take(filled as int) =~= r.take(filled as int)) by {
            assert(unescaped(payload).take(n as int) == unescaped(payload.take(i - header)));
            assert(r.take(filled as int) =~= sps@.take(header as int) + unescaped(payload).take(
                n as int,
            ));
        }
        assert(filled == 15 || r.len() == filled);
        assert forall|k: int| 0 <= k < 15 implies rbsp_bytes@[k] == byte_or_zero(r, k) by {
            if k < filled {
                assert(rbsp_bytes@.take(filled as int)[k] == r.take(filled as int)[k]);
            }
        }
    }
    let b3: u8 = rbsp_bytes[3];
    assert((b3 >> 6) & 0x03 == b3 / 64) by (bit_vector);
    assert((b3 >> 5) & 0x01 == b3 / 32 % 2) by (bit_vector);
    assert(b3 & 0x1f == b3 % 32) by (bit_vector);
    let ptl = ProfileTierLevel {
        profile_space: if filled > 3 {
            (b3 >> 6) & 0x03
        } else {
            0
        },
        tier_flag: filled > 3 && (b3 >> 5) & 0x01 != 0,
        profile_idc: if filled > 3 {
            b3 & 0x1f
        } else {
            1
        },
        compatibility_flags: [rbsp_bytes[4], rbsp_bytes[5], rbsp_bytes[6], rbsp_bytes[7]],
        constraint_flags: [
            rbsp_bytes[8],
            rbsp_bytes[9],
            rbsp_bytes[10],
            rbsp_bytes[11],
            rbsp_bytes[12],
            rbsp_bytes[13],
        ],
        level_idc: if filled > 14 {
            rbsp_bytes[14]
        } else {
            93
        },
    };
    proof {
        let want = declared_ptl(sps@);
        let r = rbsp(sps@);
        assert(filled > 3 <==> r.len() > 3);
        assert(filled > 14 <==> r.len() > 14);
        assert(b3 == byte_or_zero(r, 3));
        assert(rbsp_bytes@[14] == byte_or_zero(r, 14));
        assert(ptl.profile_space == want.profile_space);
        assert(ptl.tier_flag == want.tier_flag);
        assert(ptl.profile_idc == want.profile_idc);
        assert(ptl.level_idc == want.level_idc);
        assert(ptl.compatibility_flags@ =~= want.compatibility_flags@);
        assert(ptl.compatibility_flags =~= want.compatibility_flags);
        assert(ptl.constraint_flags@ =~= want.constraint_flags@);
        assert(ptl.constraint_flags =~= want.constraint_flags);
    }
    ptl
}

/// Extract general_profile_space from the SPS (bits 0-1 of RBSP byte 3).
pub fn sps_general_profile_space(sps: &[u8]) -> (space: u8)
    ensures
        space == declared_ptl(sps@).profile_space,
{
    sps_profile_tier_level(sps).profile_space
}

/// Extract general_tier_flag from the SPS (bit 2 of RBSP byte 3).
pub fn sps_general_tier_flag(sps: &[u8]) -> (tier: bool)
    ensures
        tier == declared_ptl(sps@).tier_flag,
{
    sps_profile_tier_level(sps).tier_flag
}

/// Extract general_profile_idc from the SPS (bits 3-7 of RBSP byte 3).
pub fn sps_general_profile_idc(sps: &[u8]) -> (idc: u8)
    ensures
        idc == declared_ptl(sps@).profile_idc,
{
    sps_profile_tier_level(sps).profile_idc
}

/// Extract general_level_idc from the SPS (RBSP byte 14).
pub fn sps_general_level_idc(sps: &[u8]) -> (level: u8)
    ensures
        level == declared_ptl(sps@).level_idc,
{
    sps_profile_tier_level(sps).level_idc
}

/// The type of a NAL unit: bits 1-6 of its first byte, and 0 where it is
/// empty.
pub open spec fn nal_kind(nal: Seq<u8>) -> u8 {
    if nal.len() == 0 {
        0
    } else {
        (nal[0] / 2 % 64) as u8
    }
}

/// Whether a NAL unit of type `kind` starts a random access point.
pub open spec fn is_irap(kind: u8) -> bool {
    nal_type::BLA_W_LP <= kind <= nal_type::CRA_NUT
}

/// Whether `nal` is a VPS, SPS or PPS.
pub open spec fn is_parameter_set(nal: Seq<u8>) -> bool {
    ||| nal_kind(nal) == nal_type::VPS
    ||| nal_kind(nal) == nal_type::SPS
    ||| nal_kind(nal) == nal_type::PPS
}

/// The first NAL unit of type `kind` in `nals` that is not empty.
pub open spec fn first_of_kind(nals: Seq<Seq<u8>>, kind: u8) -> Option<Seq<u8>>
    decreases nals.len(),
{
    if nals.len() == 0 {
        None
    } else {
        match first_of_kind(nals.drop_last(), kind) {
            Some(nal) => Some(nal),
            None => if nals.last().len() > 0 && nal_kind(nals.last()) == kind {
                Some(nals.last())
            } else {
                None
            },
        }
    }
}

/// The `hvc1` sample that holds the Annex B frame `data`: its NAL units
/// behind their lengths, without the parameter sets.
pub open spec fn hvcc_sample(data: Seq<u8>) -> Seq<u8> {
    length_prefixed(sample_nals(data).filter(|nal: Seq<u8>| !is_parameter_set(nal)))
}

/// Extract the NAL unit type from an H.265 NAL header.
///
/// H.265 NAL type is in bits 1-6 of the first byte:
/// `(nal_header[0] >> 1) & 0x3f`
pub fn hevc_nal_type(nal: &[u8]) -> (kind: u8)
    ensures
        kind == nal_kind(nal@),
        kind <= 63,
{
    if nal.is_empty() {
        return 0;
    }
    let header: u8 = nal[0];
    assert((header >> 1) & 0x3f == header / 2 % 64) by (bit_vector);
    (header >> 1) & 0x3f
}

/// Check if the given NAL type represents a keyframe (IRAP).
///
/// HEVC has multiple IRAP (Intra Random Access Point) types:
/// - BLA (16-18): Broken Link Access
/// - IDR (19-20): Instantaneous Decoder Refresh
/// - CRA (21): Clean Random Access
pub fn is_hevc_keyframe_nal_type(nal_type: u8) -> (keyframe: bool)
    ensures
        keyframe == is_irap(nal_type),
{
    matches!(
        nal_type,
        nal_type::BLA_W_LP
            | nal_type::BLA_W_RADL
            | nal_type::BLA_N_LP
            | nal_type::IDR_W_RADL
            | nal_type::IDR_N_LP
            | nal_type::CRA_NUT
    )
}

/// Length-prefix one NAL into a sample, unless it is a VPS, SPS or PPS.
fn push_sample_nal(nal: &[u8], out: &mut Vec<u8>)
    ensures
        final(out)@ == if is_parameter_set(nal@) {
            old(out)@
        } else {
            old(out)@ + prefixed(nal@)
        },
{
    if matches!(hevc_nal_type(nal), nal_type::VPS | nal_type::SPS | nal_type::PPS) {
        return;
    }
    put_prefixed(out, nal);
}

/// Convert Annex B formatted HEVC data to hvcC format (length-prefixed).
///
/// Same conversion as H.264: replaces start codes with 4-byte NAL lengths.
pub fn hevc_annexb_to_hvcc(data: &[u8]) -> (sample: Vec<u8>)
    ensures
        sample@ == hvcc_sample(data@),
{
    let mut out: Vec<u8> = Vec::with_capacity(data.len().saturating_add(4));
    hevc_annexb_to_hvcc_into(data, &mut out);
    assert(out@ =~= hvcc_sample(data@));
    out
}

/// Append the HVCC-converted bytes onto `out`. Parameter sets are left out:
/// an `hvc1` sample entry carries them, its samples must not.
pub fn hevc_annexb_to_hvcc_into(data: &[u8], out: &mut Vec<u8>)
    ensures
        final(out)@ == old(out)@ + hvcc_sample(data@),
{
    let ghost before = out@;
    let ghost present = |nal: Seq<u8>| nal.len() > 0;
    let ghost kept = |nal: Seq<u8>| !is_parameter_set(nal);
    let ghost mut seen: Seq<Seq<u8>> = Seq::empty();
    let mut iter = AnnexBNalIter::new(data);
    let mut found = false;
    proof {
        reveal(Seq::filter);
        assert(seen + iter.remaining() =~= nal_units(data@));
        assert(out@ =~= before + length_prefixed(seen.filter(present).filter(kept)));
    }
    loop
        invariant
            iter.well_formed(),
            present == (|nal: Seq<u8>| nal.len() > 0),
            kept == (|nal: Seq<u8>| !is_parameter_set(nal)),
            nal_units(data@) == seen + iter.remaining(),
            out@ == before + length_prefixed(seen.filter(present).filter(kept)),
            found == (seen.filter(present).len() > 0),
        ensures
            iter.remaining().len() == 0,
        decreases iter.remaining().len(),
    {
        let ghost rest = iter.remaining();
        match iter.next_nal() {
            Some(nal) => {
                proof {
                    lemma_filter_push(seen, nal@, present);
                    assert(seen + rest =~= seen.push(nal@) + iter.remaining());
                }
                if !nal.is_empty() {
                    found = true;
                    push_sample_nal(nal, out);
                    proof {
                        let before_nal = seen.filter(present);
                        lemma_filter_push(before_nal, nal@, kept);
                        lemma_length_prefixed_push(before_nal.filter(kept), nal@);
                        lemma_concat_assoc(
                            before,
                            length_prefixed(before_nal.filter(kept)),
                            prefixed(nal@),
                        );
                    }
                }
                proof {
                    seen = seen.push(nal@);
                }
            },
            None => {
                assert(seen + rest =~= seen + iter.remaining());
                break;
            },
        }
    }
    assert(seen =~= nal_units(data@));

    // Fallback: if no start codes found, treat entire input as single NAL
    if !found {
        proof {
            reveal(Seq::filter);
            assert(out@ =~= before);
        }
        if !data.is_empty() {
            push_sample_nal(data, out);
            proof {
                lemma_filter_push(Seq::empty(), data@, kept);
                assert(Seq::<Seq<u8>>::empty().push(data@) =~= seq![data@]);
                lemma_length_prefixed_push(Seq::empty(), data@);
                assert(length_prefixed(seq![data@]) =~= prefixed(data@));
            }
        }
        assert(out@ =~= before + hvcc_sample(data@));
    }
}

/// A later NAL unit does not change which one of its type comes first.
proof fn lemma_first_of_kind_stays(seen: Seq<Seq<u8>>, rest: Seq<Seq<u8>>, kind: u8)
    requires
        first_of_kind(seen, kind) is Some,
    ensures
        first_of_kind(seen + rest, kind) == first_of_kind(seen, kind),
    decreases rest.len(),
{
    if rest.len() == 0 {
        assert(seen + rest =~= seen);
    } else {
        lemma_first_of_kind_stays(seen, rest.drop_last(), kind);
        assert((seen + rest).drop_last() =~= seen + rest.drop_last());
    }
}

/// Whether `config` is the configuration of `data`: the first VPS, SPS and PPS
/// where all three are there, and `None` where one is missing.
pub open spec fn is_config_of(data: Seq<u8>, config: Option<HevcConfig>) -> bool {
    match config {
        Some(found) => {
            &&& first_of_kind(nal_units(data), nal_type::VPS) == Some(found.vps@)
            &&& first_of_kind(nal_units(data), nal_type::SPS) == Some(found.sps@)
            &&& first_of_kind(nal_units(data), nal_type::PPS) == Some(found.pps@)
        },
        None => {
            ||| first_of_kind(nal_units(data), nal_type::VPS) is None
            ||| first_of_kind(nal_units(data), nal_type::SPS) is None
            ||| first_of_kind(nal_units(data), nal_type::PPS) is None
        },
    }
}

/// Extract HEVC configuration (VPS/SPS/PPS) from Annex B keyframe data.
///
/// Scans the NAL units in the provided data and extracts the first
/// VPS (type 32), SPS (type 33), and PPS (type 34) found.
///
/// # Arguments
///
/// * `data` - Annex B formatted data containing at least one keyframe
///
/// # Returns
///
/// - `Some(HevcConfig)` if VPS, SPS, and PPS are all found
/// - `None` if any of the three is missing
///
/// # Example
///
/// ```
/// use muxide::codec::h265::extract_hevc_config;
///
/// // Minimal HEVC keyframe with VPS, SPS, PPS, IDR
/// let keyframe = [
///     0x00, 0x00, 0x00, 0x01, 0x40, 0x01, 0x0c, 0x01,  // VPS (type 32)
///     0x00, 0x00, 0x00, 0x01, 0x42, 0x01, 0x01, 0x01,  // SPS (type 33)
///     0x00, 0x00, 0x00, 0x01, 0x44, 0x01, 0xc0, 0x73,  // PPS (type 34)
///     0x00, 0x00, 0x00, 0x01, 0x26, 0x01, 0xaf, 0x00,  // IDR (type 19)
/// ];
///
/// let config = extract_hevc_config(&keyframe).expect("should have config");
/// assert_eq!(config.vps[0] >> 1 & 0x3f, 32);  // VPS NAL type
/// ```
pub fn extract_hevc_config(data: &[u8]) -> (config: Option<HevcConfig>)
    ensures
        is_config_of(data@, config),
{
    let ghost units = nal_units(data@);
    let ghost mut seen: Seq<Seq<u8>> = Seq::empty();
    let mut vps: Option<&[u8]> = None;
    let mut sps: Option<&[u8]> = None;
    let mut pps: Option<&[u8]> = None;
    let mut iter = AnnexBNalIter::new(data);
    proof {
        assert(seen + iter.remaining() =~= units);
    }
    loop
        invariant
            iter.well_formed(),
            units == seen + iter.remaining(),
            holds_first(vps, seen, nal_type::VPS),
            holds_first(sps, seen, nal_type::SPS),
            holds_first(pps, seen, nal_type::PPS),
        ensures
            iter.remaining().len() == 0 || (vps is Some && sps is Some && pps is Some),
        decreases iter.remaining().len(),
    {
        let ghost rest = iter.remaining();
        match iter.next_nal() {
            Some(nal) => {
                proof {
                    assert(seen + rest =~= seen.push(nal@) + iter.remaining());
                    assert(seen.push(nal@).drop_last() =~= seen);
                    seen = seen.push(nal@);
                }
                if nal.is_empty() {
                    continue;
                }
                let kind: u8 = hevc_nal_type(nal);
                match kind {
                    nal_type::VPS if vps.is_none() => {
                        vps = Some(nal);
                    },
                    nal_type::SPS if sps.is_none() => {
                        sps = Some(nal);
                    },
                    nal_type::PPS if pps.is_none() => {
                        pps = Some(nal);
                    },
                    _ => {},
                }

                // Early exit once we have all three
                if vps.is_some() && sps.is_some() && pps.is_some() {
                    break;
                }
            },
            None => {
                assert(seen + rest =~= seen + iter.remaining());
                break;
            },
        }
    }
    proof {
        let rest = iter.remaining();
        if rest.len() == 0 {
            assert(seen =~= units);
        } else {
            lemma_first_of_kind_stays(seen, rest, nal_type::VPS);
            lemma_first_of_kind_stays(seen, rest, nal_type::SPS);
            lemma_first_of_kind_stays(seen, rest, nal_type::PPS);
        }
    }

    match (vps, sps, pps) {
        (Some(vps_data), Some(sps_data), Some(pps_data)) => Some(
            HevcConfig {
                vps: slice_to_vec(vps_data),
                sps: slice_to_vec(sps_data),
                pps: slice_to_vec(pps_data),
            },
        ),
        _ => None,
    }
}

/// `slot` holds the first NAL unit of type `kind` among `nals`.
spec fn holds_first(slot: Option<&[u8]>, nals: Seq<Seq<u8>>, kind: u8) -> bool {
    match slot {
        Some(nal) => first_of_kind(nals, kind) == Some(nal@),
        None => first_of_kind(nals, kind) is None,
    }
}

/// Whether `data` holds a NAL unit that starts a random access point.
pub open spec fn is_keyframe(data: Seq<u8>) -> bool {
    exists|i: int|
        0 <= i < nal_units(data).len() && nal_units(data)[i].len() > 0 && is_irap(
            nal_kind(#[trigger] nal_units(data)[i]),
        )
}

/// Check if the given Annex B data represents an HEVC keyframe (IRAP).
pub fn is_hevc_keyframe(data: &[u8]) -> (keyframe: bool)
    requires
        has_start_code(data@),
    ensures
        keyframe == is_keyframe(data@),
{
    let ghost units = nal_units(data@);
    let ghost mut seen: Seq<Seq<u8>> = Seq::empty();
    let mut iter = AnnexBNalIter::new(data);
    proof {
        assert(seen + iter.remaining() =~= units);
    }
    loop
        invariant
            iter.well_formed(),
            units == nal_units(data@),
            units == seen + iter.remaining(),
            forall|i: int|
                0 <= i < seen.len() ==> !(seen[i].len() > 0 && is_irap(
                    nal_kind(#[trigger] seen[i]),
                )),
        ensures
            iter.remaining().len() == 0,
        decreases iter.remaining().len(),
    {
        let ghost rest = iter.remaining();
        match iter.next_nal() {
            Some(nal) => {
                proof {
                    assert(seen + rest =~= seen.push(nal@) + iter.remaining());
                    assert(units[seen.len() as int] == nal@);
                }
                if !nal.is_empty() && is_hevc_keyframe_nal_type(hevc_nal_type(nal)) {
                    return true;
                }
                proof {
                    seen = seen.push(nal@);
                }
            },
            None => {
                assert(seen + rest =~= seen + iter.remaining());
                break;
            },
        }
    }
    proof {
        assert(seen =~= units);
        // At least one NAL unit was looked at.
        lemma_nal_units_nonempty(data@);
        assert(units.len() > 0);
    }
    false
}

/// Conversion replaces start codes by lengths and leaves out the parameter
/// sets.
pub proof fn law_start_codes_become_lengths(units: Seq<Seq<u8>>)
    requires
        units.len() > 0,
        forall|i: int|
            0 <= i < units.len() ==> (#[trigger] units[i]).len() > 0 && !has_start_code(units[i]),
    ensures
        hvcc_sample(annexb(units)) == length_prefixed(
            units.filter(|nal: Seq<u8>| !is_parameter_set(nal)),
        ),
{
    law_sample_nals_of_annexb(units);
}

/// What can be read back from a sample are the NAL units of its frame but for
/// the parameter sets, of which there is none, as long as the length of the
/// frame fits into four bytes.
pub proof fn law_samples_hold_no_parameter_sets(data: Seq<u8>)
    requires
        data.len() < 0x1_0000_0000,
    ensures
        split_prefixed(hvcc_sample(data)) == Some(
            sample_nals(data).filter(|nal: Seq<u8>| !is_parameter_set(nal)),
        ),
        forall|i: int|
            0 <= i < split_prefixed(hvcc_sample(data)).unwrap().len() ==> !is_parameter_set(
                #[trigger] split_prefixed(hvcc_sample(data)).unwrap()[i],
            ),
{
    let keep = |nal: Seq<u8>| !is_parameter_set(nal);
    let nals = sample_nals(data);
    lemma_sample_nals_len(data);
    assert forall|i: int| 0 <= i < nals.filter(keep).len() implies (#[trigger] nals.filter(
        keep,
    )[i]).len() < 0x1_0000_0000 && !is_parameter_set(nals.filter(keep)[i]) by {
        lemma_filtered_from(nals, keep, i);
    }
    law_length_prefix_round_trip(nals.filter(keep));
}

/// The first NAL unit of a type is of that type, is not empty, and comes
/// before all others of that type; there is none only where no NAL unit is.
pub proof fn law_first_of_kind(nals: Seq<Seq<u8>>, kind: u8)
    ensures
        match first_of_kind(nals, kind) {
            Some(nal) => {
                &&& nal.len() > 0
                &&& nal_kind(nal) == kind
                &&& exists|i: int|
                    {
                        &&& 0 <= i < nals.len()
                        &&& #[trigger] nals[i] == nal
                        &&& forall|k: int|
                            0 <= k < i ==> !((#[trigger] nals[k]).len() > 0 && nal_kind(nals[k])
                                == kind)
                    }
            },
            None => forall|k: int|
                0 <= k < nals.len() ==> !((#[trigger] nals[k]).len() > 0 && nal_kind(nals[k])
                    == kind),
        },
    decreases nals.len(),
{
    if nals.len() > 0 {
        let shorter = nals.drop_last();
        law_first_of_kind(shorter, kind);
        match first_of_kind(shorter, kind) {
            Some(nal) => {
                let i = choose|i: int|
                    {
                        &&& 0 <= i < shorter.len()
                        &&& #[trigger] shorter[i] == nal
                        &&& forall|k: int|
                            0 <= k < i ==> !((#[trigger] shorter[k]).len() > 0 && nal_kind(
                                shorter[k],
                            ) == kind)
                    };
                assert(nals[i] == nal);
                assert forall|k: int| 0 <= k < i implies !((#[trigger] nals[k]).len() > 0
                    && nal_kind(nals[k]) == kind) by {
                    assert(shorter[k] == nals[k]);
                }
            },
            None => {
                assert forall|k: int| 0 <= k < nals.len() - 1 implies !((#[trigger] nals[k]).len()
                    > 0 && nal_kind(nals[k]) == kind) by {
                    assert(shorter[k] == nals[k]);
                }
                assert(nals[nals.len() - 1] == nals.last());
            },
        }
    }
}

/// A payload in which 00 00 03 stands nowhere is kept as it is.
pub proof fn law_unescaped_payload_stays(payload: Seq<u8>)
    requires
        forall|i: int|
            0 <= i && i + 2 < payload.len() ==> !(#[trigger] payload[i] == 0 && payload[i + 1] == 0
                && payload[i + 2] == 3),
    ensures
        unescaped(payload) == payload,
    decreases payload.len(),
{
    if payload.len() > 0 {
        let shorter = payload.drop_last();
        assert forall|i: int| 0 <= i && i + 2 < shorter.len() implies !(#[trigger] shorter[i] == 0
            && shorter[i + 1] == 0 && shorter[i + 2] == 3) by {
            assert(shorter[i] == payload[i]);
        }
        law_unescaped_payload_stays(shorter);
        if payload.len() > 2 {
            let i = payload.len() - 3;
            assert(!(payload[i] == 0 && payload[i + 1] == 0 && payload[i + 2] == 3));
        }
        assert(shorter.push(payload.last()) =~= payload);
    }
}

/// Removing emulation-prevention bytes adds none.
proof fn lemma_unescaped_len(payload: Seq<u8>)
    ensures
        unescaped(payload).len() <= payload.len(),
    decreases payload.len(),
{
    if payload.len() > 0 {
        lemma_unescaped_len(payload.drop_last());
    }
}

/// An SPS that ends before its profile declares profile 1 at level 93, in
/// space 0 and the main tier, with no flag set.
pub proof fn law_short_sps_falls_back(sps: Seq<u8>)
    requires
        sps.len() <= 3,
    ensures
        declared_ptl(sps).profile_space == 0,
        !declared_ptl(sps).tier_flag,
        declared_ptl(sps).profile_idc == 1,
        declared_ptl(sps).compatibility_flags@ == seq![0u8, 0, 0, 0],
        declared_ptl(sps).constraint_flags@ == seq![0u8, 0, 0, 0, 0, 0],
        declared_ptl(sps).level_idc == 93,
{
    lemma_unescaped_len(sps.skip(header_len(sps)));
    assert(rbsp(sps).len() <= 3);
    assert(declared_ptl(sps).compatibility_flags@ =~= seq![0u8, 0, 0, 0]);
    assert(declared_ptl(sps).constraint_flags@ =~= seq![0u8, 0, 0, 0, 0, 0]);
}

/// The constraint bytes that a codec string keeps are those through the last
/// one that is set.
pub proof fn law_constraints_end_at_last_set(bytes: Seq<u8>)
    ensures
        without_trailing_zeros(bytes).len() <= bytes.len(),
        without_trailing_zeros(bytes) == bytes.take(without_trailing_zeros(bytes).len() as int),
        without_trailing_zeros(bytes).len() > 0 ==> without_trailing_zeros(bytes).last() != 0,
        forall|i: int|
            without_trailing_zeros(bytes).len() <= i < bytes.len() ==> #[trigger] bytes[i] == 0,
    decreases bytes.len(),
{
    if bytes.len() == 0 || bytes.last() != 0 {
        assert(bytes.take(bytes.len() as int) =~= bytes);
    } else {
        let shorter = bytes.drop_last();
        law_constraints_end_at_last_set(shorter);
        let kept = without_trailing_zeros(bytes);
        assert(bytes.take(kept.len() as int) =~= shorter.take(kept.len() as int));
        assert forall|i: int| kept.len() <= i < bytes.len() implies #[trigger] bytes[i] == 0 by {
            if i < shorter.len() {
                assert(shorter[i] == bytes[i]);
            }
        }
    }
}

} // verus!
