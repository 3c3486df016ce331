//! Fragmented MP4 (fMP4) support for streaming applications.
//!
//! Fragmented MP4 splits the container into an init segment (ftyp + moov)
//! and media segments (moof + mdat). This is essential for:
//! - DASH streaming
//! - HLS with fMP4
//! - Low-latency live streaming
//!
//! # Example
//!
//! ```
//! use muxide::api::VideoCodec;
//! use muxide::fragmented::{FragmentConfig, FragmentedMuxer, SampleSpec};
//!
//! let config = FragmentConfig {
//!     codec: VideoCodec::H264,
//!     width: 1920,
//!     height: 1080,
//!     timescale: 90_000,
//!     sps: vec![0x67, 0x42, 0x00, 0x1e, 0xda, 0x02, 0x80, 0x2d, 0x8b, 0x11],
//!     pps: vec![0x68, 0xce, 0x38, 0x80],
//!     ..Default::default()
//! };
//!
//! let muxer = FragmentedMuxer::new(config);
//!
//! let mut out = Vec::new();
//! muxer.write_init(&mut out);
//! // send `out` to client; reuse the buffer when ready.
//!
//! let frame = vec![0x00, 0x00, 0x00, 0x01, 0x65, 0xaa, 0xbb];
//! let samples = [SampleSpec { frame: &frame, pts: 0, dts: 0, is_sync: true }];
//! out.clear();
//! muxer.write_fragment(&mut out, 1, 0, &samples).unwrap();
//! ```

use vstd::prelude::*;
use vstd::string::StringExecFns;

use crate::api::VideoCodec;
use crate::codec::vp9::Vp9Config;
use crate::fragmented::init::{init_bytes, write_ftyp, write_moov};
use crate::fragmented::media::{
    append_fragment, duration, fragment_bytes, offset_fits, sample_duration,
};
use crate::text::{append_decimal, decimal};

pub mod entry_laws;
pub mod init;
pub mod init_laws;
pub mod laws;
pub mod media;

verus! {

/// Errors that can occur during fragmented MP4 muxing.
#[derive(Debug, Clone, PartialEq)]
pub enum FragmentedError {
    /// A sample has a smaller DTS than the one before it.
    NonMonotonicDts { prev_dts: u64, curr_dts: u64 },
}

impl FragmentedError {
    /// The text of [`FragmentedError::message`].
    pub open spec fn message_text(self) -> Seq<char> {
        match self {
            FragmentedError::NonMonotonicDts { prev_dts, curr_dts } => {
                "DTS values must be non-decreasing: prev="@ + decimal(prev_dts as nat) + ", curr="@
                    + decimal(curr_dts as nat)
            },
        }
    }

    /// The error in words.
    pub fn message(&self) -> (text: String)
        ensures
            text@ == self.message_text(),
    {
        match self {
            FragmentedError::NonMonotonicDts { prev_dts, curr_dts } => {
                let mut text: String = String::new();
                text.append("DTS values must be non-decreasing: prev=");
                assert(text@ =~= "DTS values must be non-decreasing: prev="@);
                append_decimal(&mut text, *prev_dts);
                text.append(", curr=");
                append_decimal(&mut text, *curr_dts);
                text
            },
        }
    }
}

/// Colour description of a track, as code points of ITU-T H.273.
#[derive(Debug, Clone, Copy, PartialEq, Eq)]
pub struct ColorInfo {
    /// Colour primaries.
    pub primaries: u16,
    /// Transfer characteristics.
    pub transfer: u16,
    /// Matrix coefficients.
    pub matrix: u16,
    /// Whether samples use the full range.
    pub full_range: bool,
}

/// Configuration for fragmented MP4 output.
#[derive(Debug, Clone)]
pub struct FragmentConfig {
    /// Video codec; selects sample-entry box, conversion path, and required parameter sets.
    pub codec: VideoCodec,
    /// Video width in pixels.
    pub width: u32,
    /// Video height in pixels.
    pub height: u32,
    /// Media timescale (typically 90000 for video).
    pub timescale: u32,
    /// SPS NAL unit (H.264 / H.265 required for init segment).
    pub sps: Vec<u8>,
    /// PPS NAL unit (H.264 / H.265 required for init segment).
    pub pps: Vec<u8>,
    /// VPS NAL unit (H.265 required for init segment).
    pub vps: Option<Vec<u8>>,
    /// Sequence Header OBU (AV1 required for init segment).
    pub av1_sequence_header: Option<Vec<u8>>,
    /// VP9 configuration (extracted from first keyframe).
    pub vp9_config: Option<Vp9Config>,
    /// Colour description; where set, the sample entry carries it in a `colr` box.
    pub color: Option<ColorInfo>,
}

impl Default for FragmentConfig {
    /// Example SPS/PPS for a 1080p H.264 stream. Real streams need the
    /// parameter sets of their encoder.
    fn default() -> (config: Self)
        ensures
            config.codec == VideoCodec::H264,
            config.width == 1920,
            config.height == 1080,
            config.timescale == 90000,
            config.sps@ == seq![0x67u8, 0x42, 0x00, 0x1e, 0xda, 0x02, 0x80, 0x2d, 0x8b, 0x11],
            config.pps@ == seq![0x68u8, 0xce, 0x38, 0x80],
            config.vps is None,
            config.av1_sequence_header is None,
            config.vp9_config is None,
            config.color is None,
    {
        Self {
            codec: VideoCodec::H264,
            width: 1920,
            height: 1080,
            timescale: 90000,
            sps: vec![0x67, 0x42, 0x00, 0x1e, 0xda, 0x02, 0x80, 0x2d, 0x8b, 0x11],
            pps: vec![0x68, 0xce, 0x38, 0x80],
            vps: None,
            av1_sequence_header: None,
            vp9_config: None,
            color: None,
        }
    }
}

/// One sample to write into a fragment. `frame` is in the codec's wire format
/// (Annex B for H.264/H.265, OBU for AV1/VP9); the muxer converts as it writes.
#[derive(Debug, Clone, Copy)]
pub struct SampleSpec<'a> {
    pub frame: &'a [u8],
    pub pts: u64,
    pub dts: u64,
    pub is_sync: bool,
}

/// Whether sample `i` has a smaller DTS than the one before it.
pub open spec fn dts_drops_at(samples: Seq<SampleSpec<'_>>, i: int) -> bool {
    0 < i < samples.len() && samples[i].dts < samples[i - 1].dts
}

/// Whether no sample has a smaller DTS than the one before it.
pub open spec fn dts_non_decreasing(samples: Seq<SampleSpec<'_>>) -> bool {
    forall|i: int| !#[trigger] dts_drops_at(samples, i)
}

/// Whether sample `i` is the first with a smaller DTS than the one before it.
pub open spec fn dts_first_drops_at(samples: Seq<SampleSpec<'_>>, i: int) -> bool {
    &&& dts_drops_at(samples, i)
    &&& forall|k: int| k < i ==> !#[trigger] dts_drops_at(samples, k)
}

/// Whether `result` and the buffer `after` are what comes of writing a
/// fragment of `samples` to the buffer `before`.
pub open spec fn is_outcome(
    config: FragmentConfig,
    before: Seq<u8>,
    after: Seq<u8>,
    sequence_number: u32,
    base_media_decode_time: u64,
    samples: Seq<SampleSpec<'_>>,
    result: Result<(), FragmentedError>,
) -> bool {
    match result {
        Ok(()) => {
            &&& dts_non_decreasing(samples)
            &&& after == if samples.len() == 0 {
                before
            } else {
                before + fragment_bytes(
                    config.codec,
                    sequence_number,
                    base_media_decode_time,
                    samples,
                )
            }
        },
        Err(FragmentedError::NonMonotonicDts { prev_dts, curr_dts }) => {
            &&& exists|i: int|
                {
                    &&& #[trigger] dts_first_drops_at(samples, i)
                    &&& prev_dts == samples[i - 1].dts
                    &&& curr_dts == samples[i].dts
                }
            &&& after == before
        },
    }
}

/// The decode time that follows the last of `samples`.
pub open spec fn time_after(samples: Seq<SampleSpec<'_>>) -> int {
    samples.last().dts + duration(samples, samples.len() - 1)
}

/// The `base_media_decode_time` the next fragment should carry to continue
/// the timeline that `write_fragment(samples)` wrote.
pub fn next_base_media_decode_time(samples: &[SampleSpec<'_>]) -> (time: Option<u64>)
    requires
        samples@.len() > 0 ==> time_after(samples@) <= u64::MAX,
    ensures
        match time {
            Some(next) => samples@.len() > 0 && next == time_after(samples@),
            None => samples@.len() == 0,
        },
{
    if samples.is_empty() {
        return None;
    }
    let last_idx: usize = samples.len() - 1;
    Some(samples[last_idx].dts + sample_duration(samples, last_idx) as u64)
}

/// Fragmented MP4 muxer. Per-fragment counters are caller-managed so the muxer
/// stays immutable across fragments and is safe to share.
#[derive(Debug, Clone)]
pub struct FragmentedMuxer {
    config: FragmentConfig,
}

impl View for FragmentedMuxer {
    type V = FragmentConfig;

    closed spec fn view(&self) -> FragmentConfig {
        self.config
    }
}

impl FragmentedMuxer {
    /// A muxer for streams of the given configuration.
    pub fn new(config: FragmentConfig) -> (muxer: Self)
        ensures
            muxer@ == config,
    {
        Self { config }
    }

    /// The configuration of the streams.
    pub fn config(&self) -> (config: &FragmentConfig)
        ensures
            *config == self@,
    {
        &self.config
    }

    /// Append the init segment (ftyp + moov) to `out`.
    pub fn write_init(&self, out: &mut Vec<u8>)
        ensures
            final(out)@ == old(out)@ + init_bytes(self@),
    {
        write_ftyp(out);
        write_moov(out, &self.config);
        assert(out@ =~= old(out)@ + init_bytes(self@));
    }

    /// Append one media fragment (moof + mdat) to `out`. Sample bytes are
    /// converted into the mdat in a single pass; per-sample sizes are
    /// patched into the trun region as they're discovered. Without samples
    /// nothing is written; where a DTS drops, nothing is written either and
    /// the first such pair is reported.
    pub fn write_fragment(
        &self,
        out: &mut Vec<u8>,
        sequence_number: u32,
        base_media_decode_time: u64,
        samples: &[SampleSpec<'_>],
    ) -> (result: Result<(), FragmentedError>)
        requires
            dts_non_decreasing(samples@) ==> forall|i: int|
                0 <= i < samples@.len() ==> offset_fits(#[trigger] samples@[i]),
        ensures
            is_outcome(
                self@,
                old(out)@,
                final(out)@,
                sequence_number,
                base_media_decode_time,
                samples@,
                result,
            ),
    {
        if samples.is_empty() {
            return Ok(());
        }
        let mut i: usize = 1;
        while i < samples.len()
            invariant
                1 <= i <= samples@.len(),
                forall|k: int| k < i ==> !#[trigger] dts_drops_at(samples@, k),
            decreases samples@.len() - i,
        {
            if samples[i].dts < samples[i - 1].dts {
                assert(dts_first_drops_at(samples@, i as int));
                return Err(
                    FragmentedError::NonMonotonicDts {
                        prev_dts: samples[i - 1].dts,
                        curr_dts: samples[i].dts,
                    },
                );
            }
            i += 1;
        }
        append_fragment(
            self.config.codec,
            out,
            sequence_number,
            base_media_decode_time,
            samples,
        );
        Ok(())
    }
}

} // verus!
