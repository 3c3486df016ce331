//! Types shared by the muxers.

use vstd::prelude::*;

verus! {

/// Video codecs that a track can carry.
#[derive(Debug, Clone, Copy, PartialEq, Eq)]
pub enum VideoCodec {
    /// H.264/AVC, delivered as Annex B.
    H264,
    /// H.265/HEVC, delivered as Annex B.
    H265,
    /// AV1, delivered as an OBU stream.
    Av1,
    /// VP9, delivered as raw frames.
    Vp9,
}

} // verus!
