//! VP9 codec configuration.

use vstd::prelude::*;

verus! {

/// VP9 codec configuration, as the `vpcC` box carries it.
#[derive(Debug, Clone, PartialEq, Eq)]
pub struct Vp9Config {
    /// Frame width in pixels.
    pub width: u32,
    /// Frame height in pixels.
    pub height: u32,
    /// Bitstream profile.
    pub profile: u8,
    /// Bits per sample.
    pub bit_depth: u8,
    /// Colour space.
    pub color_space: u8,
    /// Transfer function.
    pub transfer_function: u8,
    /// Matrix coefficients.
    pub matrix_coefficients: u8,
    /// Level.
    pub level: u8,
    /// 1 where samples use the full range, else 0.
    pub full_range_flag: u8,
}

} // verus!
