//! H.265 NAL unit type constants.

use vstd::prelude::*;

verus! {

/// Coded slice segment of a BLA picture
pub const BLA_W_LP: u8 = 16;

/// Coded slice segment of a BLA picture
pub const BLA_W_RADL: u8 = 17;

/// Coded slice segment of a BLA picture
pub const BLA_N_LP: u8 = 18;

/// IDR with RADL pictures
pub const IDR_W_RADL: u8 = 19;

/// IDR without leading pictures
pub const IDR_N_LP: u8 = 20;

/// Clean Random Access picture
pub const CRA_NUT: u8 = 21;

/// Video Parameter Set
pub const VPS: u8 = 32;

/// Sequence Parameter Set
pub const SPS: u8 = 33;

/// Picture Parameter Set
pub const PPS: u8 = 34;

/// Access unit delimiter
pub const AUD: u8 = 35;

/// End of sequence
pub const EOS: u8 = 36;

/// End of bitstream
pub const EOB: u8 = 37;

/// Filler data
pub const FD: u8 = 38;

/// Supplemental enhancement information (prefix)
pub const PREFIX_SEI: u8 = 39;

/// Supplemental enhancement information (suffix)
pub const SUFFIX_SEI: u8 = 40;

} // verus!
