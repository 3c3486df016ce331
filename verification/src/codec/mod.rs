//! Elementary streams of the codecs that a fragment can carry.

pub mod av1;
pub mod common;
pub mod h264;
pub mod h265;
pub mod vp9;
