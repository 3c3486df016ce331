//! Four-character codes of boxes, brands and handlers.

use vstd::prelude::*;

verus! {

/// File type box.
pub const FTYP: [u8; 4] = ['f' as u8, 't' as u8, 'y' as u8, 'p' as u8];

/// Brand: ISO base media, fifth version.
pub const ISO5: [u8; 4] = ['i' as u8, 's' as u8, 'o' as u8, '5' as u8];

/// Brand: ISO base media, sixth version.
pub const ISO6: [u8; 4] = ['i' as u8, 's' as u8, 'o' as u8, '6' as u8];

/// Brand: MP4, first version.
pub const MP41: [u8; 4] = ['m' as u8, 'p' as u8, '4' as u8, '1' as u8];

/// Movie box.
pub const MOOV: [u8; 4] = ['m' as u8, 'o' as u8, 'o' as u8, 'v' as u8];

/// Movie header box.
pub const MVHD: [u8; 4] = ['m' as u8, 'v' as u8, 'h' as u8, 'd' as u8];

/// Movie extends box.
pub const MVEX: [u8; 4] = ['m' as u8, 'v' as u8, 'e' as u8, 'x' as u8];

/// Track extends box.
pub const TREX: [u8; 4] = ['t' as u8, 'r' as u8, 'e' as u8, 'x' as u8];

/// Track box.
pub const TRAK: [u8; 4] = ['t' as u8, 'r' as u8, 'a' as u8, 'k' as u8];

/// Track header box.
pub const TKHD: [u8; 4] = ['t' as u8, 'k' as u8, 'h' as u8, 'd' as u8];

/// Media box.
pub const MDIA: [u8; 4] = ['m' as u8, 'd' as u8, 'i' as u8, 'a' as u8];

/// Media header box.
pub const MDHD: [u8; 4] = ['m' as u8, 'd' as u8, 'h' as u8, 'd' as u8];

/// Handler box.
pub const HDLR: [u8; 4] = ['h' as u8, 'd' as u8, 'l' as u8, 'r' as u8];

/// Handler type of video.
pub const VIDE: [u8; 4] = ['v' as u8, 'i' as u8, 'd' as u8, 'e' as u8];

/// Media information box.
pub const MINF: [u8; 4] = ['m' as u8, 'i' as u8, 'n' as u8, 'f' as u8];

/// Video media header box.
pub const VMHD: [u8; 4] = ['v' as u8, 'm' as u8, 'h' as u8, 'd' as u8];

/// Data information box.
pub const DINF: [u8; 4] = ['d' as u8, 'i' as u8, 'n' as u8, 'f' as u8];

/// Data reference box.
pub const DREF: [u8; 4] = ['d' as u8, 'r' as u8, 'e' as u8, 'f' as u8];

/// Data entry URL box.
pub const URL: [u8; 4] = ['u' as u8, 'r' as u8, 'l' as u8, ' ' as u8];

/// Sample table box.
pub const STBL: [u8; 4] = ['s' as u8, 't' as u8, 'b' as u8, 'l' as u8];

/// Sample description box.
pub const STSD: [u8; 4] = ['s' as u8, 't' as u8, 's' as u8, 'd' as u8];

/// Time-to-sample box.
pub const STTS: [u8; 4] = ['s' as u8, 't' as u8, 't' as u8, 's' as u8];

/// Sample-to-chunk box.
pub const STSC: [u8; 4] = ['s' as u8, 't' as u8, 's' as u8, 'c' as u8];

/// Sample size box.
pub const STSZ: [u8; 4] = ['s' as u8, 't' as u8, 's' as u8, 'z' as u8];

/// Chunk offset box.
pub const STCO: [u8; 4] = ['s' as u8, 't' as u8, 'c' as u8, 'o' as u8];

/// H.264 sample entry.
pub const AVC1: [u8; 4] = ['a' as u8, 'v' as u8, 'c' as u8, '1' as u8];

/// H.264 configuration box.
pub const AVCC: [u8; 4] = ['a' as u8, 'v' as u8, 'c' as u8, 'C' as u8];

/// H.265 sample entry.
pub const HVC1: [u8; 4] = ['h' as u8, 'v' as u8, 'c' as u8, '1' as u8];

/// H.265 configuration box.
pub const HVCC: [u8; 4] = ['h' as u8, 'v' as u8, 'c' as u8, 'C' as u8];

/// AV1 sample entry.
pub const AV01: [u8; 4] = ['a' as u8, 'v' as u8, '0' as u8, '1' as u8];

/// AV1 configuration box.
pub const AV1C: [u8; 4] = ['a' as u8, 'v' as u8, '1' as u8, 'C' as u8];

/// VP9 sample entry.
pub const VP09: [u8; 4] = ['v' as u8, 'p' as u8, '0' as u8, '9' as u8];

/// VP9 configuration box.
pub const VPCC: [u8; 4] = ['v' as u8, 'p' as u8, 'c' as u8, 'C' as u8];

/// Colour information box.
pub const COLR: [u8; 4] = ['c' as u8, 'o' as u8, 'l' as u8, 'r' as u8];

/// Colour type with code points.
pub const NCLX: [u8; 4] = ['n' as u8, 'c' as u8, 'l' as u8, 'x' as u8];

/// Movie fragment box.
pub const MOOF: [u8; 4] = ['m' as u8, 'o' as u8, 'o' as u8, 'f' as u8];

/// Movie fragment header box.
pub const MFHD: [u8; 4] = ['m' as u8, 'f' as u8, 'h' as u8, 'd' as u8];

/// Track fragment box.
pub const TRAF: [u8; 4] = ['t' as u8, 'r' as u8, 'a' as u8, 'f' as u8];

/// Track fragment header box.
pub const TFHD: [u8; 4] = ['t' as u8, 'f' as u8, 'h' as u8, 'd' as u8];

/// Track fragment decode time box.
pub const TFDT: [u8; 4] = ['t' as u8, 'f' as u8, 'd' as u8, 't' as u8];

/// Track run box.
pub const TRUN: [u8; 4] = ['t' as u8, 'r' as u8, 'u' as u8, 'n' as u8];

/// Media data box.
pub const MDAT: [u8; 4] = ['m' as u8, 'd' as u8, 'a' as u8, 't' as u8];

} // verus!
