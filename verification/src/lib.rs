//! Fragmented MP4 (fMP4) muxing.
//!
//! A fragmented MP4 stream is one init segment (`ftyp` + `moov`) followed by
//! media segments (`moof` + `mdat`). This crate turns encoded video samples
//! into those bytes: [`fragmented`] lays out the boxes, [`codec`] reads the
//! elementary streams that go into them, and [`bytes`], [`boxes`], [`fourcc`]
//! and [`text`] hold the encodings that both are written in.
//!
//! Contracts state the exact bytes that a function appends. What follows from
//! them for a reader of the stream is proved in the functions whose names
//! start with `law_`.

pub mod api;
pub mod boxes;
pub mod bytes;
pub mod codec;
pub mod fourcc;
pub mod fragmented;
pub mod text;
