# muxide

Fragmented MP4 (fMP4) muxing for H.264, H.265, AV1 and VP9 video, written and
proved in Verus.

- `src/fragmented.rs` is the muxer: `FragmentedMuxer::write_init` appends the
  init segment (`ftyp` + `moov`), `FragmentedMuxer::write_fragment` a media
  segment (`moof` + `mdat`). `src/fragmented/init.rs` and
  `src/fragmented/media.rs` hold the boxes of the two, `src/fragmented/laws.rs`
  what a reader of the stream can rely on.
- `src/codec/` reads elementary streams: NAL units (`common.rs`), H.264 and
  H.265 samples and parameter sets, AV1 sequence headers.
- `src/bytes.rs`, `src/boxes.rs` and `src/text.rs` are the encodings underneath.
- `app/` offers the muxer's error as a `std::error::Error`.

Every writer's contract gives the exact bytes it appends. Callers outside Verus
have these duties: the composition offset of each sample handed to
`write_fragment` fits into 64 signed bits, the time that
`next_base_media_decode_time` returns fits into 64 bits, the size that
`moof_size_for` returns fits into a `usize`, and the data that
`is_hevc_keyframe` looks at holds a start code.
