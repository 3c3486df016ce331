//! Exact bytes of init segments and fragments.

use muxide::api::VideoCodec;
use muxide::boxes::write_box;
use muxide::codec::vp9::Vp9Config;
use muxide::fragmented::init::encode_language_code;
use muxide::fragmented::media::moof_size_for;
use muxide::fragmented::{
    next_base_media_decode_time, ColorInfo, FragmentConfig, FragmentedError, FragmentedMuxer,
    SampleSpec,
};

fn u32_at(data: &[u8], at: usize) -> u32 {
    u32::from_be_bytes(data[at..at + 4].try_into().unwrap())
}

fn u64_at(data: &[u8], at: usize) -> u64 {
    u64::from_be_bytes(data[at..at + 8].try_into().unwrap())
}

/// The boxes in `data`, one after the other: type and body.
fn split_boxes(data: &[u8]) -> Vec<(Vec<u8>, Vec<u8>)> {
    let mut boxes = Vec::new();
    let mut at = 0;
    while at < data.len() {
        let size = u32_at(data, at) as usize;
        assert!(size >= 8 && at + size <= data.len());
        boxes.push((data[at + 4..at + 8].to_vec(), data[at + 8..at + size].to_vec()));
        at += size;
    }
    boxes
}

/// The body of the only box of type `kind` in `data`.
fn body_of(data: &[u8], kind: &[u8; 4]) -> Vec<u8> {
    let found: Vec<Vec<u8>> = split_boxes(data)
        .into_iter()
        .filter(|(k, _)| k == kind)
        .map(|(_, body)| body)
        .collect();
    assert_eq!(found.len(), 1);
    found[0].clone()
}

/// The sample entry in an init segment: type and body.
fn sample_entry(init: &[u8]) -> (Vec<u8>, Vec<u8>) {
    let moov = body_of(init, b"moov");
    let trak = body_of(&moov, b"trak");
    let mdia = body_of(&trak, b"mdia");
    let minf = body_of(&mdia, b"minf");
    let stbl = body_of(&minf, b"stbl");
    let stsd = body_of(&stbl, b"stsd");
    assert_eq!(&stsd[..8], &[0, 0, 0, 0, 0, 0, 0, 1]);
    let entries = split_boxes(&stsd[8..]);
    assert_eq!(entries.len(), 1);
    entries[0].clone()
}

fn init_of(config: FragmentConfig) -> Vec<u8> {
    let mut out = Vec::new();
    FragmentedMuxer::new(config).write_init(&mut out);
    out
}

fn sample(frame: &[u8], pts: u64, dts: u64, is_sync: bool) -> SampleSpec<'_> {
    SampleSpec { frame, pts, dts, is_sync }
}

#[test]
fn default_config_is_full_hd_h264() {
    let config = FragmentConfig::default();
    assert_eq!(config.codec, VideoCodec::H264);
    assert_eq!((config.width, config.height, config.timescale), (1920, 1080, 90000));
    assert_eq!(config.sps, [0x67, 0x42, 0x00, 0x1e, 0xda, 0x02, 0x80, 0x2d, 0x8b, 0x11]);
    assert_eq!(config.pps, [0x68, 0xce, 0x38, 0x80]);
    assert!(config.vps.is_none() && config.av1_sequence_header.is_none());
    assert!(config.vp9_config.is_none() && config.color.is_none());
}

#[test]
fn muxer_keeps_its_config() {
    let muxer = FragmentedMuxer::new(FragmentConfig { width: 7, ..FragmentConfig::default() });
    assert_eq!(muxer.config().width, 7);
    assert_eq!(muxer.config().height, 1080);
}

#[test]
fn ftyp_is_exact() {
    let init = init_of(FragmentConfig::default());
    assert_eq!(&init[..28], b"\0\0\0\x1cftypiso5\0\0\0\0iso5iso6mp41");
}

#[test]
fn init_is_appended() {
    let mut out = vec![1, 2, 3];
    FragmentedMuxer::new(FragmentConfig::default()).write_init(&mut out);
    assert_eq!(&out[..3], &[1, 2, 3]);
    assert_eq!(&out[3..], &init_of(FragmentConfig::default())[..]);
}

#[test]
fn init_boxes_nest_in_order() {
    let init = init_of(FragmentConfig::default());
    let kinds = |data: &[u8]| -> Vec<Vec<u8>> {
        split_boxes(data).into_iter().map(|(kind, _)| kind).collect()
    };
    assert_eq!(kinds(&init), [b"ftyp", b"moov"]);
    let moov = body_of(&init, b"moov");
    assert_eq!(kinds(&moov), [b"mvhd", b"mvex", b"trak"]);
    let trak = body_of(&moov, b"trak");
    assert_eq!(kinds(&trak), [b"tkhd", b"mdia"]);
    let mdia = body_of(&trak, b"mdia");
    assert_eq!(kinds(&mdia), [b"mdhd", b"hdlr", b"minf"]);
    let minf = body_of(&mdia, b"minf");
    assert_eq!(kinds(&minf), [b"vmhd", b"dinf", b"stbl"]);
    let stbl = body_of(&minf, b"stbl");
    assert_eq!(kinds(&stbl), [b"stsd", b"stts", b"stsc", b"stsz", b"stco"]);
    assert_eq!(body_of(&stbl, b"stsz"), [0; 12]);
    assert_eq!(body_of(&stbl, b"stco"), [0; 8]);
    assert_eq!(body_of(&minf, b"vmhd"), [0, 0, 0, 1, 0, 0, 0, 0, 0, 0, 0, 0]);
    assert_eq!(
        body_of(&minf, b"dinf"),
        b"\0\0\0\x1cdref\0\0\0\0\0\0\0\x01\0\0\0\x0curl \0\0\0\x01"
    );
    assert_eq!(body_of(&mdia, b"hdlr"), b"\0\0\0\0\0\0\0\0vide\0\0\0\0\0\0\0\0\0\0\0\0VideoHandler\0");
    assert_eq!(
        body_of(&moov, b"mvex"),
        b"\0\0\0\x20trex\0\0\0\0\0\0\0\x01\0\0\0\x01\0\0\0\0\0\0\0\0\0\0\0\0"
    );
}

#[test]
fn header_boxes_carry_timescale_and_size() {
    let config = FragmentConfig {
        width: 0x1_0280,
        height: 480,
        timescale: 48000,
        ..FragmentConfig::default()
    };
    let init = init_of(config);
    let moov = body_of(&init, b"moov");
    let mvhd = body_of(&moov, b"mvhd");
    assert_eq!(mvhd.len(), 100);
    assert_eq!(u32_at(&mvhd, 12), 48000);
    assert_eq!(u32_at(&mvhd, 20), 0x0001_0000);
    assert_eq!(&mvhd[24..26], &[1, 0]);
    assert_eq!(u32_at(&mvhd, 36), 0x0001_0000);
    assert_eq!(u32_at(&mvhd, 52), 0x0001_0000);
    assert_eq!(u32_at(&mvhd, 68), 0x4000_0000);
    assert_eq!(u32_at(&mvhd, 96), 2);
    let trak = body_of(&moov, b"trak");
    let tkhd = body_of(&trak, b"tkhd");
    assert_eq!(tkhd.len(), 84);
    assert_eq!(u32_at(&tkhd, 0), 3);
    assert_eq!(u32_at(&tkhd, 12), 1);
    // Only the low 16 bits of the width are kept.
    assert_eq!(u32_at(&tkhd, 76), 0x0280_0000);
    assert_eq!(u32_at(&tkhd, 80), 480 << 16);
    let mdhd = body_of(&body_of(&trak, b"mdia"), b"mdhd");
    assert_eq!(mdhd.len(), 24);
    assert_eq!(u32_at(&mdhd, 12), 48000);
    assert_eq!(&mdhd[20..22], &[0x55, 0xc4]);
    let (_, entry) = sample_entry(&init);
    assert_eq!(&entry[..8], &[0, 0, 0, 0, 0, 0, 0, 1]);
    assert_eq!(&entry[24..28], &[0x02, 0x80, 0x01, 0xe0]);
    assert_eq!(u32_at(&entry, 28), 0x0048_0000);
    assert_eq!(&entry[40..42], &[0, 1]);
    assert_eq!(&entry[74..78], &[0, 0x18, 0xff, 0xff]);
}

#[test]
fn language_codes_pack_three_letters() {
    assert_eq!(encode_language_code("und"), [0x55, 0xc4]);
    assert_eq!(encode_language_code("eng"), [0x15, 0xc7]);
    assert_eq!(encode_language_code("english"), [0x15, 0xc7]);
    // Letters that are missing come from "und".
    assert_eq!(encode_language_code(""), [0x55, 0xc4]);
    assert_eq!(encode_language_code("e"), [0x15, 0xc4]);
    // Characters up to 0x60 count as nothing.
    assert_eq!(encode_language_code("A0 "), [0, 0]);
    // Of a character outside 16 bits the low 16 count.
    assert_eq!(encode_language_code("\u{10061}"), encode_language_code("a"));
}

#[test]
fn avc_configuration_is_exact() {
    let (kind, entry) = sample_entry(&init_of(FragmentConfig::default()));
    assert_eq!(kind, b"avc1");
    let boxes = split_boxes(&entry[78..]);
    assert_eq!(boxes.len(), 1);
    assert_eq!(boxes[0].0, b"avcC");
    assert_eq!(
        boxes[0].1,
        [
            1, 0x42, 0x00, 0x1e, 0xff, 0xe1, 0, 10, 0x67, 0x42, 0x00, 0x1e, 0xda, 0x02, 0x80, 0x2d,
            0x8b, 0x11, 1, 0, 4, 0x68, 0xce, 0x38, 0x80
        ]
    );
}

#[test]
fn avc_configuration_of_a_short_sps_falls_back() {
    let config = FragmentConfig {
        sps: vec![0x67, 0x64],
        pps: vec![],
        ..FragmentConfig::default()
    };
    let (_, entry) = sample_entry(&init_of(config));
    assert_eq!(
        body_of(&entry[78..], b"avcC"),
        [1, 0x64, 0x00, 0x1e, 0xff, 0xe1, 0, 2, 0x67, 0x64, 1, 0, 0]
    );
}

#[test]
fn hevc_configuration_is_exact() {
    let sps = vec![
        0x42, 0x01, 0x01, 0x61, 0x60, 0x00, 0x00, 0x03, 0x00, 0x80, 0x00, 0x00, 0x03, 0x00, 0x00,
        0x03, 0x00, 0x78, 0xa0,
    ];
    let with_vps = FragmentConfig {
        codec: VideoCodec::H265,
        sps: sps.clone(),
        pps: vec![0x44, 0x01],
        vps: Some(vec![0x40, 0x01, 0x0c]),
        ..FragmentConfig::default()
    };
    let without_vps = FragmentConfig { vps: None, ..with_vps.clone() };
    let fixed = [
        1, 0x61, 0x60, 0, 0, 0, 0x90, 0, 0, 0, 0, 0, 120, 0xf0, 0, 0xfc, 0xfd, 0xf8, 0xf8, 0, 0, 3,
    ];
    let mut sets = vec![0xa1, 0, 1, 0, 19];
    sets.extend_from_slice(&sps);
    sets.extend_from_slice(&[0xa2, 0, 1, 0, 2, 0x44, 0x01]);

    let (kind, entry) = sample_entry(&init_of(with_vps));
    assert_eq!(kind, b"hvc1");
    let mut expected = fixed.to_vec();
    expected.extend_from_slice(&[3, 0xa0, 0, 1, 0, 3, 0x40, 0x01, 0x0c]);
    expected.extend_from_slice(&sets);
    assert_eq!(body_of(&entry[78..], b"hvcC"), expected);

    let (_, entry) = sample_entry(&init_of(without_vps));
    let mut expected = fixed.to_vec();
    expected.push(2);
    expected.extend_from_slice(&sets);
    assert_eq!(body_of(&entry[78..], b"hvcC"), expected);
}

#[test]
fn av1_configuration_is_exact() {
    let header = vec![
        0x0a, 0x0b, 0x00, 0x00, 0x00, 0x24, 0xcf, 0x7f, 0x0d, 0xbf, 0xff, 0x30, 0x08,
    ];
    // A temporal delimiter before the sequence header is not repeated.
    let mut stream = vec![0x12, 0x00];
    stream.extend_from_slice(&header);
    let config = FragmentConfig {
        codec: VideoCodec::Av1,
        av1_sequence_header: Some(stream),
        ..FragmentConfig::default()
    };
    let (kind, entry) = sample_entry(&init_of(config));
    assert_eq!(kind, b"av01");
    let mut expected = vec![0x81, 0x04, 0x0c, 0x00];
    expected.extend_from_slice(&header);
    assert_eq!(body_of(&entry[78..], b"av1C"), expected);
}

#[test]
fn unreadable_av1_header_is_repeated() {
    let unreadable = FragmentConfig {
        codec: VideoCodec::Av1,
        av1_sequence_header: Some(vec![0x0a, 0x10, 0x00]),
        ..FragmentConfig::default()
    };
    let missing = FragmentConfig { av1_sequence_header: None, ..unreadable.clone() };
    let (_, entry) = sample_entry(&init_of(unreadable));
    assert_eq!(body_of(&entry[78..], b"av1C"), [0x81, 0, 0, 0, 0x0a, 0x10, 0x00]);
    let (_, entry) = sample_entry(&init_of(missing));
    assert_eq!(body_of(&entry[78..], b"av1C"), [0x81, 0, 0, 0]);
}

#[test]
fn vp9_configuration_is_exact() {
    let vp9 = Vp9Config {
        width: 1,
        height: 2,
        profile: 3,
        bit_depth: 10,
        color_space: 5,
        transfer_function: 6,
        matrix_coefficients: 7,
        level: 8,
        full_range_flag: 1,
    };
    let config = FragmentConfig {
        codec: VideoCodec::Vp9,
        vp9_config: Some(vp9),
        ..FragmentConfig::default()
    };
    let missing = FragmentConfig { vp9_config: None, ..config.clone() };
    let (kind, entry) = sample_entry(&init_of(config));
    assert_eq!(kind, b"vp09");
    assert_eq!(body_of(&entry[78..], b"vpcC"), [1, 3, 8, 10, 5, 6, 7, 1]);
    let (_, entry) = sample_entry(&init_of(missing));
    assert_eq!(&entry[78..], b"\0\0\0\x08vpcC");
}

#[test]
fn colr_box_ends_the_sample_entry() {
    let config = FragmentConfig {
        color: Some(ColorInfo { primaries: 9, transfer: 0x0110, matrix: 8, full_range: false }),
        ..FragmentConfig::default()
    };
    let (_, entry) = sample_entry(&init_of(config));
    let boxes = split_boxes(&entry[78..]);
    assert_eq!(boxes.len(), 2);
    assert_eq!(boxes[1].0, b"colr");
    assert_eq!(boxes[1].1, b"nclx\0\x09\x01\x10\0\x08\0");
}

#[test]
fn fragment_is_exact() {
    let muxer = FragmentedMuxer::new(FragmentConfig::default());
    let first = [0, 0, 0, 1, 0x65, 0xaa, 0, 0, 1, 0x41];
    let second = [0, 0, 1, 0x41, 0xbb, 0xcc];
    let samples = [sample(&first, 5000, 1000, true), sample(&second, 1000, 4000, false)];
    let mut out = vec![0xee];
    muxer.write_fragment(&mut out, 0x0102_0304, 0x0506_0708_090a_0b0c, &samples).unwrap();

    let mut expected = vec![0xee];
    expected.extend_from_slice(b"\0\0\0\x78moof\0\0\0\x10mfhd\0\0\0\0\x01\x02\x03\x04");
    expected.extend_from_slice(b"\0\0\0\x60traf\0\0\0\x10tfhd\0\x02\0\0\0\0\0\x01");
    expected.extend_from_slice(b"\0\0\0\x14tfdt\x01\0\0\0\x05\x06\x07\x08\x09\x0a\x0b\x0c");
    expected.extend_from_slice(b"\0\0\0\x34trun\x01\0\x0f\x01\0\0\0\x02\0\0\0\x80");
    expected.extend_from_slice(b"\0\0\x0b\xb8\0\0\0\x0b\x02\0\0\0\0\0\x0f\xa0");
    expected.extend_from_slice(b"\0\0\x0b\xb8\0\0\0\x07\x01\x01\0\0\xff\xff\xf4\x48");
    expected.extend_from_slice(b"\0\0\0\x1amdat\0\0\0\x02\x65\xaa\0\0\0\x01\x41\0\0\0\x03\x41\xbb\xcc");
    assert_eq!(out, expected);
}

#[test]
fn samples_read_back_through_offset_and_sizes() {
    let frames: [&[u8]; 3] = [&[1, 2, 3], &[], &[4, 5]];
    for codec in [VideoCodec::Av1, VideoCodec::Vp9] {
        let muxer = FragmentedMuxer::new(FragmentConfig { codec, ..FragmentConfig::default() });
        let samples = [
            sample(frames[0], 0, 0, true),
            sample(frames[1], 10, 10, false),
            sample(frames[2], 20, 20, false),
        ];
        let mut out = Vec::new();
        muxer.write_fragment(&mut out, 9, 77, &samples).unwrap();
        assert_eq!(u32_at(&out, 0) as usize, moof_size_for(3));
        assert_eq!(u32_at(&out, 20), 9);
        assert_eq!(u64_at(&out, 60), 77);
        assert_eq!(u32_at(&out, 80), 3);
        let mut at = u32_at(&out, 84) as usize;
        for (i, frame) in frames.iter().enumerate() {
            let size = u32_at(&out, 88 + 16 * i + 4) as usize;
            assert_eq!(&out[at..at + size], *frame);
            at += size;
        }
        assert_eq!(at, out.len());
    }
}

#[test]
fn hevc_fragment_leaves_parameter_sets_out() {
    let muxer = FragmentedMuxer::new(FragmentConfig {
        codec: VideoCodec::H265,
        ..FragmentConfig::default()
    });
    let frame = [0, 0, 1, 0x40, 0x01, 0, 0, 1, 0x26, 0x01, 0xaf];
    let mut out = Vec::new();
    muxer.write_fragment(&mut out, 1, 0, &[sample(&frame, 0, 0, true)]).unwrap();
    assert_eq!(u32_at(&out, 92), 7);
    assert_eq!(&out[104..], b"\0\0\0\x0fmdat\0\0\0\x03\x26\x01\xaf");
}

#[test]
fn refused_fragment_writes_nothing_and_names_the_first_drop() {
    let muxer = FragmentedMuxer::new(FragmentConfig::default());
    let samples = [
        sample(&[1], 0, 5, true),
        sample(&[2], 0, 5, false),
        sample(&[3], 0, 4, false),
        sample(&[4], 0, 1, false),
    ];
    let mut out = vec![7, 8];
    let error = muxer.write_fragment(&mut out, 1, 0, &samples).unwrap_err();
    assert_eq!(error, FragmentedError::NonMonotonicDts { prev_dts: 5, curr_dts: 4 });
    assert_eq!(error.message(), "DTS values must be non-decreasing: prev=5, curr=4");
    assert_eq!(out, [7, 8]);
}

#[test]
fn error_message_writes_large_numbers() {
    let error = FragmentedError::NonMonotonicDts { prev_dts: u64::MAX, curr_dts: 0 };
    assert_eq!(
        error.message(),
        "DTS values must be non-decreasing: prev=18446744073709551615, curr=0"
    );
}

#[test]
fn equal_dts_is_accepted() {
    let muxer = FragmentedMuxer::new(FragmentConfig::default());
    let samples = [sample(&[1], 0, 5, true), sample(&[2], 0, 5, false)];
    let mut out = Vec::new();
    assert!(muxer.write_fragment(&mut out, 1, 0, &samples).is_ok());
    assert_eq!(u32_at(&out, 88), 0);
}

#[test]
fn next_decode_time_continues_the_timeline() {
    assert_eq!(next_base_media_decode_time(&[]), None);
    assert_eq!(next_base_media_decode_time(&[sample(&[], 0, 40, true)]), Some(3040));
    let samples = [
        sample(&[], 0, 100, true),
        sample(&[], 0, 350, false),
        sample(&[], 0, 370, false),
    ];
    assert_eq!(next_base_media_decode_time(&samples), Some(390));

    let mut out = Vec::new();
    FragmentedMuxer::new(FragmentConfig::default())
        .write_fragment(&mut out, 1, 100, &samples)
        .unwrap();
    let total: u32 = (0..3).map(|i| u32_at(&out, 88 + 16 * i)).sum();
    assert_eq!(100 + u64::from(total), 390);
}

#[test]
fn long_gaps_keep_their_low_bits() {
    let samples = [sample(&[], 0, 0, true), sample(&[], 0, 0x1_0000_0007, false)];
    assert_eq!(next_base_media_decode_time(&samples), Some(0x1_0000_000e));
}

#[test]
fn boxes_read_back() {
    let mut out = vec![9];
    write_box(&mut out, b"test", &vec![1, 2, 3]);
    assert_eq!(out, b"\x09\0\0\0\x0btest\x01\x02\x03");
}

/// The parameter set at `at` behind its length in two bytes.
fn set_at(data: &[u8], at: usize) -> &[u8] {
    let len = usize::from(u16::from_be_bytes([data[at], data[at + 1]]));
    &data[at + 2..at + 2 + len]
}

/// The sample entry as a box, header and all.
fn sample_entry_box(init: &[u8]) -> Vec<u8> {
    let (kind, body) = sample_entry(init);
    let mut out = (body.len() as u32 + 8).to_be_bytes().to_vec();
    out.extend_from_slice(&kind);
    out.extend_from_slice(&body);
    out
}

#[test]
fn sample_entries_carry_the_parameter_sets() {
    let entry = sample_entry_box(&init_of(FragmentConfig::default()));
    assert_eq!(set_at(&entry, 100), [0x67, 0x42, 0x00, 0x1e, 0xda, 0x02, 0x80, 0x2d, 0x8b, 0x11]);
    assert_eq!(set_at(&entry, 113), [0x68, 0xce, 0x38, 0x80]);

    let config = FragmentConfig {
        codec: VideoCodec::H265,
        sps: vec![0x42, 0x01],
        pps: vec![0x44],
        vps: Some(vec![0x40, 0x01, 0x0c]),
        ..FragmentConfig::default()
    };
    let entry = sample_entry_box(&init_of(config.clone()));
    assert_eq!(set_at(&entry, 120), [0x40, 0x01, 0x0c]);
    assert_eq!(set_at(&entry, 128), [0x42, 0x01]);
    assert_eq!(set_at(&entry, 135), [0x44]);
    let entry = sample_entry_box(&init_of(FragmentConfig { vps: None, ..config }));
    assert_eq!(set_at(&entry, 120), [0x42, 0x01]);
    assert_eq!(set_at(&entry, 127), [0x44]);
}

#[test]
fn nal_units_read_back_from_a_fragment() {
    let frame = [0, 0, 0, 1, 0x42, 0x01, 0, 0, 1, 0x26, 0x01, 0xaf, 0, 0, 1, 0x02, 0x01];
    for (codec, expected) in [
        (VideoCodec::H264, vec![vec![0x42, 0x01], vec![0x26, 0x01, 0xaf], vec![0x02, 0x01]]),
        (VideoCodec::H265, vec![vec![0x26, 0x01, 0xaf], vec![0x02, 0x01]]),
    ] {
        let muxer = FragmentedMuxer::new(FragmentConfig { codec, ..FragmentConfig::default() });
        let samples = [sample(&[9], 0, 0, true), sample(&frame, 1, 1, false)];
        let mut out = Vec::new();
        muxer.write_fragment(&mut out, 1, 0, &samples).unwrap();
        let start = (u32_at(&out, 84) + u32_at(&out, 92)) as usize;
        let end = start + u32_at(&out, 108) as usize;
        let mut nals: Vec<Vec<u8>> = Vec::new();
        let mut at = start;
        while at < end {
            let len = u32_at(&out, at) as usize;
            nals.push(out[at + 4..at + 4 + len].to_vec());
            at += 4 + len;
        }
        assert_eq!(nals, expected);
    }
}
