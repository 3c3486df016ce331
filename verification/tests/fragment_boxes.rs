use muxide::fragmented::media::moof_size_for;
use muxide::fragmented::{FragmentConfig, FragmentedError, FragmentedMuxer, SampleSpec};

fn find_box_offset(data: &[u8], typ: &[u8; 4]) -> Option<usize> {
    data.windows(4)
        .position(|w| w == typ)
        .and_then(|pos| pos.checked_sub(4))
}

fn read_u32_be(data: &[u8], offset: usize) -> u32 {
    u32::from_be_bytes(data[offset..offset + 4].try_into().unwrap())
}

fn read_u64_be(data: &[u8], offset: usize) -> u64 {
    u64::from_be_bytes(data[offset..offset + 8].try_into().unwrap())
}

fn h264_config() -> FragmentConfig {
    FragmentConfig::default()
}

#[test]
fn init_segment_contains_ftyp_moov() {
    let muxer = FragmentedMuxer::new(h264_config());
    let mut init = Vec::new();
    muxer.write_init(&mut init);

    assert_eq!(&init[4..8], b"ftyp");
    let ftyp_size = u32::from_be_bytes(init[0..4].try_into().unwrap()) as usize;
    assert_eq!(&init[ftyp_size + 4..ftyp_size + 8], b"moov");
}

#[test]
fn fragment_contains_moof_mdat() {
    let muxer = FragmentedMuxer::new(h264_config());
    let frame = vec![0x00, 0x00, 0x00, 0x01, 0x65, 0xaa, 0xbb, 0xcc, 0xdd];
    let samples = [
        SampleSpec {
            frame: &frame,
            pts: 0,
            dts: 0,
            is_sync: true,
        },
        SampleSpec {
            frame: &frame,
            pts: 3000,
            dts: 3000,
            is_sync: false,
        },
    ];

    let mut out = Vec::new();
    muxer.write_fragment(&mut out, 1, 0, &samples).unwrap();

    assert_eq!(&out[4..8], b"moof");
    let moof_size = u32::from_be_bytes(out[0..4].try_into().unwrap()) as usize;
    assert_eq!(&out[moof_size + 4..moof_size + 8], b"mdat");
}

#[test]
fn fragment_with_no_samples_is_noop() {
    let muxer = FragmentedMuxer::new(h264_config());
    let mut out = Vec::new();
    muxer.write_fragment(&mut out, 1, 0, &[]).unwrap();
    assert!(out.is_empty());
}

#[test]
fn non_monotonic_dts_is_rejected() {
    let muxer = FragmentedMuxer::new(h264_config());
    let frame = vec![0x00, 0x00, 0x00, 0x01, 0x65, 0xaa];
    let samples = [
        SampleSpec {
            frame: &frame,
            pts: 0,
            dts: 100,
            is_sync: true,
        },
        SampleSpec {
            frame: &frame,
            pts: 3000,
            dts: 50,
            is_sync: false,
        },
    ];
    let mut out = Vec::new();
    let err = muxer.write_fragment(&mut out, 1, 0, &samples).unwrap_err();
    assert_eq!(
        err,
        FragmentedError::NonMonotonicDts {
            prev_dts: 100,
            curr_dts: 50
        }
    );
}

#[test]
fn tfdt_carries_caller_supplied_decode_time() {
    let muxer = FragmentedMuxer::new(h264_config());
    let frame = vec![0x00, 0x00, 0x00, 0x01, 0x65, 0xaa];
    let samples = [SampleSpec {
        frame: &frame,
        pts: 0,
        dts: 0,
        is_sync: true,
    }];

    let mut out = Vec::new();
    muxer.write_fragment(&mut out, 5, 12345, &samples).unwrap();

    let tfdt_off = find_box_offset(&out, b"tfdt").expect("tfdt box");
    // payload: version+flags (4), decode time (8) starting at tfdt_off + 8
    let base = read_u64_be(&out, tfdt_off + 8 + 4);
    assert_eq!(base, 12345);
}

#[test]
fn mfhd_carries_caller_sequence_number() {
    let muxer = FragmentedMuxer::new(h264_config());
    let frame = vec![0x00, 0x00, 0x00, 0x01, 0x65, 0xaa];
    let samples = [SampleSpec {
        frame: &frame,
        pts: 0,
        dts: 0,
        is_sync: true,
    }];

    let mut out = Vec::new();
    muxer.write_fragment(&mut out, 42, 0, &samples).unwrap();

    let mfhd_off = find_box_offset(&out, b"mfhd").expect("mfhd box");
    let seq = read_u32_be(&out, mfhd_off + 8 + 4);
    assert_eq!(seq, 42);
}

#[test]
fn trun_single_sample_uses_default_duration_3000() {
    let muxer = FragmentedMuxer::new(h264_config());
    let frame = vec![0x00, 0x00, 0x00, 0x01, 0x65, 0xaa];
    let samples = [SampleSpec {
        frame: &frame,
        pts: 0,
        dts: 0,
        is_sync: true,
    }];

    let mut out = Vec::new();
    muxer.write_fragment(&mut out, 1, 0, &samples).unwrap();

    let trun_off = find_box_offset(&out, b"trun").expect("trun box");
    // payload: version+flags(4), sample_count(4), data_offset(4), then sample_duration(4)
    let duration = read_u32_be(&out, trun_off + 8 + 12);
    assert_eq!(duration, 3000);
}

#[test]
fn fragment_buffer_can_be_reused_across_calls() {
    let muxer = FragmentedMuxer::new(h264_config());
    let frame = vec![0x00, 0x00, 0x00, 0x01, 0x65, 0xaa];
    let samples = [SampleSpec {
        frame: &frame,
        pts: 0,
        dts: 0,
        is_sync: true,
    }];

    let mut out = Vec::with_capacity(4096);
    muxer.write_fragment(&mut out, 1, 0, &samples).unwrap();
    let cap_after_first = out.capacity();
    out.clear();
    muxer.write_fragment(&mut out, 2, 3000, &samples).unwrap();
    assert_eq!(out.capacity(), cap_after_first);
}

#[test]
fn moof_size_for_matches_actual_emit() {
    let muxer = FragmentedMuxer::new(h264_config());
    let frame = vec![0x00, 0x00, 0x00, 0x01, 0x65, 0xaa];
    let samples: Vec<SampleSpec> = (0..30)
        .map(|i| SampleSpec {
            frame: &frame,
            pts: i * 3000,
            dts: i * 3000,
            is_sync: i == 0,
        })
        .collect();

    let mut out = Vec::new();
    muxer.write_fragment(&mut out, 1, 0, &samples).unwrap();

    let moof_size = u32::from_be_bytes(out[0..4].try_into().unwrap()) as usize;
    assert_eq!(moof_size, moof_size_for(samples.len()));
}
