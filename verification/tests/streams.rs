//! Elementary streams and the encodings under them.

use muxide::bytes::{put_u64, reverse_bits, u32_from_be_bytes};
use muxide::codec::av1::extract_av1_config;
use muxide::codec::common::AnnexBNalIter;
use muxide::codec::h264::annexb_to_avcc_into;
use muxide::codec::h265::{
    extract_hevc_config, hevc_annexb_to_hvcc, hevc_annexb_to_hvcc_into, hevc_nal_type,
    is_hevc_keyframe, is_hevc_keyframe_nal_type, sps_general_level_idc, sps_general_profile_idc,
    sps_general_profile_space, sps_general_tier_flag, sps_profile_tier_level, HevcConfig,
    ProfileTierLevel,
};
use muxide::text::{append_decimal, append_upper_hex};

fn units(data: &[u8]) -> Vec<Vec<u8>> {
    let mut iter = AnnexBNalIter::new(data);
    let mut found = Vec::new();
    while let Some(nal) = iter.next_nal() {
        found.push(nal.to_vec());
    }
    found
}

fn avcc(data: &[u8]) -> Vec<u8> {
    let mut out = Vec::new();
    annexb_to_avcc_into(data, &mut out);
    out
}

/// Writes bits most significant first.
struct BitWriter {
    bytes: Vec<u8>,
    used: usize,
}

impl BitWriter {
    fn new() -> Self {
        BitWriter { bytes: Vec::new(), used: 0 }
    }

    fn put(&mut self, value: u64, width: usize) {
        for i in (0..width).rev() {
            if self.used % 8 == 0 {
                self.bytes.push(0);
            }
            let bit = ((value >> i) & 1) as u8;
            let last = self.bytes.len() - 1;
            self.bytes[last] |= bit << (7 - self.used % 8);
            self.used += 1;
        }
    }
}

#[test]
fn nal_units_stand_between_start_codes() {
    assert_eq!(units(&[]), Vec::<Vec<u8>>::new());
    assert_eq!(units(&[1, 2, 3]), Vec::<Vec<u8>>::new());
    assert_eq!(units(&[9, 0, 0, 1, 5, 0, 0, 0, 1, 6, 7]), [vec![5], vec![6, 7]]);
    assert_eq!(units(&[0, 0, 1, 0, 0, 1, 4]), [vec![], vec![4]]);
    assert_eq!(units(&[0, 0, 0, 1, 4, 0]), [vec![4, 0]]);
    assert_eq!(units(&[4, 0, 0, 1]), [vec![]]);
}

#[test]
fn annexb_round_trip_keeps_units() {
    let written = [vec![0x65, 0], vec![0x41, 3, 0, 0], vec![7]];
    let mut data = Vec::new();
    for unit in &written {
        data.extend_from_slice(&[0, 0, 0, 1]);
        data.extend_from_slice(unit);
    }
    assert_eq!(units(&data), written);
}

#[test]
fn avcc_replaces_start_codes_by_lengths() {
    assert_eq!(
        avcc(&[0, 0, 0, 1, 0x67, 1, 0, 0, 1, 0x65]),
        [0, 0, 0, 2, 0x67, 1, 0, 0, 0, 1, 0x65]
    );
    assert_eq!(avcc(&[0, 0, 1, 0, 0, 1, 4]), [0, 0, 0, 1, 4]);
    assert_eq!(avcc(&[0x65, 2]), [0, 0, 0, 2, 0x65, 2]);
    assert_eq!(avcc(&[]), Vec::<u8>::new());
    let mut out = vec![1];
    annexb_to_avcc_into(&[5], &mut out);
    assert_eq!(out, [1, 0, 0, 0, 1, 5]);
}

#[test]
fn hvcc_appends_and_falls_back() {
    let mut out = vec![1];
    hevc_annexb_to_hvcc_into(&[0x26, 1], &mut out);
    assert_eq!(out, [1, 0, 0, 0, 2, 0x26, 1]);
    assert!(hevc_annexb_to_hvcc(&[]).is_empty());
    // Only empty NAL units: all of the input is one NAL unit.
    assert_eq!(hevc_annexb_to_hvcc(&[0, 0, 1]), [0, 0, 0, 3, 0, 0, 1]);
}

#[test]
fn nal_types_use_bits_one_to_six() {
    assert_eq!(hevc_nal_type(&[]), 0);
    assert_eq!(hevc_nal_type(&[0xff]), 63);
    assert_eq!(hevc_nal_type(&[0x81]), 0);
    for kind in 0..=255u8 {
        assert_eq!(is_hevc_keyframe_nal_type(kind), (16..=21).contains(&kind));
    }
}

#[test]
fn keyframe_is_found_behind_other_units() {
    assert!(is_hevc_keyframe(&[0, 0, 1, 0, 0, 1, 0x02, 1, 0, 0, 1, 0x2a, 1]));
    assert!(!is_hevc_keyframe(&[0, 0, 1, 0x2c, 1]));
    assert!(!is_hevc_keyframe(&[0, 0, 1]));
}

#[test]
fn config_takes_the_first_of_each_kind() {
    let data = [
        0, 0, 1, 0x44, 1, 0, 0, 1, 0x42, 1, 0, 0, 1, 0x44, 2, 0, 0, 1, 0x40, 1, 0, 0, 1, 0x40, 2,
    ];
    let config = extract_hevc_config(&data).unwrap();
    assert_eq!(config, HevcConfig::new(vec![0x40, 1], vec![0x42, 1], vec![0x44, 1]));
}

#[test]
fn config_of_a_minimal_keyframe() {
    let keyframe = [
        0x00, 0x00, 0x00, 0x01, 0x40, 0x01, 0x0c, 0x01, // VPS
        0x00, 0x00, 0x00, 0x01, 0x42, 0x01, 0x01, 0x01, // SPS
        0x00, 0x00, 0x00, 0x01, 0x44, 0x01, 0xc0, 0x73, // PPS
        0x00, 0x00, 0x00, 0x01, 0x26, 0x01, 0xaf, 0x00, // IDR
    ];
    let config = extract_hevc_config(&keyframe).unwrap();
    assert_eq!((config.vps[0] >> 1) & 0x3f, 32);
    assert_eq!(config.sps, [0x42, 0x01, 0x01, 0x01]);
    assert_eq!(config.pps, [0x44, 0x01, 0xc0, 0x73]);
    // Without the PPS there is no configuration.
    assert!(extract_hevc_config(&keyframe[..16]).is_none());
}

#[test]
fn short_sps_falls_back() {
    for sps in [&[][..], &[0x42], &[0x42, 0x01], &[0x42, 0x01, 0x01]] {
        let ptl = sps_profile_tier_level(sps);
        assert_eq!(ptl.profile_space, 0);
        assert!(!ptl.tier_flag);
        assert_eq!(ptl.profile_idc, 1);
        assert_eq!(ptl.compatibility_flags, [0; 4]);
        assert_eq!(ptl.constraint_flags, [0; 6]);
        assert_eq!(ptl.level_idc, 93);
    }
    let ptl = sps_profile_tier_level(&[0x42, 0x01, 0x01, 0xe2, 0x11]);
    assert_eq!((ptl.profile_space, ptl.tier_flag, ptl.profile_idc), (3, true, 2));
    assert_eq!(ptl.compatibility_flags, [0x11, 0, 0, 0]);
    assert_eq!(ptl.level_idc, 93);
}

#[test]
fn accessors_agree_with_the_parsed_fields() {
    let sps = vec![
        0x42, 0x01, 0x01, 0xa4, 1, 2, 3, 4, 5, 6, 7, 8, 9, 10, 153, 0xff,
    ];
    assert_eq!(sps_general_profile_space(&sps), 2);
    assert!(sps_general_tier_flag(&sps));
    assert_eq!(sps_general_profile_idc(&sps), 4);
    assert_eq!(sps_general_level_idc(&sps), 153);
    let config = HevcConfig::new(vec![], sps.clone(), vec![]);
    assert_eq!(config.profile_tier_level(), sps_profile_tier_level(&sps));
    assert_eq!(config.general_profile_space(), 2);
    assert!(config.general_tier_flag());
    assert_eq!(config.general_profile_idc(), 4);
    assert_eq!(config.general_level_idc(), 153);
}

#[test]
fn header_bytes_are_never_escaped() {
    // The zeros of the header do not count towards emulation prevention.
    let ptl = sps_profile_tier_level(&[0, 0, 3, 0x21]);
    assert_eq!(ptl.profile_idc, 1);
    assert!(ptl.tier_flag);
}

#[test]
fn codec_string_without_constraints() {
    let ptl = ProfileTierLevel {
        profile_space: 0,
        tier_flag: false,
        profile_idc: 1,
        compatibility_flags: [0x60, 0x00, 0x00, 0x01],
        constraint_flags: [0; 6],
        level_idc: 120,
    };
    assert_eq!(ptl.codec_string(), "hvc1.1.80000006.L120");
    let last = ProfileTierLevel {
        profile_space: 7,
        compatibility_flags: [0; 4],
        constraint_flags: [0, 0, 0, 0, 0, 0xff],
        ..ptl
    };
    assert_eq!(last.codec_string(), "hvc1.C1.0.L120.0.0.0.0.0.FF");
    let second = ProfileTierLevel { profile_space: 2, profile_idc: 31, constraint_flags: [0xb0, 0, 0, 0, 0, 0], ..ptl };
    assert_eq!(second.codec_string(), "hvc1.B31.80000006.L120.B0");
}

#[test]
fn numbers_are_written_out() {
    let mut text = String::from("x");
    append_decimal(&mut text, 0);
    append_decimal(&mut text, 1090);
    assert_eq!(text, "x01090");
    let mut text = String::new();
    append_upper_hex(&mut text, 0xdead_beef_0012_3456);
    assert_eq!(text, "DEADBEEF00123456");
}

#[test]
fn bits_and_bytes_are_reordered() {
    assert_eq!(reverse_bits(0x6000_0000), 6);
    assert_eq!(reverse_bits(1), 0x8000_0000);
    assert_eq!(reverse_bits(0x1234_5678), 0x1e6a_2c48);
    assert_eq!(u32_from_be_bytes([1, 2, 3, 4]), 0x0102_0304);
    let mut out = Vec::new();
    put_u64(&mut out, 0x0102_0304_0506_0708);
    assert_eq!(out, [1, 2, 3, 4, 5, 6, 7, 8]);
}

#[test]
fn av1_config_is_read() {
    let data = [
        0x0a, 0x0b, 0x00, 0x00, 0x00, 0x24, 0xcf, 0x7f, 0x0d, 0xbf, 0xff, 0x30, 0x08,
    ];
    let config = extract_av1_config(&data).unwrap();
    assert_eq!(config.sequence_header, data);
    assert_eq!((config.seq_profile, config.seq_level_idx, config.seq_tier), (0, 4, 0));
    assert!(!config.high_bitdepth && !config.twelve_bit && !config.monochrome);
    assert!(config.chroma_subsampling_x && config.chroma_subsampling_y);
    assert_eq!(config.chroma_sample_position, 0);
}

#[test]
fn av1_config_with_timing_and_operating_points() {
    let mut w = BitWriter::new();
    w.put(2, 3); // seq_profile
    w.put(0, 1); // still_picture
    w.put(0, 1); // reduced_still_picture_header
    w.put(1, 1); // timing_info_present
    w.put(1001, 32);
    w.put(60000, 32);
    w.put(1, 1); // equal_picture_interval
    w.put(0b00101, 5); // num_ticks_per_picture_minus_1
    w.put(1, 1); // decoder_model_info_present
    w.put(9, 5); // buffer_delay_length_minus_1
    w.put(1, 32);
    w.put(3, 5);
    w.put(4, 5);
    w.put(1, 1); // initial_display_delay_present
    w.put(1, 5); // operating_points_cnt_minus_1
    for level in [13, 5] {
        w.put(0x101, 12);
        w.put(level, 5);
        if level > 7 {
            w.put(1, 1); // seq_tier
        }
        w.put(1, 1); // decoder_model_present_for_this_op
        w.put(0x3ff, 10);
        w.put(0x155, 10);
        w.put(1, 1); // low_delay_mode
        w.put(1, 1); // initial_display_delay_present_for_this_op
        w.put(3, 4);
    }
    w.put(11, 4);
    w.put(10, 4);
    w.put(3839, 12);
    w.put(2047, 11);
    w.put(1, 1); // frame_id_numbers_present
    w.put(0x25, 7);
    w.put(0, 3);
    w.put(0, 4);
    w.put(1, 1); // enable_order_hint
    w.put(0b11, 2);
    w.put(0, 1); // seq_choose_screen_content_tools
    w.put(1, 1); // seq_force_screen_content_tools
    w.put(0, 1); // seq_choose_integer_mv
    w.put(1, 1);
    w.put(6, 3); // order_hint_bits_minus_1
    w.put(0b101, 3);
    w.put(1, 1); // high_bitdepth
    w.put(1, 1); // twelve_bit
    w.put(0, 1); // mono_chrome
    w.put(1, 1); // color_description_present
    w.put(9, 8);
    w.put(16, 8);
    w.put(9, 8);
    w.put(0, 1); // color_range
    w.put(1, 1); // subsampling_x
    w.put(1, 1); // subsampling_y
    w.put(2, 2); // chroma_sample_position
    w.put(0, 1); // separate_uv_delta_q
    w.put(1, 1); // film_grain_params_present
    let mut data = vec![0x0a, w.bytes.len() as u8];
    data.extend_from_slice(&w.bytes);
    let obu = data.clone();
    data.extend_from_slice(&[0x32, 0x01, 0x00]);

    let config = extract_av1_config(&data).unwrap();
    assert_eq!(config.sequence_header, obu);
    assert_eq!((config.seq_profile, config.seq_level_idx, config.seq_tier), (2, 13, 1));
    assert!(config.high_bitdepth && config.twelve_bit && !config.monochrome);
    assert!(config.chroma_subsampling_x && config.chroma_subsampling_y);
    assert_eq!(config.chroma_sample_position, 2);

    // Cut short anywhere, the header cannot be read.
    for len in 0..w.bytes.len() {
        let mut cut = vec![0x0a, len as u8];
        cut.extend_from_slice(&w.bytes[..len]);
        assert!(extract_av1_config(&cut).is_none());
    }
}

#[test]
fn av1_reduced_monochrome_still() {
    let mut w = BitWriter::new();
    w.put(0, 3);
    w.put(1, 1); // still_picture
    w.put(1, 1); // reduced_still_picture_header
    w.put(8, 5); // seq_level_idx
    w.put(3, 4);
    w.put(3, 4);
    w.put(15, 4);
    w.put(15, 4);
    w.put(0, 3);
    w.put(0, 3);
    w.put(0, 1); // high_bitdepth
    w.put(1, 1); // mono_chrome
    w.put(0, 1); // color_description_present
    w.put(1, 1); // color_range
    w.put(0, 1); // film_grain_params_present
    // Without a size field the OBU reaches to the end.
    let mut data = vec![0x08];
    data.extend_from_slice(&w.bytes);
    let config = extract_av1_config(&data).unwrap();
    assert_eq!((config.seq_profile, config.seq_level_idx, config.seq_tier), (0, 8, 0));
    assert!(config.monochrome && config.chroma_subsampling_x && config.chroma_subsampling_y);
}

#[test]
fn av1_streams_without_a_sequence_header() {
    assert!(extract_av1_config(&[]).is_none());
    assert!(extract_av1_config(&[0x12, 0x00]).is_none());
    assert!(extract_av1_config(&[0x8a, 0x00]).is_none()); // forbidden bit
    assert!(extract_av1_config(&[0x0a, 0x80]).is_none()); // size cut short
    assert!(extract_av1_config(&[0x0e]).is_none()); // extension cut short
}
