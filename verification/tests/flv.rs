//! Tags of audio and video messages.

use oxideav_rtmp::amf::{Amf0Value, decode_all, encode};
use oxideav_rtmp::flv::{
    AAC_PACKET_TYPE_RAW, AAC_PACKET_TYPE_SEQUENCE_HEADER, AUDIO_CHANNEL_ORDER_CUSTOM,
    AUDIO_FORMAT_AAC, AUDIO_FORMAT_ADPCM, AUDIO_FORMAT_EX_HEADER, AUDIO_FORMAT_G711_ALAW,
    AUDIO_FORMAT_G711_MULAW, AUDIO_FORMAT_MP3, AUDIO_FORMAT_NELLYMOSER,
    AUDIO_FORMAT_NELLYMOSER_16K_MONO, AUDIO_FORMAT_NELLYMOSER_8K_MONO, AUDIO_FORMAT_PCM_LE,
    AUDIO_FORMAT_PCM_LE_8BIT, AUDIO_FORMAT_SPEEX, AUDIO_PACKET_TYPE_CODED_FRAMES,
    AUDIO_PACKET_TYPE_MULTICHANNEL_CONFIG, AUDIO_PACKET_TYPE_SEQUENCE_END,
    AUDIO_PACKET_TYPE_SEQUENCE_START, AVC_PACKET_TYPE_NALU, AV_MULTITRACK_TYPE_MANY_TRACKS,
    AV_MULTITRACK_TYPE_MANY_TRACKS_MANY_CODECS, AV_MULTITRACK_TYPE_ONE_TRACK, AudioMessage,
    AudioTag, ColorConfig, ColorInfo, EX_PACKET_TYPE_CODED_FRAMES,
    EX_PACKET_TYPE_CODED_FRAMES_X, EX_PACKET_TYPE_METADATA,
    EX_PACKET_TYPE_MPEG2TS_SEQUENCE_START, EX_PACKET_TYPE_SEQUENCE_END,
    EX_PACKET_TYPE_SEQUENCE_START, FOURCC_AAC, FOURCC_AC3, FOURCC_AV1, FOURCC_AVC, FOURCC_EAC3,
    FOURCC_FLAC, FOURCC_HEVC, FOURCC_MP3, FOURCC_OPUS, FOURCC_VP8, FOURCC_VP9, FOURCC_VVC,
    HdrCll, HdrMdcv, MOD_EX_TYPE_TIMESTAMP_OFFSET_NANO, ModEx, MultichannelConfig,
    MultichannelConfigOrder, Multitrack, MultitrackTrack, VIDEO_CODEC_AVC,
    VIDEO_FRAME_DISPOSABLE, VIDEO_FRAME_GENERATED_KEY, VIDEO_FRAME_INFO, VIDEO_FRAME_INTER,
    VIDEO_FRAME_KEYFRAME, VIDEO_IS_EX_HEADER, VideoTag, audio_channel, audio_channel_mask,
    build_audio, build_audio_message, build_silence_audio, build_video, is_silence_payload,
    parse_audio, parse_audio_message, parse_video,
};
use oxideav_rtmp::number::Double;

fn num(x: f64) -> Double {
    Double::from_bits(x.to_bits())
}

#[test]
fn video_tag_avc_nalu_roundtrip() {
    let tag = VideoTag {
        mod_ex: Vec::new(),
        frame_type: VIDEO_FRAME_KEYFRAME,
        codec_id: VIDEO_CODEC_AVC,
        avc_packet_type: Some(AVC_PACKET_TYPE_NALU),
        composition_time: 42,
        body: b"\x00\x00\x00\x05hello".to_vec(),
        ex_packet_type: None,
        fourcc: None,
        multitrack: None,
    };
    let payload = build_video(&tag);
    assert_eq!(payload[0], 0x17);
    let back = parse_video(&payload).unwrap();
    assert_eq!(back, tag);
}

#[test]
fn video_tag_negative_cts_sign_extends() {
    let tag = VideoTag {
        mod_ex: Vec::new(),
        frame_type: VIDEO_FRAME_INTER,
        codec_id: VIDEO_CODEC_AVC,
        avc_packet_type: Some(AVC_PACKET_TYPE_NALU),
        composition_time: -5,
        body: vec![0x01],
        ex_packet_type: None,
        fourcc: None,
        multitrack: None,
    };
    let payload = build_video(&tag);
    let back = parse_video(&payload).unwrap();
    assert_eq!(back.composition_time, -5);
}

#[test]
fn ex_video_tag_hevc_sequence_start_roundtrip() {
    let tag = VideoTag {
        mod_ex: Vec::new(),
        frame_type: VIDEO_FRAME_KEYFRAME,
        codec_id: 0,
        avc_packet_type: None,
        composition_time: 0,
        body: b"\x01dummy-hvcc".to_vec(),
        ex_packet_type: Some(EX_PACKET_TYPE_SEQUENCE_START),
        fourcc: Some(FOURCC_HEVC),
        multitrack: None,
    };
    let payload = build_video(&tag);
    assert_eq!(payload[0], 0x90);
    assert_eq!(&payload[1..5], b"hvc1");
    assert_eq!(&payload[5..], b"\x01dummy-hvcc");

    let back = parse_video(&payload).unwrap();
    assert_eq!(back, tag);
    assert!(back.is_ex_sequence_header());
    assert!(back.is_keyframe());
}

#[test]
fn ex_video_tag_hevc_coded_frames_carries_cts() {
    let tag = VideoTag {
        mod_ex: Vec::new(),
        frame_type: VIDEO_FRAME_INTER,
        codec_id: 0,
        avc_packet_type: None,
        composition_time: -33,
        body: b"\x00\x00\x00\x04NALU".to_vec(),
        ex_packet_type: Some(EX_PACKET_TYPE_CODED_FRAMES),
        fourcc: Some(FOURCC_HEVC),
        multitrack: None,
    };
    let payload = build_video(&tag);
    assert_eq!(payload[0], 0xA1);
    assert_eq!(&payload[1..5], b"hvc1");
    assert_eq!(&payload[5..8], &[0xFF, 0xFF, 0xDF]);
    assert_eq!(&payload[8..], b"\x00\x00\x00\x04NALU");

    let back = parse_video(&payload).unwrap();
    assert_eq!(back, tag);
    assert_eq!(back.composition_time, -33);
}

#[test]
fn ex_video_tag_hevc_coded_frames_x_omits_cts() {
    let tag = VideoTag {
        mod_ex: Vec::new(),
        frame_type: VIDEO_FRAME_INTER,
        codec_id: 0,
        avc_packet_type: None,
        composition_time: 0,
        body: b"\x00\x00\x00\x04NALU".to_vec(),
        ex_packet_type: Some(EX_PACKET_TYPE_CODED_FRAMES_X),
        fourcc: Some(FOURCC_HEVC),
        multitrack: None,
    };
    let payload = build_video(&tag);
    assert_eq!(payload[0], 0xA3);
    assert_eq!(&payload[1..5], b"hvc1");
    assert_eq!(&payload[5..], b"\x00\x00\x00\x04NALU");
    assert_eq!(payload.len(), 1 + 4 + 8);

    let back = parse_video(&payload).unwrap();
    assert_eq!(back, tag);
}

#[test]
fn ex_video_tag_av1_sequence_start_no_cts() {
    let tag = VideoTag {
        mod_ex: Vec::new(),
        frame_type: VIDEO_FRAME_KEYFRAME,
        codec_id: 0,
        avc_packet_type: None,
        composition_time: 0,
        body: b"\x81\x05\x0c\x00".to_vec(),
        ex_packet_type: Some(EX_PACKET_TYPE_SEQUENCE_START),
        fourcc: Some(FOURCC_AV1),
        multitrack: None,
    };
    let payload = build_video(&tag);
    assert_eq!(payload[0], 0x90);
    assert_eq!(&payload[1..5], b"av01");
    assert_eq!(&payload[5..], b"\x81\x05\x0c\x00");

    let back = parse_video(&payload).unwrap();
    assert_eq!(back, tag);
    assert!(back.is_ex_sequence_header());
}

#[test]
fn ex_video_tag_av1_coded_frames_obus() {
    let tag = VideoTag {
        mod_ex: Vec::new(),
        frame_type: VIDEO_FRAME_KEYFRAME,
        codec_id: 0,
        avc_packet_type: None,
        composition_time: 0,
        body: b"\x0a\x0b\x0cobu-stub".to_vec(),
        ex_packet_type: Some(EX_PACKET_TYPE_CODED_FRAMES),
        fourcc: Some(FOURCC_AV1),
        multitrack: None,
    };
    let payload = build_video(&tag);
    assert_eq!(payload[0], 0x91);
    assert_eq!(&payload[1..5], b"av01");
    assert_eq!(&payload[5..], b"\x0a\x0b\x0cobu-stub");

    let back = parse_video(&payload).unwrap();
    assert_eq!(back, tag);
}

#[test]
fn ex_video_tag_vp9_coded_frames_full_frame() {
    let tag = VideoTag {
        mod_ex: Vec::new(),
        frame_type: VIDEO_FRAME_KEYFRAME,
        codec_id: 0,
        avc_packet_type: None,
        composition_time: 0,
        body: b"vp9-frame-bytes".to_vec(),
        ex_packet_type: Some(EX_PACKET_TYPE_CODED_FRAMES),
        fourcc: Some(FOURCC_VP9),
        multitrack: None,
    };
    let payload = build_video(&tag);
    assert_eq!(payload[0], 0x91);
    assert_eq!(&payload[1..5], b"vp09");
    assert_eq!(&payload[5..], b"vp9-frame-bytes");

    let back = parse_video(&payload).unwrap();
    assert_eq!(back, tag);
}

#[test]
fn ex_video_tag_sequence_end_empty_body() {
    let tag = VideoTag {
        mod_ex: Vec::new(),
        frame_type: VIDEO_FRAME_KEYFRAME,
        codec_id: 0,
        avc_packet_type: None,
        composition_time: 0,
        body: vec![],
        ex_packet_type: Some(EX_PACKET_TYPE_SEQUENCE_END),
        fourcc: Some(FOURCC_HEVC),
        multitrack: None,
    };
    let payload = build_video(&tag);
    assert_eq!(payload[0], 0x92);
    assert_eq!(&payload[1..5], b"hvc1");
    assert_eq!(payload.len(), 5);

    let back = parse_video(&payload).unwrap();
    assert_eq!(back, tag);
}

#[test]
fn ex_video_tag_metadata_carries_amf_body() {
    let tag = VideoTag {
        mod_ex: Vec::new(),
        frame_type: VIDEO_FRAME_INFO,
        codec_id: 0,
        avc_packet_type: None,
        composition_time: 0,
        body: b"amf-stub".to_vec(),
        ex_packet_type: Some(EX_PACKET_TYPE_METADATA),
        fourcc: Some(FOURCC_HEVC),
        multitrack: None,
    };
    let payload = build_video(&tag);
    assert_eq!(payload[0], 0xD4);
    let back = parse_video(&payload).unwrap();
    assert_eq!(back, tag);
    assert!(back.is_ex_metadata());
}

#[test]
fn color_info_round_trips_full_hdr10() {
    let ci = ColorInfo {
        color_config: Some(ColorConfig {
            bit_depth: Some(num(10.0)),
            color_primaries: Some(num(9.0)),
            transfer_characteristics: Some(num(16.0)),
            matrix_coefficients: Some(num(9.0)),
        }),
        hdr_cll: Some(HdrCll {
            max_fall: Some(num(400.0)),
            max_cll: Some(num(1000.0)),
        }),
        hdr_mdcv: Some(HdrMdcv {
            red_x: Some(num(0.708)),
            red_y: Some(num(0.292)),
            green_x: Some(num(0.170)),
            green_y: Some(num(0.797)),
            blue_x: Some(num(0.131)),
            blue_y: Some(num(0.046)),
            white_point_x: Some(num(0.3127)),
            white_point_y: Some(num(0.3290)),
            max_luminance: Some(num(1000.0)),
            min_luminance: Some(num(0.0001)),
        }),
    };
    let tag = VideoTag::color_info_tag(FOURCC_HEVC, &ci);
    assert!(tag.is_ex_metadata());
    let payload = build_video(&tag);
    let back = parse_video(&payload).unwrap();
    assert_eq!(back, tag);
    let decoded = back.color_info().unwrap().unwrap();
    assert_eq!(decoded, ci);
    assert!(!decoded.is_reset());
}

#[test]
fn color_info_partial_only_color_config_round_trips() {
    let ci = ColorInfo {
        color_config: Some(ColorConfig {
            bit_depth: Some(num(8.0)),
            color_primaries: Some(num(1.0)),
            transfer_characteristics: Some(num(1.0)),
            matrix_coefficients: Some(num(1.0)),
        }),
        hdr_cll: None,
        hdr_mdcv: None,
    };
    let tag = VideoTag::color_info_tag(FOURCC_AV1, &ci);
    let decoded = VideoTag::color_info(&parse_video(&build_video(&tag)).unwrap())
        .unwrap()
        .unwrap();
    assert_eq!(decoded, ci);
    assert!(decoded.hdr_cll.is_none());
    assert!(decoded.hdr_mdcv.is_none());
}

#[test]
fn color_info_reset_encodes_undefined() {
    let ci = ColorInfo::default();
    assert!(ci.is_reset());
    let tag = VideoTag::color_info_tag(FOURCC_HEVC, &ci);
    let back = parse_video(&build_video(&tag)).unwrap();
    let decoded = back.color_info().unwrap().unwrap();
    assert!(decoded.is_reset());
    assert_eq!(decoded, ColorInfo::default());
    let values = decode_all(&tag.body).unwrap();
    assert_eq!(values[0].as_str(), Some("colorInfo"));
    assert_eq!(values[1], Amf0Value::Undefined);
}

#[test]
fn color_info_empty_object_is_present_but_empty() {
    let mut body = Vec::new();
    encode(&mut body, &Amf0Value::String("colorInfo".into()));
    encode(&mut body, &Amf0Value::Object(Vec::new()));
    let tag = VideoTag {
        frame_type: VIDEO_FRAME_INFO,
        codec_id: 0,
        avc_packet_type: None,
        composition_time: 0,
        body,
        ex_packet_type: Some(EX_PACKET_TYPE_METADATA),
        fourcc: Some(FOURCC_HEVC),
        mod_ex: Vec::new(),
        multitrack: None,
    };
    let decoded = tag.color_info().unwrap().unwrap();
    assert!(decoded.is_reset());
}

#[test]
fn color_info_none_for_non_metadata_tag() {
    let tag = VideoTag {
        frame_type: VIDEO_FRAME_KEYFRAME,
        codec_id: VIDEO_CODEC_AVC,
        avc_packet_type: Some(AVC_PACKET_TYPE_NALU),
        composition_time: 0,
        body: vec![0, 0, 0, 1, 0x65],
        ex_packet_type: None,
        fourcc: None,
        mod_ex: Vec::new(),
        multitrack: None,
    };
    assert_eq!(tag.color_info().unwrap(), None);
}

#[test]
fn color_info_none_when_pair_name_is_not_colorinfo() {
    let mut body = Vec::new();
    encode(&mut body, &Amf0Value::String("somethingElse".into()));
    encode(&mut body, &Amf0Value::Number(num(1.0)));
    let tag = VideoTag::color_info_tag(FOURCC_HEVC, &ColorInfo::default());
    let tag = VideoTag { body, ..tag };
    assert_eq!(tag.color_info().unwrap(), None);
}

#[test]
fn color_info_rejects_wrong_amf_type() {
    let mut body = Vec::new();
    encode(&mut body, &Amf0Value::String("colorInfo".into()));
    encode(&mut body, &Amf0Value::Number(num(42.0)));
    let tag = VideoTag::color_info_tag(FOURCC_HEVC, &ColorInfo::default());
    let tag = VideoTag { body, ..tag };
    assert!(tag.color_info().is_err());
}

#[test]
fn legacy_avc_high_frame_type_bit_was_always_zero() {
    for ft in [
        VIDEO_FRAME_KEYFRAME,
        VIDEO_FRAME_INTER,
        VIDEO_FRAME_DISPOSABLE,
        VIDEO_FRAME_GENERATED_KEY,
        VIDEO_FRAME_INFO,
    ] {
        let tag = VideoTag {
            mod_ex: Vec::new(),
            frame_type: ft,
            codec_id: VIDEO_CODEC_AVC,
            avc_packet_type: Some(AVC_PACKET_TYPE_NALU),
            composition_time: 0,
            body: vec![0x00],
            ex_packet_type: None,
            fourcc: None,
            multitrack: None,
        };
        let payload = build_video(&tag);
        assert_eq!(payload[0] & VIDEO_IS_EX_HEADER, 0, "ft={ft}");
    }
}

#[test]
fn ex_video_tag_vp8_sequence_start_carries_vp_config_record() {
    let tag = VideoTag {
        mod_ex: Vec::new(),
        frame_type: VIDEO_FRAME_KEYFRAME,
        codec_id: 0,
        avc_packet_type: None,
        composition_time: 0,
        body: vec![
            0x01, 0x00, 0x08, 0x00, 0x00, 0x00, 0x00, 0x00, 0x00, 0x00, 0x00, 0x00,
        ],
        ex_packet_type: Some(EX_PACKET_TYPE_SEQUENCE_START),
        fourcc: Some(FOURCC_VP8),
        multitrack: None,
    };
    let payload = build_video(&tag);
    assert_eq!(payload[0], 0x90);
    assert_eq!(&payload[1..5], b"vp08");
    assert_eq!(&payload[5..], &tag.body[..]);

    let back = parse_video(&payload).unwrap();
    assert_eq!(back, tag);
    assert!(back.is_ex_sequence_header());
}

#[test]
fn ex_video_tag_vp8_coded_frames_no_cts() {
    let tag = VideoTag {
        mod_ex: Vec::new(),
        frame_type: VIDEO_FRAME_INTER,
        codec_id: 0,
        avc_packet_type: None,
        composition_time: 0,
        body: b"vp8-frame-bytes".to_vec(),
        ex_packet_type: Some(EX_PACKET_TYPE_CODED_FRAMES),
        fourcc: Some(FOURCC_VP8),
        multitrack: None,
    };
    let payload = build_video(&tag);
    assert_eq!(payload[0], 0xA1);
    assert_eq!(&payload[1..5], b"vp08");
    assert_eq!(&payload[5..], b"vp8-frame-bytes");
    let back = parse_video(&payload).unwrap();
    assert_eq!(back, tag);
}

#[test]
fn ex_video_tag_avc_fourcc_sequence_start_carries_avcc() {
    let tag = VideoTag {
        mod_ex: Vec::new(),
        frame_type: VIDEO_FRAME_KEYFRAME,
        codec_id: 0,
        avc_packet_type: None,
        composition_time: 0,
        body: b"\x01\x42\xc0\x1edummy-avcc".to_vec(),
        ex_packet_type: Some(EX_PACKET_TYPE_SEQUENCE_START),
        fourcc: Some(FOURCC_AVC),
        multitrack: None,
    };
    let payload = build_video(&tag);
    assert_eq!(payload[0], 0x90);
    assert_eq!(&payload[1..5], b"avc1");
    assert_eq!(&payload[5..], b"\x01\x42\xc0\x1edummy-avcc");
    let back = parse_video(&payload).unwrap();
    assert_eq!(back, tag);
    assert!(back.is_ex_sequence_header());
}

#[test]
fn ex_video_tag_avc_fourcc_coded_frames_carries_si24_cts() {
    let tag = VideoTag {
        mod_ex: Vec::new(),
        frame_type: VIDEO_FRAME_INTER,
        codec_id: 0,
        avc_packet_type: None,
        composition_time: -100,
        body: b"\x00\x00\x00\x05nalu1".to_vec(),
        ex_packet_type: Some(EX_PACKET_TYPE_CODED_FRAMES),
        fourcc: Some(FOURCC_AVC),
        multitrack: None,
    };
    let payload = build_video(&tag);
    assert_eq!(payload[0], 0xA1);
    assert_eq!(&payload[1..5], b"avc1");
    assert_eq!(&payload[5..8], &[0xFF, 0xFF, 0x9C]);
    assert_eq!(&payload[8..], b"\x00\x00\x00\x05nalu1");
    let back = parse_video(&payload).unwrap();
    assert_eq!(back, tag);
    assert_eq!(back.composition_time, -100);
}

#[test]
fn ex_video_tag_avc_fourcc_coded_frames_x_omits_cts() {
    let tag = VideoTag {
        mod_ex: Vec::new(),
        frame_type: VIDEO_FRAME_INTER,
        codec_id: 0,
        avc_packet_type: None,
        composition_time: 0,
        body: b"\x00\x00\x00\x05nalu2".to_vec(),
        ex_packet_type: Some(EX_PACKET_TYPE_CODED_FRAMES_X),
        fourcc: Some(FOURCC_AVC),
        multitrack: None,
    };
    let payload = build_video(&tag);
    assert_eq!(payload[0], 0xA3);
    assert_eq!(&payload[1..5], b"avc1");
    assert_eq!(&payload[5..], b"\x00\x00\x00\x05nalu2");
    assert_eq!(payload.len(), 1 + 4 + 9);
    let back = parse_video(&payload).unwrap();
    assert_eq!(back, tag);
}

#[test]
fn ex_video_tag_vvc_sequence_start_carries_vvcc() {
    let tag = VideoTag {
        mod_ex: Vec::new(),
        frame_type: VIDEO_FRAME_KEYFRAME,
        codec_id: 0,
        avc_packet_type: None,
        composition_time: 0,
        body: b"\xff\xfcdummy-vvcc".to_vec(),
        ex_packet_type: Some(EX_PACKET_TYPE_SEQUENCE_START),
        fourcc: Some(FOURCC_VVC),
        multitrack: None,
    };
    let payload = build_video(&tag);
    assert_eq!(payload[0], 0x90);
    assert_eq!(&payload[1..5], b"vvc1");
    assert_eq!(&payload[5..], b"\xff\xfcdummy-vvcc");
    let back = parse_video(&payload).unwrap();
    assert_eq!(back, tag);
    assert!(back.is_ex_sequence_header());
}

#[test]
fn ex_video_tag_vvc_coded_frames_carries_si24_cts() {
    let tag = VideoTag {
        mod_ex: Vec::new(),
        frame_type: VIDEO_FRAME_KEYFRAME,
        codec_id: 0,
        avc_packet_type: None,
        composition_time: 17,
        body: b"\x00\x00\x00\x06h266ku".to_vec(),
        ex_packet_type: Some(EX_PACKET_TYPE_CODED_FRAMES),
        fourcc: Some(FOURCC_VVC),
        multitrack: None,
    };
    let payload = build_video(&tag);
    assert_eq!(payload[0], 0x91);
    assert_eq!(&payload[1..5], b"vvc1");
    assert_eq!(&payload[5..8], &[0x00, 0x00, 0x11]);
    assert_eq!(&payload[8..], b"\x00\x00\x00\x06h266ku");
    let back = parse_video(&payload).unwrap();
    assert_eq!(back, tag);
    assert_eq!(back.composition_time, 17);
}

#[test]
fn ex_video_tag_vvc_coded_frames_x_omits_cts() {
    let tag = VideoTag {
        mod_ex: Vec::new(),
        frame_type: VIDEO_FRAME_INTER,
        codec_id: 0,
        avc_packet_type: None,
        composition_time: 0,
        body: b"\x00\x00\x00\x03vvc".to_vec(),
        ex_packet_type: Some(EX_PACKET_TYPE_CODED_FRAMES_X),
        fourcc: Some(FOURCC_VVC),
        multitrack: None,
    };
    let payload = build_video(&tag);
    assert_eq!(payload[0], 0xA3);
    assert_eq!(&payload[1..5], b"vvc1");
    assert_eq!(&payload[5..], b"\x00\x00\x00\x03vvc");
    let back = parse_video(&payload).unwrap();
    assert_eq!(back, tag);
}

#[test]
fn ex_video_tag_avc_fourcc_coded_frames_truncated_si24_errors() {
    let truncated = [
        0xA1,
        b'a', b'v', b'c', b'1',
        0xFF, 0xFF,
    ];
    assert!(parse_video(&truncated).is_err());
}

#[test]
fn ex_video_tag_v2_fourccs_are_distinct_from_v1_set() {
    for &fcc in &[FOURCC_VP8, FOURCC_AVC, FOURCC_VVC] {
        let tag = VideoTag {
            mod_ex: Vec::new(),
            frame_type: VIDEO_FRAME_KEYFRAME,
            codec_id: 0,
            avc_packet_type: None,
            composition_time: 0,
            body: vec![0xDE, 0xAD, 0xBE, 0xEF],
            ex_packet_type: Some(EX_PACKET_TYPE_SEQUENCE_END),
            fourcc: Some(fcc),
            multitrack: None,
        };
        let payload = build_video(&tag);
        assert_eq!(&payload[1..5], &fcc[..]);
        let back = parse_video(&payload).unwrap();
        assert_eq!(back, tag);
        assert!(!matches!(fcc, FOURCC_AV1 | FOURCC_VP9 | FOURCC_HEVC));
    }
}

#[test]
fn audio_tag_aac_sequence_header_roundtrip() {
    let tag = AudioTag {
        mod_ex: Vec::new(),
        sound_format: AUDIO_FORMAT_AAC,
        sound_rate: 3,
        sound_size_16bit: true,
        stereo: true,
        aac_packet_type: Some(AAC_PACKET_TYPE_SEQUENCE_HEADER),
        body: vec![0x12, 0x10],
        ex_packet_type: None,
        audio_fourcc: None,
        multitrack: None,
    };
    let payload = build_audio(&tag);
    assert_eq!(payload[0], 0xAF);
    assert_eq!(payload[1], 0);
    let back = parse_audio(&payload).unwrap();
    assert_eq!(back, tag);
    assert!(back.is_aac_sequence_header());
    assert!(!back.is_enhanced());
}

#[test]
fn ex_audio_tag_opus_sequence_start_roundtrip() {
    let tag = AudioTag {
        mod_ex: Vec::new(),
        sound_format: AUDIO_FORMAT_EX_HEADER,
        sound_rate: 0,
        sound_size_16bit: false,
        stereo: false,
        aac_packet_type: None,
        ex_packet_type: Some(AUDIO_PACKET_TYPE_SEQUENCE_START),
        audio_fourcc: Some(FOURCC_OPUS),
        body: b"OpusHead\x01\x02".to_vec(),
        multitrack: None,
    };
    let payload = build_audio(&tag);
    assert_eq!(payload[0], 0x90);
    assert_eq!(&payload[1..5], b"Opus");
    assert_eq!(&payload[5..], b"OpusHead\x01\x02");

    let back = parse_audio(&payload).unwrap();
    assert_eq!(back, tag);
    assert!(back.is_ex_sequence_header());
    assert!(back.is_enhanced());
    assert_eq!(back.sound_rate, 0);
    assert!(!back.sound_size_16bit);
    assert!(!back.stereo);
}

#[test]
fn ex_audio_tag_opus_coded_frames_carries_self_delimited_packets() {
    let tag = AudioTag {
        mod_ex: Vec::new(),
        sound_format: AUDIO_FORMAT_EX_HEADER,
        sound_rate: 0,
        sound_size_16bit: false,
        stereo: false,
        aac_packet_type: None,
        ex_packet_type: Some(AUDIO_PACKET_TYPE_CODED_FRAMES),
        audio_fourcc: Some(FOURCC_OPUS),
        body: b"opus-frame-bytes".to_vec(),
        multitrack: None,
    };
    let payload = build_audio(&tag);
    assert_eq!(payload[0], 0x91);
    assert_eq!(&payload[1..5], b"Opus");
    assert_eq!(&payload[5..], b"opus-frame-bytes");

    let back = parse_audio(&payload).unwrap();
    assert_eq!(back, tag);
}

#[test]
fn ex_audio_tag_flac_sequence_start_roundtrip() {
    let tag = AudioTag {
        mod_ex: Vec::new(),
        sound_format: AUDIO_FORMAT_EX_HEADER,
        sound_rate: 0,
        sound_size_16bit: false,
        stereo: false,
        aac_packet_type: None,
        ex_packet_type: Some(AUDIO_PACKET_TYPE_SEQUENCE_START),
        audio_fourcc: Some(FOURCC_FLAC),
        body: b"fLaC\x80\x00\x00\x22streaminfo".to_vec(),
        multitrack: None,
    };
    let payload = build_audio(&tag);
    assert_eq!(payload[0], 0x90);
    assert_eq!(&payload[1..5], b"fLaC");
    assert_eq!(&payload[5..], b"fLaC\x80\x00\x00\x22streaminfo");

    let back = parse_audio(&payload).unwrap();
    assert_eq!(back, tag);
    assert!(back.is_ex_sequence_header());
}

#[test]
fn ex_audio_tag_ac3_coded_frames_roundtrip() {
    let tag = AudioTag {
        mod_ex: Vec::new(),
        sound_format: AUDIO_FORMAT_EX_HEADER,
        sound_rate: 0,
        sound_size_16bit: false,
        stereo: false,
        aac_packet_type: None,
        ex_packet_type: Some(AUDIO_PACKET_TYPE_CODED_FRAMES),
        audio_fourcc: Some(FOURCC_AC3),
        body: vec![0x0B, 0x77, 0x12, 0x34, 0x56, 0x78],
        multitrack: None,
    };
    let payload = build_audio(&tag);
    assert_eq!(payload[0], 0x91);
    assert_eq!(&payload[1..5], b"ac-3");
    assert_eq!(&payload[5..], &[0x0B, 0x77, 0x12, 0x34, 0x56, 0x78]);

    let back = parse_audio(&payload).unwrap();
    assert_eq!(back, tag);
}

#[test]
fn ex_audio_tag_eac3_coded_frames_roundtrip() {
    let tag = AudioTag {
        mod_ex: Vec::new(),
        sound_format: AUDIO_FORMAT_EX_HEADER,
        sound_rate: 0,
        sound_size_16bit: false,
        stereo: false,
        aac_packet_type: None,
        ex_packet_type: Some(AUDIO_PACKET_TYPE_CODED_FRAMES),
        audio_fourcc: Some(FOURCC_EAC3),
        body: vec![0x0B, 0x77, 0xAB, 0xCD],
        multitrack: None,
    };
    let payload = build_audio(&tag);
    assert_eq!(payload[0], 0x91);
    assert_eq!(&payload[1..5], b"ec-3");
    let back = parse_audio(&payload).unwrap();
    assert_eq!(back, tag);
}

#[test]
fn ex_audio_tag_mp3_coded_frames_roundtrip() {
    let tag = AudioTag {
        mod_ex: Vec::new(),
        sound_format: AUDIO_FORMAT_EX_HEADER,
        sound_rate: 0,
        sound_size_16bit: false,
        stereo: false,
        aac_packet_type: None,
        ex_packet_type: Some(AUDIO_PACKET_TYPE_CODED_FRAMES),
        audio_fourcc: Some(FOURCC_MP3),
        body: vec![0xFF, 0xFB, 0x90, 0x00],
        multitrack: None,
    };
    let payload = build_audio(&tag);
    assert_eq!(payload[0], 0x91);
    assert_eq!(&payload[1..5], b".mp3");
    let back = parse_audio(&payload).unwrap();
    assert_eq!(back, tag);
}

#[test]
fn ex_audio_tag_aac_fourcc_sequence_start() {
    let tag = AudioTag {
        mod_ex: Vec::new(),
        sound_format: AUDIO_FORMAT_EX_HEADER,
        sound_rate: 0,
        sound_size_16bit: false,
        stereo: false,
        aac_packet_type: None,
        ex_packet_type: Some(AUDIO_PACKET_TYPE_SEQUENCE_START),
        audio_fourcc: Some(FOURCC_AAC),
        body: vec![0x12, 0x10],
        multitrack: None,
    };
    let payload = build_audio(&tag);
    assert_eq!(payload[0], 0x90);
    assert_eq!(&payload[1..5], b"mp4a");
    assert_eq!(&payload[5..], &[0x12, 0x10]);

    let back = parse_audio(&payload).unwrap();
    assert_eq!(back, tag);
    assert!(back.is_ex_sequence_header());
    assert!(!back.is_aac_sequence_header());
}

#[test]
fn ex_audio_tag_sequence_end_empty_body() {
    let tag = AudioTag {
        mod_ex: Vec::new(),
        sound_format: AUDIO_FORMAT_EX_HEADER,
        sound_rate: 0,
        sound_size_16bit: false,
        stereo: false,
        aac_packet_type: None,
        ex_packet_type: Some(AUDIO_PACKET_TYPE_SEQUENCE_END),
        audio_fourcc: Some(FOURCC_OPUS),
        body: vec![],
        multitrack: None,
    };
    let payload = build_audio(&tag);
    assert_eq!(payload[0], 0x92);
    assert_eq!(&payload[1..5], b"Opus");
    assert_eq!(payload.len(), 5);

    let back = parse_audio(&payload).unwrap();
    assert_eq!(back, tag);
}

#[test]
fn ex_audio_tag_truncated_fourcc_errors() {
    let truncated = [0x90, b'O', b'p', b'u'];
    assert!(parse_audio(&truncated).is_err());
    let just_header = [0x90];
    assert!(parse_audio(&just_header).is_err());
}

#[test]
fn legacy_audio_high_nibble_never_collides_with_ex_header() {
    for sf in [
        AUDIO_FORMAT_PCM_LE,
        AUDIO_FORMAT_ADPCM,
        AUDIO_FORMAT_MP3,
        AUDIO_FORMAT_PCM_LE_8BIT,
        AUDIO_FORMAT_NELLYMOSER_16K_MONO,
        AUDIO_FORMAT_NELLYMOSER_8K_MONO,
        AUDIO_FORMAT_NELLYMOSER,
        AUDIO_FORMAT_G711_ALAW,
        AUDIO_FORMAT_G711_MULAW,
        AUDIO_FORMAT_AAC,
        AUDIO_FORMAT_SPEEX,
    ] {
        assert_ne!(sf, AUDIO_FORMAT_EX_HEADER, "sf={sf}");
    }
}

#[test]
fn ex_video_mod_ex_timestamp_offset_nano_roundtrip() {
    let nano = 999_999u32;
    let tag = VideoTag {
        frame_type: VIDEO_FRAME_INTER,
        codec_id: 0,
        avc_packet_type: None,
        composition_time: 7,
        body: b"\x00\x00\x00\x05nalu!".to_vec(),
        ex_packet_type: Some(EX_PACKET_TYPE_CODED_FRAMES),
        fourcc: Some(FOURCC_VVC),
        mod_ex: vec![ModEx::timestamp_offset_nano_entry(nano)],
        multitrack: None,
    };
    let payload = build_video(&tag);
    assert_eq!(payload[0], 0xA7);
    assert_eq!(payload[1], 2);
    assert_eq!(&payload[2..5], &[0x0F, 0x42, 0x3F]);
    assert_eq!(payload[5], 0x01);
    assert_eq!(&payload[6..10], b"vvc1");
    assert_eq!(&payload[10..13], &[0x00, 0x00, 0x07]);
    assert_eq!(&payload[13..], b"\x00\x00\x00\x05nalu!");

    let back = parse_video(&payload).unwrap();
    assert_eq!(back, tag);
    assert_eq!(back.timestamp_offset_nano(), nano);
    assert_eq!(back.mod_ex[0].timestamp_offset_nano(), Some(nano));
}

#[test]
fn ex_video_mod_ex_chain_multiple_entries_roundtrip() {
    let tag = VideoTag {
        frame_type: VIDEO_FRAME_KEYFRAME,
        codec_id: 0,
        avc_packet_type: None,
        composition_time: 0,
        body: b"av1cfg".to_vec(),
        ex_packet_type: Some(EX_PACKET_TYPE_SEQUENCE_START),
        fourcc: Some(FOURCC_AV1),
        mod_ex: vec![
            ModEx::timestamp_offset_nano_entry(500_000),
            ModEx {
                mod_ex_type: 3,
                data: vec![0xAA, 0xBB],
            },
        ],
        multitrack: None,
    };
    let payload = build_video(&tag);
    assert_eq!(payload[1], 2);
    assert_eq!(&payload[2..5], &[0x07, 0xA1, 0x20]);
    assert_eq!(payload[5], 0x07);
    assert_eq!(payload[6], 1);
    assert_eq!(&payload[7..9], &[0xAA, 0xBB]);
    assert_eq!(payload[9], 0x30);
    assert_eq!(&payload[10..14], b"av01");
    assert_eq!(&payload[14..], b"av1cfg");

    let back = parse_video(&payload).unwrap();
    assert_eq!(back, tag);
    assert_eq!(back.timestamp_offset_nano(), 500_000);
}

#[test]
fn ex_video_mod_ex_ui16_size_escape_roundtrip() {
    let big = vec![0x5A; 300];
    let tag = VideoTag {
        frame_type: VIDEO_FRAME_INTER,
        codec_id: 0,
        avc_packet_type: None,
        composition_time: 0,
        body: b"hevc-frame".to_vec(),
        ex_packet_type: Some(EX_PACKET_TYPE_CODED_FRAMES_X),
        fourcc: Some(FOURCC_HEVC),
        mod_ex: vec![ModEx {
            mod_ex_type: MOD_EX_TYPE_TIMESTAMP_OFFSET_NANO,
            data: big.clone(),
        }],
        multitrack: None,
    };
    let payload = build_video(&tag);
    assert_eq!(payload[1], 0xFF);
    assert_eq!(&payload[2..4], &[0x01, 0x2B]);
    assert_eq!(&payload[4..4 + 300], &big[..]);
    assert_eq!(payload[4 + 300], 0x03);

    let back = parse_video(&payload).unwrap();
    assert_eq!(back, tag);
    assert_eq!(back.mod_ex[0].data.len(), 300);
}

#[test]
fn ex_audio_mod_ex_timestamp_offset_nano_roundtrip() {
    let nano = 250_000u32;
    let tag = AudioTag {
        sound_format: AUDIO_FORMAT_EX_HEADER,
        sound_rate: 0,
        sound_size_16bit: false,
        stereo: false,
        aac_packet_type: None,
        ex_packet_type: Some(AUDIO_PACKET_TYPE_CODED_FRAMES),
        audio_fourcc: Some(FOURCC_OPUS),
        body: b"opus-pkt".to_vec(),
        mod_ex: vec![ModEx::timestamp_offset_nano_entry(nano)],
        multitrack: None,
    };
    let payload = build_audio(&tag);
    assert_eq!(payload[0], 0x97);
    assert_eq!(payload[1], 2);
    assert_eq!(&payload[2..5], &[0x03, 0xD0, 0x90]);
    assert_eq!(payload[5], 0x01);
    assert_eq!(&payload[6..10], b"Opus");
    assert_eq!(&payload[10..], b"opus-pkt");

    let back = parse_audio(&payload).unwrap();
    assert_eq!(back, tag);
    assert_eq!(back.timestamp_offset_nano(), nano);
}

#[test]
fn mod_ex_accessor_rejects_wrong_type_and_short_data() {
    let wrong_type = ModEx {
        mod_ex_type: 1,
        data: vec![0, 0, 0],
    };
    assert_eq!(wrong_type.timestamp_offset_nano(), None);
    let too_short = ModEx {
        mod_ex_type: MOD_EX_TYPE_TIMESTAMP_OFFSET_NANO,
        data: vec![0x00, 0x01],
    };
    assert_eq!(too_short.timestamp_offset_nano(), None);
}

#[test]
fn ex_video_mod_ex_truncated_chain_fails_controlled() {
    let truncated = [0x97u8, 0x02];
    assert!(parse_video(&truncated).is_err());
    let no_nibble = [0x97u8, 0x02, 0x00, 0x00, 0x00];
    assert!(parse_video(&no_nibble).is_err());
    let no_fourcc = [0x97u8, 0x02, 0x00, 0x00, 0x00, 0x01];
    assert!(parse_video(&no_fourcc).is_err());
}

#[test]
fn ex_audio_mod_ex_truncated_chain_fails_controlled() {
    let truncated = [0x97u8, 0x02];
    assert!(parse_audio(&truncated).is_err());
    let no_fourcc = [0x97u8, 0x02, 0x00, 0x00, 0x00, 0x01];
    assert!(parse_audio(&no_fourcc).is_err());
}

#[test]
fn ex_video_without_mod_ex_emits_no_prelude() {
    let tag = VideoTag {
        frame_type: VIDEO_FRAME_KEYFRAME,
        codec_id: 0,
        avc_packet_type: None,
        composition_time: 0,
        body: b"\x01cfg".to_vec(),
        ex_packet_type: Some(EX_PACKET_TYPE_SEQUENCE_START),
        fourcc: Some(FOURCC_HEVC),
        mod_ex: Vec::new(),
        multitrack: None,
    };
    let payload = build_video(&tag);
    assert_eq!(payload[0] & 0x0F, EX_PACKET_TYPE_SEQUENCE_START);
    assert_eq!(&payload[1..5], b"hvc1");
    assert_eq!(&payload[5..], b"\x01cfg");
    assert_eq!(parse_video(&payload).unwrap(), tag);
}

#[test]
fn multichannel_config_unspecified_roundtrip() {
    let cfg = MultichannelConfig {
        order: MultichannelConfigOrder::Unspecified,
        channel_count: 2,
        extra: Vec::new(),
    };
    let bytes = cfg.encode();
    assert_eq!(bytes, [0x00, 0x02]);
    let back = MultichannelConfig::parse(&bytes).unwrap();
    assert_eq!(back, cfg);
}

#[test]
fn multichannel_config_native_5_1_layout() {
    let mask = audio_channel_mask::FRONT_LEFT
        | audio_channel_mask::FRONT_RIGHT
        | audio_channel_mask::FRONT_CENTER
        | audio_channel_mask::LOW_FREQUENCY1
        | audio_channel_mask::BACK_LEFT
        | audio_channel_mask::BACK_RIGHT;
    assert_eq!(mask, 0x0000_003F);
    let cfg = MultichannelConfig {
        order: MultichannelConfigOrder::Native { flags: mask },
        channel_count: 6,
        extra: Vec::new(),
    };
    let bytes = cfg.encode();
    assert_eq!(bytes, [0x01, 0x06, 0x00, 0x00, 0x00, 0x3F]);
    let back = MultichannelConfig::parse(&bytes).unwrap();
    assert_eq!(back, cfg);
    if let MultichannelConfigOrder::Native { flags } = back.order {
        assert_eq!(flags & audio_channel_mask::LOW_FREQUENCY1, 0x08);
        assert_eq!(flags & audio_channel_mask::TOP_CENTER, 0);
    } else {
        panic!("expected Native order");
    }
}

#[test]
fn multichannel_config_custom_mapping_roundtrip() {
    let cfg = MultichannelConfig {
        order: MultichannelConfigOrder::Custom {
            mapping: vec![audio_channel::FRONT_LEFT, audio_channel::FRONT_RIGHT],
        },
        channel_count: 2,
        extra: Vec::new(),
    };
    let bytes = cfg.encode();
    assert_eq!(bytes, [0x02, 0x02, 0x00, 0x01]);
    let back = MultichannelConfig::parse(&bytes).unwrap();
    assert_eq!(back, cfg);
}

#[test]
fn multichannel_config_custom_22_2_layout() {
    let mapping: Vec<u8> = (0..24).collect();
    let cfg = MultichannelConfig {
        order: MultichannelConfigOrder::Custom {
            mapping: mapping.clone(),
        },
        channel_count: 24,
        extra: Vec::new(),
    };
    let bytes = cfg.encode();
    assert_eq!(bytes.len(), 2 + 24);
    assert_eq!(bytes[0], AUDIO_CHANNEL_ORDER_CUSTOM);
    assert_eq!(bytes[1], 24);
    assert_eq!(&bytes[2..], mapping.as_slice());
    let back = MultichannelConfig::parse(&bytes).unwrap();
    assert_eq!(back, cfg);
}

#[test]
fn multichannel_config_custom_with_unused_unknown_sentinels() {
    let cfg = MultichannelConfig {
        order: MultichannelConfigOrder::Custom {
            mapping: vec![
                audio_channel::FRONT_LEFT,
                audio_channel::FRONT_RIGHT,
                audio_channel::UNUSED,
                audio_channel::UNKNOWN,
            ],
        },
        channel_count: 4,
        extra: Vec::new(),
    };
    let bytes = cfg.encode();
    assert_eq!(bytes, [0x02, 0x04, 0x00, 0x01, 0xFE, 0xFF]);
    assert_eq!(MultichannelConfig::parse(&bytes).unwrap(), cfg);
}

#[test]
fn multichannel_config_truncated_errors() {
    assert!(MultichannelConfig::parse(&[]).is_err());
    assert!(MultichannelConfig::parse(&[0x00]).is_err());
    assert!(MultichannelConfig::parse(&[0x01, 0x06, 0x00]).is_err());
    assert!(MultichannelConfig::parse(&[0x02, 0x03, 0x00, 0x01]).is_err());
    assert!(MultichannelConfig::parse(&[0x00, 0x02, 0xff]).is_err());
}

#[test]
fn multichannel_config_reserved_order_preserves_extra_bytes() {
    let body = vec![0x05, 0x04, 0xAA, 0xBB, 0xCC];
    let cfg = MultichannelConfig::parse(&body).unwrap();
    assert_eq!(cfg.order, MultichannelConfigOrder::Reserved(0x05));
    assert_eq!(cfg.channel_count, 4);
    assert_eq!(cfg.extra, vec![0xAA, 0xBB, 0xCC]);
    assert_eq!(cfg.encode(), body);
}

#[test]
fn audio_tag_multichannel_config_full_roundtrip() {
    let cfg = MultichannelConfig {
        order: MultichannelConfigOrder::Native {
            flags: audio_channel_mask::FRONT_LEFT
                | audio_channel_mask::FRONT_RIGHT
                | audio_channel_mask::FRONT_CENTER,
        },
        channel_count: 3,
        extra: Vec::new(),
    };
    let tag = AudioTag::multichannel_config_tag(FOURCC_OPUS, &cfg);
    assert!(tag.is_multichannel_config());
    assert_eq!(tag.audio_fourcc, Some(FOURCC_OPUS));
    assert_eq!(
        tag.ex_packet_type,
        Some(AUDIO_PACKET_TYPE_MULTICHANNEL_CONFIG)
    );
    let wire = build_audio(&tag);
    assert_eq!(wire[0], (AUDIO_FORMAT_EX_HEADER << 4) | 0x04);
    assert_eq!(&wire[1..5], b"Opus");
    assert_eq!(wire.len(), 1 + 4 + 6);
    let back = parse_audio(&wire).unwrap();
    assert_eq!(back, tag);
    let cfg_back = back.multichannel_config().unwrap().unwrap();
    assert_eq!(cfg_back, cfg);
}

#[test]
fn audio_tag_multichannel_config_accessor_returns_none_for_other_packet_types() {
    let tag = AudioTag {
        sound_format: AUDIO_FORMAT_EX_HEADER,
        sound_rate: 0,
        sound_size_16bit: false,
        stereo: false,
        aac_packet_type: None,
        ex_packet_type: Some(AUDIO_PACKET_TYPE_SEQUENCE_START),
        audio_fourcc: Some(FOURCC_OPUS),
        body: vec![b'O', b'p', b'u', b's', b'H', b'e', b'a', b'd'],
        mod_ex: Vec::new(),
        multitrack: None,
    };
    assert!(!tag.is_multichannel_config());
    assert!(tag.multichannel_config().unwrap().is_none());
}

#[test]
fn multichannel_config_disjoint_from_legacy_audio() {
    let tag = AudioTag {
        sound_format: AUDIO_FORMAT_AAC,
        sound_rate: 3,
        sound_size_16bit: true,
        stereo: true,
        aac_packet_type: Some(AAC_PACKET_TYPE_RAW),
        ex_packet_type: None,
        audio_fourcc: None,
        body: vec![0x01, 0x06, 0x00, 0x00, 0x00, 0x3F],
        mod_ex: Vec::new(),
        multitrack: None,
    };
    assert!(!tag.is_multichannel_config());
    assert!(tag.multichannel_config().unwrap().is_none());
}

#[test]
fn audio_channel_mask_22_2_bit_assignments() {
    let pairs = [
        (audio_channel::FRONT_LEFT, audio_channel_mask::FRONT_LEFT),
        (audio_channel::FRONT_RIGHT, audio_channel_mask::FRONT_RIGHT),
        (
            audio_channel::FRONT_CENTER,
            audio_channel_mask::FRONT_CENTER,
        ),
        (
            audio_channel::LOW_FREQUENCY1,
            audio_channel_mask::LOW_FREQUENCY1,
        ),
        (audio_channel::BACK_LEFT, audio_channel_mask::BACK_LEFT),
        (audio_channel::BACK_RIGHT, audio_channel_mask::BACK_RIGHT),
        (
            audio_channel::FRONT_LEFT_CENTER,
            audio_channel_mask::FRONT_LEFT_CENTER,
        ),
        (
            audio_channel::FRONT_RIGHT_CENTER,
            audio_channel_mask::FRONT_RIGHT_CENTER,
        ),
        (audio_channel::BACK_CENTER, audio_channel_mask::BACK_CENTER),
        (audio_channel::SIDE_LEFT, audio_channel_mask::SIDE_LEFT),
        (audio_channel::SIDE_RIGHT, audio_channel_mask::SIDE_RIGHT),
        (audio_channel::TOP_CENTER, audio_channel_mask::TOP_CENTER),
        (
            audio_channel::TOP_FRONT_LEFT,
            audio_channel_mask::TOP_FRONT_LEFT,
        ),
        (
            audio_channel::TOP_FRONT_CENTER,
            audio_channel_mask::TOP_FRONT_CENTER,
        ),
        (
            audio_channel::TOP_FRONT_RIGHT,
            audio_channel_mask::TOP_FRONT_RIGHT,
        ),
        (
            audio_channel::TOP_BACK_LEFT,
            audio_channel_mask::TOP_BACK_LEFT,
        ),
        (
            audio_channel::TOP_BACK_CENTER,
            audio_channel_mask::TOP_BACK_CENTER,
        ),
        (
            audio_channel::TOP_BACK_RIGHT,
            audio_channel_mask::TOP_BACK_RIGHT,
        ),
        (
            audio_channel::LOW_FREQUENCY2,
            audio_channel_mask::LOW_FREQUENCY2,
        ),
        (
            audio_channel::TOP_SIDE_LEFT,
            audio_channel_mask::TOP_SIDE_LEFT,
        ),
        (
            audio_channel::TOP_SIDE_RIGHT,
            audio_channel_mask::TOP_SIDE_RIGHT,
        ),
        (
            audio_channel::BOTTOM_FRONT_CENTER,
            audio_channel_mask::BOTTOM_FRONT_CENTER,
        ),
        (
            audio_channel::BOTTOM_FRONT_LEFT,
            audio_channel_mask::BOTTOM_FRONT_LEFT,
        ),
        (
            audio_channel::BOTTOM_FRONT_RIGHT,
            audio_channel_mask::BOTTOM_FRONT_RIGHT,
        ),
    ];
    for (ch, mask) in pairs {
        assert_eq!(
            1u32 << ch as u32,
            mask,
            "channel {ch} should map to mask bit (1 << {ch})"
        );
    }
}

#[test]
fn multitrack_one_track_video_roundtrip() {
    let mt = Multitrack {
        multitrack_type: AV_MULTITRACK_TYPE_ONE_TRACK,
        tracks: vec![MultitrackTrack {
            fourcc: None,
            track_id: 0,
            body: b"\x00\x00\x00\x05hello".to_vec(),
        }],
    };
    let tag = VideoTag::multitrack_tag(
        VIDEO_FRAME_KEYFRAME,
        EX_PACKET_TYPE_CODED_FRAMES,
        Some(FOURCC_AVC),
        mt.clone(),
    );
    assert!(tag.is_multitrack());
    let wire = build_video(&tag);
    assert_eq!(wire[0], 0x96);
    assert_eq!(wire[1], 0x01);
    assert_eq!(&wire[2..6], b"avc1");
    assert_eq!(wire[6], 0x00);
    assert_eq!(&wire[7..], b"\x00\x00\x00\x05hello");
    let back = parse_video(&wire).unwrap();
    assert_eq!(back, tag);
    assert_eq!(back.multitrack.as_ref().unwrap(), &mt);
    assert_eq!(back.ex_packet_type, Some(EX_PACKET_TYPE_CODED_FRAMES));
    assert_eq!(back.fourcc, Some(FOURCC_AVC));
}

#[test]
fn multitrack_many_tracks_video_roundtrip() {
    let mt = Multitrack {
        multitrack_type: AV_MULTITRACK_TYPE_MANY_TRACKS,
        tracks: vec![
            MultitrackTrack {
                fourcc: None,
                track_id: 0,
                body: b"hevc-track-0".to_vec(),
            },
            MultitrackTrack {
                fourcc: None,
                track_id: 1,
                body: b"hevc-track-1-longer".to_vec(),
            },
        ],
    };
    let tag = VideoTag::multitrack_tag(
        VIDEO_FRAME_INTER,
        EX_PACKET_TYPE_CODED_FRAMES,
        Some(FOURCC_HEVC),
        mt.clone(),
    );
    let wire = build_video(&tag);
    assert_eq!(wire[0], 0xA6);
    assert_eq!(wire[1], 0x11);
    assert_eq!(&wire[2..6], b"hvc1");
    assert_eq!(wire[6], 0x00);
    assert_eq!(&wire[7..10], &[0, 0, 12]);
    assert_eq!(&wire[10..22], b"hevc-track-0");
    assert_eq!(wire[22], 0x01);
    assert_eq!(&wire[23..26], &[0, 0, 19]);
    assert_eq!(&wire[26..45], b"hevc-track-1-longer");
    let back = parse_video(&wire).unwrap();
    assert_eq!(back, tag);
}

#[test]
fn multitrack_many_tracks_many_codecs_video_roundtrip() {
    let mt = Multitrack {
        multitrack_type: AV_MULTITRACK_TYPE_MANY_TRACKS_MANY_CODECS,
        tracks: vec![
            MultitrackTrack {
                fourcc: Some(FOURCC_HEVC),
                track_id: 0,
                body: b"hevc-data".to_vec(),
            },
            MultitrackTrack {
                fourcc: Some(FOURCC_AV1),
                track_id: 1,
                body: b"av1-obu-bytes".to_vec(),
            },
        ],
    };
    let tag = VideoTag::multitrack_tag(
        VIDEO_FRAME_KEYFRAME,
        EX_PACKET_TYPE_CODED_FRAMES,
        None,
        mt.clone(),
    );
    let wire = build_video(&tag);
    assert_eq!(wire[0], 0x96);
    assert_eq!(wire[1], 0x21);
    assert_eq!(&wire[2..6], b"hvc1");
    assert_eq!(wire[6], 0x00);
    assert_eq!(&wire[7..10], &[0, 0, 9]);
    assert_eq!(&wire[10..19], b"hevc-data");
    assert_eq!(&wire[19..23], b"av01");
    assert_eq!(wire[23], 0x01);
    assert_eq!(&wire[24..27], &[0, 0, 13]);
    assert_eq!(&wire[27..40], b"av1-obu-bytes");
    let back = parse_video(&wire).unwrap();
    assert_eq!(back, tag);
    assert_eq!(back.fourcc, None);
}

#[test]
fn multitrack_audio_one_track_roundtrip() {
    let mt = Multitrack {
        multitrack_type: AV_MULTITRACK_TYPE_ONE_TRACK,
        tracks: vec![MultitrackTrack {
            fourcc: None,
            track_id: 0,
            body: b"opus-packet-bytes".to_vec(),
        }],
    };
    let tag = AudioTag::multitrack_tag(
        AUDIO_PACKET_TYPE_CODED_FRAMES,
        Some(FOURCC_OPUS),
        mt.clone(),
    );
    assert!(tag.is_multitrack());
    let wire = build_audio(&tag);
    assert_eq!(wire[0], 0x95);
    assert_eq!(wire[1], 0x01);
    assert_eq!(&wire[2..6], b"Opus");
    assert_eq!(wire[6], 0x00);
    assert_eq!(&wire[7..], b"opus-packet-bytes");
    let back = parse_audio(&wire).unwrap();
    assert_eq!(back, tag);
    assert_eq!(back.ex_packet_type, Some(AUDIO_PACKET_TYPE_CODED_FRAMES));
    assert_eq!(back.audio_fourcc, Some(FOURCC_OPUS));
}

#[test]
fn multitrack_audio_many_tracks_many_codecs_roundtrip() {
    let mt = Multitrack {
        multitrack_type: AV_MULTITRACK_TYPE_MANY_TRACKS_MANY_CODECS,
        tracks: vec![
            MultitrackTrack {
                fourcc: Some(FOURCC_OPUS),
                track_id: 0,
                body: b"opus-bytes".to_vec(),
            },
            MultitrackTrack {
                fourcc: Some(FOURCC_AAC),
                track_id: 7,
                body: b"aac-raw-frame".to_vec(),
            },
        ],
    };
    let tag = AudioTag::multitrack_tag(AUDIO_PACKET_TYPE_CODED_FRAMES, None, mt.clone());
    let wire = build_audio(&tag);
    assert_eq!(wire[0], 0x95);
    assert_eq!(wire[1], 0x21);
    assert_eq!(&wire[2..6], b"Opus");
    assert_eq!(wire[6], 0x00);
    assert_eq!(&wire[7..10], &[0, 0, 10]);
    assert_eq!(&wire[10..20], b"opus-bytes");
    assert_eq!(&wire[20..24], b"mp4a");
    assert_eq!(wire[24], 0x07);
    assert_eq!(&wire[25..28], &[0, 0, 13]);
    assert_eq!(&wire[28..41], b"aac-raw-frame");
    let back = parse_audio(&wire).unwrap();
    assert_eq!(back, tag);
    assert_eq!(back.audio_fourcc, None);
}

#[test]
fn multitrack_video_inner_packet_type_must_not_be_multitrack() {
    let wire = [0x96u8, 0x06, b'a', b'v', b'c', b'1', 0x00];
    let err = parse_video(&wire).unwrap_err();
    let msg = format!("{err:?}");
    assert!(msg.contains("MUST NOT"), "got: {msg}");
}

#[test]
fn multitrack_audio_inner_packet_type_must_not_be_multitrack() {
    let wire = [0x95u8, 0x05, b'O', b'p', b'u', b's', 0x00];
    let err = parse_audio(&wire).unwrap_err();
    let msg = format!("{err:?}");
    assert!(msg.contains("MUST NOT"), "got: {msg}");
}

#[test]
fn multitrack_video_truncated_size_overruns_error() {
    let mut wire = vec![0x96u8, 0x11];
    wire.extend_from_slice(b"avc1");
    wire.push(0x00);
    wire.extend_from_slice(&[0x00, 0x00, 100]);
    wire.extend_from_slice(b"short");
    let err = parse_video(&wire).unwrap_err();
    let msg = format!("{err:?}");
    assert!(
        msg.contains("overruns"),
        "expected size-overrun error, got: {msg}"
    );
}

#[test]
fn multitrack_truncation_paths_audio_video() {
    assert!(parse_video(&[0x96]).is_err());
    assert!(parse_audio(&[0x95]).is_err());
    assert!(parse_video(&[0x96, 0x01]).is_err());
    assert!(parse_audio(&[0x95, 0x01]).is_err());
    assert!(parse_video(&[0x96, 0x01, b'a', b'v', b'c', b'1']).is_err());
    assert!(parse_video(&[0x96, 0x21]).is_err());
}

#[test]
fn multitrack_video_roundtrips_through_mod_ex_prelude() {
    let mt = Multitrack {
        multitrack_type: AV_MULTITRACK_TYPE_ONE_TRACK,
        tracks: vec![MultitrackTrack {
            fourcc: None,
            track_id: 0,
            body: b"hevc-nalus".to_vec(),
        }],
    };
    let mut tag = VideoTag::multitrack_tag(
        VIDEO_FRAME_KEYFRAME,
        EX_PACKET_TYPE_CODED_FRAMES,
        Some(FOURCC_HEVC),
        mt.clone(),
    );
    tag.mod_ex = vec![ModEx::timestamp_offset_nano_entry(123_456)];
    let wire = build_video(&tag);
    let back = parse_video(&wire).unwrap();
    assert_eq!(back, tag);
    assert_eq!(back.timestamp_offset_nano(), 123_456);
    assert!(back.is_multitrack());
}

#[test]
fn multitrack_helpers_round_trip_through_body_encode_parse() {
    let mt = Multitrack {
        multitrack_type: 4,
        tracks: vec![
            MultitrackTrack {
                fourcc: None,
                track_id: 2,
                body: vec![0xDE, 0xAD],
            },
            MultitrackTrack {
                fourcc: None,
                track_id: 3,
                body: vec![0xBE, 0xEF, 0xCA, 0xFE],
            },
        ],
    };
    let bytes = mt.encode();
    let back = Multitrack::parse(&bytes, 4).unwrap();
    assert_eq!(back, mt);
}

#[test]
fn mpeg2ts_sequence_start_av1_round_trips() {
    let descriptor = vec![0x80, 0x04, 0x81, 0x0D, 0x00, 0x00];
    let tag = VideoTag::mpeg2ts_sequence_start_tag(FOURCC_AV1, descriptor.clone());
    assert!(tag.is_ex_mpeg2ts_sequence_start());
    assert!(!tag.is_ex_sequence_header());
    assert_eq!(tag.mpeg2ts_video_descriptor(), Some(&descriptor[..]));

    let wire = build_video(&tag);
    assert_eq!(
        wire[0],
        0x80 | (1 << 4) | EX_PACKET_TYPE_MPEG2TS_SEQUENCE_START
    );
    assert_eq!(&wire[1..5], &FOURCC_AV1);
    assert_eq!(&wire[5..], &descriptor[..]);

    let back = parse_video(&wire).unwrap();
    assert_eq!(back, tag);
    assert!(back.is_ex_mpeg2ts_sequence_start());
    assert_eq!(back.mpeg2ts_video_descriptor(), Some(&descriptor[..]));
}

#[test]
fn mpeg2ts_descriptor_is_none_for_non_mpeg2ts_tags() {
    let seq = VideoTag {
        frame_type: VIDEO_FRAME_KEYFRAME,
        codec_id: 0,
        avc_packet_type: None,
        composition_time: 0,
        body: vec![0x01, 0x02],
        ex_packet_type: Some(EX_PACKET_TYPE_SEQUENCE_START),
        fourcc: Some(FOURCC_AV1),
        mod_ex: Vec::new(),
        multitrack: None,
    };
    assert!(!seq.is_ex_mpeg2ts_sequence_start());
    assert_eq!(seq.mpeg2ts_video_descriptor(), None);

    let hvc = VideoTag::mpeg2ts_sequence_start_tag(FOURCC_HEVC, vec![0xAA]);
    assert!(hvc.is_ex_mpeg2ts_sequence_start());
    assert_eq!(hvc.mpeg2ts_video_descriptor(), None);
}

#[test]
fn video_sequence_end_tag_round_trips() {
    let tag = VideoTag::sequence_end_tag(FOURCC_HEVC);
    assert!(tag.is_ex_sequence_end());
    assert!(!tag.is_ex_sequence_header());
    assert!(tag.body.is_empty());
    let wire = build_video(&tag);
    assert_eq!(wire[0], 0x80 | (2 << 4) | EX_PACKET_TYPE_SEQUENCE_END);
    assert_eq!(&wire[1..5], &FOURCC_HEVC);
    assert_eq!(wire.len(), 5);
    let back = parse_video(&wire).unwrap();
    assert_eq!(back, tag);
    assert!(back.is_ex_sequence_end());
}

#[test]
fn audio_sequence_end_tag_round_trips() {
    let tag = AudioTag::sequence_end_tag(FOURCC_OPUS);
    assert!(tag.is_ex_sequence_end());
    assert!(!tag.is_ex_sequence_header());
    assert!(tag.body.is_empty());
    let wire = build_audio(&tag);
    assert_eq!(
        wire[0],
        (AUDIO_FORMAT_EX_HEADER << 4) | AUDIO_PACKET_TYPE_SEQUENCE_END
    );
    assert_eq!(&wire[1..5], &FOURCC_OPUS);
    assert_eq!(wire.len(), 5);
    let back = parse_audio(&wire).unwrap();
    assert_eq!(back, tag);
    assert!(back.is_ex_sequence_end());
}

#[test]
fn empty_audio_payload_is_silence_message() {
    assert!(is_silence_payload(&[]));
    let msg = parse_audio_message(&[]).unwrap();
    assert_eq!(msg, AudioMessage::Silence);
    assert!(msg.is_silence());
    assert!(msg.as_tag().is_none());
}

#[test]
fn silence_message_builds_to_empty_payload() {
    assert!(build_silence_audio().is_empty());
    assert_eq!(
        build_audio_message(&AudioMessage::Silence),
        Vec::<u8>::new()
    );
}

#[test]
fn silence_message_round_trips() {
    let wire = build_audio_message(&AudioMessage::Silence);
    let back = parse_audio_message(&wire).unwrap();
    assert_eq!(back, AudioMessage::Silence);
}

#[test]
fn non_empty_audio_payload_is_a_tag_not_silence() {
    let tag = AudioTag {
        sound_format: AUDIO_FORMAT_AAC,
        sound_rate: 3,
        sound_size_16bit: true,
        stereo: true,
        aac_packet_type: Some(AAC_PACKET_TYPE_RAW),
        ex_packet_type: None,
        audio_fourcc: None,
        body: vec![0xAB, 0xCD],
        mod_ex: Vec::new(),
        multitrack: None,
    };
    let wire = build_audio(&tag);
    assert!(!is_silence_payload(&wire));
    let msg = parse_audio_message(&wire).unwrap();
    assert!(!msg.is_silence());
    assert_eq!(msg, AudioMessage::Tag(tag));
}

#[test]
fn audio_message_round_trips_a_tag() {
    let tag = AudioTag {
        sound_format: AUDIO_FORMAT_EX_HEADER,
        sound_rate: 0,
        sound_size_16bit: false,
        stereo: false,
        aac_packet_type: None,
        ex_packet_type: Some(AUDIO_PACKET_TYPE_CODED_FRAMES),
        audio_fourcc: Some(FOURCC_OPUS),
        body: vec![0x01, 0x02, 0x03],
        mod_ex: Vec::new(),
        multitrack: None,
    };
    let wire = build_audio_message(&AudioMessage::Tag(tag.clone()));
    let back = parse_audio_message(&wire).unwrap();
    assert_eq!(back, AudioMessage::Tag(tag));
}
