//! Tags as packets.

use oxideav_core::{ColorSignal, TimeBase};
use oxideav_rtmp::adapter::{
    AUDIO_STREAM_INDEX, ListenUrl, RTMP_MS_TO_NS, SourceError, TimestampUnwrapper,
    VIDEO_STREAM_INDEX, audio_codec_id, audio_codec_id_for_tag, audio_codec_params,
    audio_fourcc_codec_id, audio_to_packet, flatten_metadata, rtmp_time_base, rtmp_to_core_err,
    video_codec_id, video_codec_id_for_tag, video_codec_params, video_to_packet,
};
use oxideav_rtmp::amf::Amf0Value;
use oxideav_rtmp::error::Error;
use oxideav_rtmp::flv::{
    AAC_PACKET_TYPE_RAW, AAC_PACKET_TYPE_SEQUENCE_HEADER, AUDIO_FORMAT_AAC,
    AUDIO_FORMAT_EX_HEADER, AUDIO_FORMAT_MP3, AUDIO_FORMAT_PCM_LE,
    AUDIO_PACKET_TYPE_CODED_FRAMES, AUDIO_PACKET_TYPE_SEQUENCE_END,
    AUDIO_PACKET_TYPE_SEQUENCE_START, AVC_PACKET_TYPE_NALU, AVC_PACKET_TYPE_SEQUENCE_HEADER,
    AudioTag, EX_PACKET_TYPE_CODED_FRAMES, EX_PACKET_TYPE_METADATA,
    EX_PACKET_TYPE_SEQUENCE_START, FOURCC_AAC, FOURCC_AC3, FOURCC_AV1, FOURCC_EAC3, FOURCC_FLAC,
    FOURCC_HEVC, FOURCC_MP3, FOURCC_OPUS, FOURCC_VP9, ModEx, VIDEO_CODEC_AVC, VIDEO_CODEC_H263,
    VIDEO_CODEC_VP6, VIDEO_FRAME_INTER, VIDEO_FRAME_KEYFRAME, VideoTag, parse_video,
};
use oxideav_rtmp::number::Double;

fn num(x: f64) -> Double {
    Double::from_bits(x.to_bits())
}

fn number_text(d: Double) -> String {
    f64::from_bits(d.to_bits()).to_string()
}

#[test]
fn audio_codec_id_maps_aac_and_mp3() {
    assert_eq!(audio_codec_id(AUDIO_FORMAT_AAC).as_str(), "aac");
    assert_eq!(audio_codec_id(AUDIO_FORMAT_MP3).as_str(), "mp3");
    assert_eq!(audio_codec_id(AUDIO_FORMAT_PCM_LE).as_str(), "pcm_s16le");
    assert_eq!(audio_codec_id(0xFF).as_str(), "unknown");
}

#[test]
fn video_codec_id_maps_avc_and_h263() {
    assert_eq!(video_codec_id(VIDEO_CODEC_AVC).as_str(), "h264");
    assert_eq!(video_codec_id(VIDEO_CODEC_H263).as_str(), "h263");
    assert_eq!(video_codec_id(VIDEO_CODEC_VP6).as_str(), "vp6f");
    assert_eq!(video_codec_id(0xFF).as_str(), "unknown");
}

#[test]
fn audio_aac_seq_header_packet_carries_marker_and_header_flag() {
    let tag = AudioTag {
        mod_ex: Vec::new(),
        sound_format: AUDIO_FORMAT_AAC,
        sound_rate: 3,
        sound_size_16bit: true,
        stereo: true,
        aac_packet_type: Some(AAC_PACKET_TYPE_SEQUENCE_HEADER),
        body: vec![0x12, 0x10],
        ex_packet_type: None,
        audio_fourcc: None,
        multitrack: None,
    };
    let pkt = audio_to_packet(0, &tag);
    assert_eq!(pkt.stream_index, AUDIO_STREAM_INDEX);
    assert_eq!(pkt.time_base, rtmp_time_base());
    assert_eq!(pkt.pts, Some(0));
    assert_eq!(pkt.dts, Some(0));
    assert!(pkt.flags.header);
    assert_eq!(pkt.data, vec![0x00, 0x12, 0x10]);
}

#[test]
fn timestamp_unwrapper_anchors_at_first_value() {
    let mut u = TimestampUnwrapper::new();
    assert_eq!(u.unwrap_ms(5000), 5000);
    assert_eq!(u.unwrap_ms(6000), 6000);
}

#[test]
fn timestamp_unwrapper_spec_examples() {
    let mut u = TimestampUnwrapper::new();
    let a = u.unwrap_ms(4_000_000_000);
    let b = u.unwrap_ms(10_000);
    assert!(b > a, "10000 must come after 4000000000 ({b} vs {a})");
    assert_eq!(b - a, (1i64 << 32) - 4_000_000_000 + 10_000);

    let mut u = TimestampUnwrapper::new();
    let a = u.unwrap_ms(4_000_000_000);
    let b = u.unwrap_ms(3_000_000_000);
    assert!(b < a);
    assert_eq!(a - b, 1_000_000_000);
}

#[test]
fn timestamp_unwrapper_survives_multiple_rollovers() {
    let mut u = TimestampUnwrapper::new();
    let step = (1u32 << 31) - 1;
    let mut raw = 0u32;
    let mut prev = u.unwrap_ms(raw);
    for _ in 0..10 {
        raw = raw.wrapping_add(step);
        let ext = u.unwrap_ms(raw);
        assert_eq!(ext - prev, step as i64);
        prev = ext;
    }
    assert!(
        prev > u64::from(u32::MAX) as i64,
        "timeline must exceed 32 bits"
    );
}

#[test]
fn unwrapped_timestamp_reaches_packet_timeline_past_32_bits() {
    let tag = AudioTag {
        mod_ex: Vec::new(),
        sound_format: AUDIO_FORMAT_AAC,
        sound_rate: 3,
        sound_size_16bit: true,
        stereo: true,
        aac_packet_type: Some(AAC_PACKET_TYPE_RAW),
        body: vec![0x01],
        ex_packet_type: None,
        audio_fourcc: None,
        multitrack: None,
    };
    let fifty_days_ms: i64 = 50 * 24 * 3600 * 1000;
    let pkt = audio_to_packet(fifty_days_ms, &tag);
    assert_eq!(pkt.pts, Some(fifty_days_ms * RTMP_MS_TO_NS));
}

#[test]
fn audio_aac_raw_packet_keeps_packet_type_byte() {
    let tag = AudioTag {
        mod_ex: Vec::new(),
        sound_format: AUDIO_FORMAT_AAC,
        sound_rate: 3,
        sound_size_16bit: true,
        stereo: true,
        aac_packet_type: Some(AAC_PACKET_TYPE_RAW),
        body: vec![0xAB, 0xCD, 0xEF],
        ex_packet_type: None,
        audio_fourcc: None,
        multitrack: None,
    };
    let pkt = audio_to_packet(123, &tag);
    assert_eq!(pkt.pts, Some(123 * RTMP_MS_TO_NS));
    assert_eq!(pkt.dts, Some(123 * RTMP_MS_TO_NS));
    assert!(!pkt.flags.header);
    assert_eq!(pkt.data, vec![0x01, 0xAB, 0xCD, 0xEF]);
}

#[test]
fn audio_mp3_packet_strips_flv_header_only() {
    let tag = AudioTag {
        mod_ex: Vec::new(),
        sound_format: AUDIO_FORMAT_MP3,
        sound_rate: 3,
        sound_size_16bit: true,
        stereo: true,
        aac_packet_type: None,
        body: vec![0xFF, 0xFB, 0x90, 0x00],
        ex_packet_type: None,
        audio_fourcc: None,
        multitrack: None,
    };
    let pkt = audio_to_packet(40, &tag);
    assert_eq!(pkt.data, vec![0xFF, 0xFB, 0x90, 0x00]);
    assert_eq!(pkt.pts, Some(40 * RTMP_MS_TO_NS));
}

#[test]
fn audio_codec_id_for_tag_dispatches_legacy_vs_fourcc() {
    let legacy_aac = AudioTag {
        mod_ex: Vec::new(),
        sound_format: AUDIO_FORMAT_AAC,
        sound_rate: 3,
        sound_size_16bit: true,
        stereo: true,
        aac_packet_type: Some(AAC_PACKET_TYPE_SEQUENCE_HEADER),
        body: vec![],
        ex_packet_type: None,
        audio_fourcc: None,
        multitrack: None,
    };
    assert_eq!(audio_codec_id_for_tag(&legacy_aac).as_str(), "aac");
    for (fcc, expected) in [
        (FOURCC_OPUS, "opus"),
        (FOURCC_FLAC, "flac"),
        (FOURCC_AC3, "ac3"),
        (FOURCC_EAC3, "eac3"),
        (FOURCC_MP3, "mp3"),
        (FOURCC_AAC, "aac"),
    ] {
        let t = AudioTag {
            mod_ex: Vec::new(),
            sound_format: AUDIO_FORMAT_EX_HEADER,
            sound_rate: 0,
            sound_size_16bit: false,
            stereo: false,
            aac_packet_type: None,
            ex_packet_type: Some(AUDIO_PACKET_TYPE_CODED_FRAMES),
            audio_fourcc: Some(fcc),
            body: vec![],
            multitrack: None,
        };
        assert_eq!(audio_codec_id_for_tag(&t).as_str(), expected);
    }
}

#[test]
fn audio_fourcc_codec_id_unknown_collapses() {
    assert_eq!(audio_fourcc_codec_id(*b"xxxx").as_str(), "unknown");
}

#[test]
fn ex_opus_sequence_start_packet_sets_header_flag_and_strips_fourcc() {
    let tag = AudioTag {
        mod_ex: Vec::new(),
        sound_format: AUDIO_FORMAT_EX_HEADER,
        sound_rate: 0,
        sound_size_16bit: false,
        stereo: false,
        aac_packet_type: None,
        ex_packet_type: Some(AUDIO_PACKET_TYPE_SEQUENCE_START),
        audio_fourcc: Some(FOURCC_OPUS),
        body: b"OpusHead\x01\x02\x38\x01\x80\xbb\x00\x00\x00\x00\x00".to_vec(),
        multitrack: None,
    };
    let pkt = audio_to_packet(0, &tag);
    assert_eq!(pkt.stream_index, AUDIO_STREAM_INDEX);
    assert!(pkt.flags.header);
    assert_eq!(
        pkt.data,
        b"OpusHead\x01\x02\x38\x01\x80\xbb\x00\x00\x00\x00\x00".to_vec()
    );
}

#[test]
fn ex_ac3_coded_frames_packet_strips_fourcc_and_keeps_body() {
    let tag = AudioTag {
        mod_ex: Vec::new(),
        sound_format: AUDIO_FORMAT_EX_HEADER,
        sound_rate: 0,
        sound_size_16bit: false,
        stereo: false,
        aac_packet_type: None,
        ex_packet_type: Some(AUDIO_PACKET_TYPE_CODED_FRAMES),
        audio_fourcc: Some(FOURCC_AC3),
        body: vec![0x0B, 0x77, 0xAB, 0xCD, 0xEF],
        multitrack: None,
    };
    let pkt = audio_to_packet(200, &tag);
    assert!(!pkt.flags.header);
    assert_eq!(pkt.dts, Some(200 * RTMP_MS_TO_NS));
    assert_eq!(pkt.pts, Some(200 * RTMP_MS_TO_NS));
    assert_eq!(pkt.data, vec![0x0B, 0x77, 0xAB, 0xCD, 0xEF]);
}

#[test]
fn ex_audio_sequence_end_packet_flagged_header_with_empty_body() {
    let tag = AudioTag {
        mod_ex: Vec::new(),
        sound_format: AUDIO_FORMAT_EX_HEADER,
        sound_rate: 0,
        sound_size_16bit: false,
        stereo: false,
        aac_packet_type: None,
        ex_packet_type: Some(AUDIO_PACKET_TYPE_SEQUENCE_END),
        audio_fourcc: Some(FOURCC_OPUS),
        body: vec![],
        multitrack: None,
    };
    let pkt = audio_to_packet(999, &tag);
    assert!(pkt.flags.header);
    assert!(pkt.data.is_empty());
    assert_eq!(pkt.dts, Some(999 * RTMP_MS_TO_NS));
}

#[test]
fn ex_audio_codec_params_copies_sequence_start_to_extradata() {
    let tag = AudioTag {
        mod_ex: Vec::new(),
        sound_format: AUDIO_FORMAT_EX_HEADER,
        sound_rate: 0,
        sound_size_16bit: false,
        stereo: false,
        aac_packet_type: None,
        ex_packet_type: Some(AUDIO_PACKET_TYPE_SEQUENCE_START),
        audio_fourcc: Some(FOURCC_FLAC),
        body: b"fLaC\x80\x00\x00\x22streaminfo-body-bytes".to_vec(),
        multitrack: None,
    };
    let p = audio_codec_params(&tag);
    assert_eq!(p.codec_id.as_str(), "flac");
    assert_eq!(p.extradata, tag.body);
    assert_eq!(p.sample_rate, None);
    assert_eq!(p.channels, None);
}

#[test]
fn ex_audio_codec_params_ac3_coded_frames_leaves_extradata_empty() {
    let tag = AudioTag {
        mod_ex: Vec::new(),
        sound_format: AUDIO_FORMAT_EX_HEADER,
        sound_rate: 0,
        sound_size_16bit: false,
        stereo: false,
        aac_packet_type: None,
        ex_packet_type: Some(AUDIO_PACKET_TYPE_CODED_FRAMES),
        audio_fourcc: Some(FOURCC_AC3),
        body: vec![0x0B, 0x77, 0xAB, 0xCD],
        multitrack: None,
    };
    let p = audio_codec_params(&tag);
    assert_eq!(p.codec_id.as_str(), "ac3");
    assert!(p.extradata.is_empty());
}

#[test]
fn video_avc_keyframe_packet_keyframe_flag_and_no_pts_offset() {
    let tag = VideoTag {
        mod_ex: Vec::new(),
        frame_type: VIDEO_FRAME_KEYFRAME,
        codec_id: VIDEO_CODEC_AVC,
        avc_packet_type: Some(AVC_PACKET_TYPE_NALU),
        composition_time: 0,
        body: b"\x00\x00\x00\x05hello".to_vec(),
        ex_packet_type: None,
        fourcc: None,
        multitrack: None,
    };
    let pkt = video_to_packet(33, &tag);
    assert_eq!(pkt.stream_index, VIDEO_STREAM_INDEX);
    assert!(pkt.flags.keyframe);
    assert!(!pkt.flags.header);
    assert_eq!(pkt.pts, Some(33 * RTMP_MS_TO_NS));
    assert_eq!(pkt.dts, Some(33 * RTMP_MS_TO_NS));
    assert_eq!(pkt.data, b"\x00\x00\x00\x05hello".to_vec());
}

#[test]
fn video_avc_inter_packet_with_negative_cts_offsets_pts() {
    let tag = VideoTag {
        mod_ex: Vec::new(),
        frame_type: VIDEO_FRAME_INTER,
        codec_id: VIDEO_CODEC_AVC,
        avc_packet_type: Some(AVC_PACKET_TYPE_NALU),
        composition_time: -10,
        body: vec![1, 2, 3],
        ex_packet_type: None,
        fourcc: None,
        multitrack: None,
    };
    let pkt = video_to_packet(100, &tag);
    assert!(!pkt.flags.keyframe);
    assert_eq!(pkt.dts, Some(100 * RTMP_MS_TO_NS));
    assert_eq!(pkt.pts, Some(90 * RTMP_MS_TO_NS));
}

#[test]
fn video_avc_seq_header_marks_header_flag() {
    let tag = VideoTag {
        mod_ex: Vec::new(),
        frame_type: VIDEO_FRAME_KEYFRAME,
        codec_id: VIDEO_CODEC_AVC,
        avc_packet_type: Some(AVC_PACKET_TYPE_SEQUENCE_HEADER),
        composition_time: 0,
        body: b"\x01\x42\x80\x1e".to_vec(),
        ex_packet_type: None,
        fourcc: None,
        multitrack: None,
    };
    let pkt = video_to_packet(0, &tag);
    assert!(pkt.flags.keyframe);
    assert!(pkt.flags.header);
    assert_eq!(pkt.data, b"\x01\x42\x80\x1e".to_vec());
}

#[test]
fn video_h263_packet_keeps_body_and_pts_eq_dts() {
    let tag = VideoTag {
        mod_ex: Vec::new(),
        frame_type: VIDEO_FRAME_INTER,
        codec_id: VIDEO_CODEC_H263,
        avc_packet_type: None,
        composition_time: 0,
        body: vec![0xAA, 0xBB, 0xCC],
        ex_packet_type: None,
        fourcc: None,
        multitrack: None,
    };
    let pkt = video_to_packet(50, &tag);
    assert_eq!(pkt.pts, pkt.dts);
    assert_eq!(pkt.data, vec![0xAA, 0xBB, 0xCC]);
}

#[test]
fn video_codec_id_for_tag_dispatches_legacy_vs_fourcc() {
    let avc = VideoTag {
        mod_ex: Vec::new(),
        frame_type: VIDEO_FRAME_KEYFRAME,
        codec_id: VIDEO_CODEC_AVC,
        avc_packet_type: Some(AVC_PACKET_TYPE_NALU),
        composition_time: 0,
        body: vec![],
        ex_packet_type: None,
        fourcc: None,
        multitrack: None,
    };
    assert_eq!(video_codec_id_for_tag(&avc).as_str(), "h264");
    for (fcc, expected) in [
        (FOURCC_HEVC, "hevc"),
        (FOURCC_AV1, "av1"),
        (FOURCC_VP9, "vp9"),
    ] {
        let t = VideoTag {
            mod_ex: Vec::new(),
            frame_type: VIDEO_FRAME_KEYFRAME,
            codec_id: 0,
            avc_packet_type: None,
            composition_time: 0,
            body: vec![],
            ex_packet_type: Some(EX_PACKET_TYPE_CODED_FRAMES),
            fourcc: Some(fcc),
            multitrack: None,
        };
        assert_eq!(video_codec_id_for_tag(&t).as_str(), expected);
    }
}

#[test]
fn ex_hevc_sequence_start_packet_sets_header_flag() {
    let tag = VideoTag {
        mod_ex: Vec::new(),
        frame_type: VIDEO_FRAME_KEYFRAME,
        codec_id: 0,
        avc_packet_type: None,
        composition_time: 0,
        body: b"\x01hvcc-stub".to_vec(),
        ex_packet_type: Some(EX_PACKET_TYPE_SEQUENCE_START),
        fourcc: Some(FOURCC_HEVC),
        multitrack: None,
    };
    let pkt = video_to_packet(0, &tag);
    assert!(pkt.flags.header);
    assert!(pkt.flags.keyframe);
    assert_eq!(pkt.dts, Some(0));
    assert_eq!(pkt.pts, Some(0));
    assert_eq!(pkt.time_base, rtmp_time_base());
    assert_eq!(pkt.data, b"\x01hvcc-stub".to_vec());
}

#[test]
fn ex_hevc_coded_frames_with_cts_offsets_pts() {
    let tag = VideoTag {
        mod_ex: Vec::new(),
        frame_type: VIDEO_FRAME_INTER,
        codec_id: 0,
        avc_packet_type: None,
        composition_time: 17,
        body: b"\x00\x00\x00\x04NALU".to_vec(),
        ex_packet_type: Some(EX_PACKET_TYPE_CODED_FRAMES),
        fourcc: Some(FOURCC_HEVC),
        multitrack: None,
    };
    let pkt = video_to_packet(200, &tag);
    assert!(!pkt.flags.keyframe);
    assert!(!pkt.flags.header);
    assert_eq!(pkt.dts, Some(200 * RTMP_MS_TO_NS));
    assert_eq!(pkt.pts, Some(217 * RTMP_MS_TO_NS));
}

#[test]
fn ex_av1_coded_frames_no_cts_offset() {
    let tag = VideoTag {
        mod_ex: Vec::new(),
        frame_type: VIDEO_FRAME_KEYFRAME,
        codec_id: 0,
        avc_packet_type: None,
        composition_time: 0,
        body: vec![0x0a, 0x0b],
        ex_packet_type: Some(EX_PACKET_TYPE_CODED_FRAMES),
        fourcc: Some(FOURCC_AV1),
        multitrack: None,
    };
    let pkt = video_to_packet(500, &tag);
    assert!(pkt.flags.keyframe);
    assert!(!pkt.flags.header);
    assert_eq!(pkt.dts, pkt.pts);
    assert_eq!(pkt.dts, Some(500 * RTMP_MS_TO_NS));
}

#[test]
fn ex_metadata_packet_ignores_frame_type_flags() {
    let tag = VideoTag {
        mod_ex: Vec::new(),
        frame_type: VIDEO_FRAME_KEYFRAME,
        codec_id: 0,
        avc_packet_type: None,
        composition_time: 0,
        body: b"amf-payload".to_vec(),
        ex_packet_type: Some(EX_PACKET_TYPE_METADATA),
        fourcc: Some(FOURCC_HEVC),
        multitrack: None,
    };
    let pkt = video_to_packet(123, &tag);
    assert!(!pkt.flags.keyframe);
    assert!(pkt.flags.header);
    assert_eq!(pkt.data, b"amf-payload".to_vec());
}

#[test]
fn audio_timestamp_offset_nano_folds_into_presentation_time() {
    let tag = AudioTag {
        mod_ex: vec![ModEx::timestamp_offset_nano_entry(750_000)],
        sound_format: AUDIO_FORMAT_EX_HEADER,
        sound_rate: 0,
        sound_size_16bit: false,
        stereo: false,
        aac_packet_type: None,
        ex_packet_type: Some(AUDIO_PACKET_TYPE_CODED_FRAMES),
        audio_fourcc: Some(FOURCC_OPUS),
        body: vec![0x12, 0x34, 0x56],
        multitrack: None,
    };
    let pkt = audio_to_packet(40, &tag);
    assert_eq!(pkt.pts, Some(40_750_000));
    assert_eq!(pkt.dts, Some(40_750_000));
    assert_eq!(pkt.time_base, rtmp_time_base());
}

#[test]
fn video_timestamp_offset_nano_folds_into_pts_only() {
    let tag = VideoTag {
        mod_ex: vec![ModEx::timestamp_offset_nano_entry(123_456)],
        frame_type: VIDEO_FRAME_INTER,
        codec_id: 0,
        avc_packet_type: None,
        composition_time: 0,
        body: b"\x00\x00\x00\x04NALU".to_vec(),
        ex_packet_type: Some(EX_PACKET_TYPE_CODED_FRAMES),
        fourcc: Some(FOURCC_AV1),
        multitrack: None,
    };
    let pkt = video_to_packet(60, &tag);
    assert_eq!(pkt.dts, Some(60_000_000));
    assert_eq!(pkt.pts, Some(60_123_456));
    assert_eq!(pkt.time_base, rtmp_time_base());
}

#[test]
fn video_timestamp_offset_nano_stacks_on_cts_and_dts_unchanged() {
    let tag = VideoTag {
        mod_ex: vec![ModEx::timestamp_offset_nano_entry(500_000)],
        frame_type: VIDEO_FRAME_INTER,
        codec_id: 0,
        avc_packet_type: None,
        composition_time: 17,
        body: b"\x00\x00\x00\x04NALU".to_vec(),
        ex_packet_type: Some(EX_PACKET_TYPE_CODED_FRAMES),
        fourcc: Some(FOURCC_HEVC),
        multitrack: None,
    };
    let pkt = video_to_packet(200, &tag);
    assert_eq!(pkt.dts, Some(200_000_000));
    assert_eq!(pkt.pts, Some(217_500_000));
}

#[test]
fn video_timestamp_offset_nano_sums_multiple_modex_entries() {
    let tag = VideoTag {
        mod_ex: vec![
            ModEx::timestamp_offset_nano_entry(200_000),
            ModEx {
                mod_ex_type: 0x0F,
                data: vec![0xAA, 0xBB, 0xCC],
            },
            ModEx::timestamp_offset_nano_entry(300_000),
        ],
        frame_type: VIDEO_FRAME_KEYFRAME,
        codec_id: 0,
        avc_packet_type: None,
        composition_time: 0,
        body: vec![0x0A],
        ex_packet_type: Some(EX_PACKET_TYPE_CODED_FRAMES),
        fourcc: Some(FOURCC_VP9),
        multitrack: None,
    };
    let pkt = video_to_packet(10, &tag);
    assert_eq!(pkt.pts, Some(10_500_000));
    assert_eq!(pkt.dts, Some(10_000_000));
}

#[test]
fn time_base_is_nanoseconds() {
    assert_eq!(rtmp_time_base(), TimeBase::new(1, 1_000_000_000));
    assert_eq!(RTMP_MS_TO_NS, 1_000_000);
}

#[test]
fn legacy_avc_seq_header_constant_still_referenced() {
    let _ = AVC_PACKET_TYPE_SEQUENCE_HEADER;
}

#[test]
fn listen_url_parses_host_port_app_key() {
    let u = ListenUrl::parse("rtmp://127.0.0.1:1935/live/secret").expect("parse");
    assert_eq!(u.bind_addr, "127.0.0.1:1935");
    assert_eq!(u.expected_app, "live");
    assert_eq!(u.expected_stream, "secret");
}

#[test]
fn listen_url_default_port_is_1935() {
    let u = ListenUrl::parse("rtmp://0.0.0.0/live/key").expect("parse");
    assert_eq!(u.bind_addr, "0.0.0.0:1935");
}

#[test]
fn listen_url_accepts_app_only_path() {
    let u = ListenUrl::parse("rtmp://127.0.0.1:1935/live").expect("parse");
    assert_eq!(u.expected_app, "live");
    assert_eq!(u.expected_stream, "");
}

#[test]
fn listen_url_rejects_non_rtmp_scheme() {
    assert!(ListenUrl::parse("http://x/y").is_err());
}

#[test]
fn listen_url_rejects_missing_path() {
    assert!(ListenUrl::parse("rtmp://127.0.0.1:1935").is_err());
}

#[test]
fn flatten_metadata_keeps_scalars_and_drops_objects() {
    let v = Amf0Value::Object(vec![
        ("width".into(), Amf0Value::Number(num(1280.0))),
        ("height".into(), Amf0Value::Number(num(720.0))),
        ("encoder".into(), Amf0Value::String("oxideav".into())),
        ("vhost".into(), Amf0Value::Object(vec![])),
        ("live".into(), Amf0Value::Boolean(true)),
    ]);
    let mut out = Vec::new();
    flatten_metadata(&v, &number_text, &mut out);
    assert_eq!(
        out,
        vec![
            ("width".to_string(), "1280".to_string()),
            ("height".to_string(), "720".to_string()),
            ("encoder".to_string(), "oxideav".to_string()),
            ("live".to_string(), "true".to_string()),
        ]
    );
}

#[test]
fn rtmp_to_core_err_maps_unexpected_eof_to_eof() {
    let core = rtmp_to_core_err(Error::UnexpectedEof);
    assert!(matches!(core, SourceError::Eof));
}

#[test]
fn rtmp_to_core_err_maps_protocol_violation_to_invalid_data() {
    let core = rtmp_to_core_err(Error::ProtocolViolation("bad chunk size".into()));
    match core {
        SourceError::InvalidData(s) => assert!(s.contains("bad chunk size")),
        _ => panic!("expected InvalidData"),
    }
}

#[test]
fn parameters_have_nothing_set_beyond_the_tag() {
    let mp3 = AudioTag {
        mod_ex: Vec::new(),
        sound_format: AUDIO_FORMAT_MP3,
        sound_rate: 2,
        sound_size_16bit: true,
        stereo: true,
        aac_packet_type: None,
        body: vec![1],
        ex_packet_type: None,
        audio_fourcc: None,
        multitrack: None,
    };
    let p = audio_codec_params(&mp3);
    assert_eq!(p.codec_id.as_str(), "mp3");
    assert_eq!((p.sample_rate, p.channels), (Some(22_050), Some(2)));
    assert!(p.extradata.is_empty());
    assert_eq!(p.options.iter().count(), 0);
    assert_eq!(p.limits.max_pixels_per_frame, 0x4000_0000);
    assert_eq!(p.limits.max_alloc_bytes_per_frame, 0x4000_0000);
    assert_eq!(p.limits.max_alloc_count_per_frame, 1_000_000);
    assert_eq!(p.limits.max_arenas_in_flight, 8);
    assert_eq!(p.limits.max_decoded_audio_seconds_per_packet, 60);
    assert_eq!(p.color_signal, ColorSignal::unspecified());
    assert_eq!(p.color_signal.primaries.0, 2);
    assert_eq!(p.color_signal.transfer.0, 2);
    assert_eq!(p.color_signal.matrix.0, 2);
    assert!(p.sample_format.is_none() && p.channel_layout.is_none() && p.bit_rate.is_none());
    assert!(p.tag.is_none() && p.language.is_none() && p.device_index.is_none());
    assert!(p.layers.is_empty() && p.blobs.is_empty());

    let video = video_codec_params(&parse_video(&[0x17, 0, 0, 0, 0, 7, 8]).expect("parse"));
    assert_eq!(video.codec_id.as_str(), "h264");
    assert_eq!(video.extradata, vec![7, 8]);
    assert_eq!(video.options.iter().count(), 0);
    assert_eq!(video.limits, p.limits);
    assert_eq!(video.color_signal, p.color_signal);
    assert!(video.width.is_none() && video.height.is_none() && video.pixel_format.is_none());
    assert!(video.frame_rate.is_none() && video.sample_rate.is_none() && video.channels.is_none());
}

#[test]
fn each_number_takes_a_text_that_is_given() {
    let count = std::cell::Cell::new(0);
    let next = |_: Double| {
        count.set(count.get() + 1);
        count.get().to_string()
    };
    let value = Amf0Value::Object(vec![
        ("a".to_string(), Amf0Value::Number(num(5.0))),
        ("b".to_string(), Amf0Value::Null),
        ("c".to_string(), Amf0Value::String("x".to_string())),
        ("d".to_string(), Amf0Value::Number(num(5.0))),
        ("e".to_string(), Amf0Value::Boolean(false)),
    ]);
    let mut out = vec![("k".to_string(), "v".to_string())];
    flatten_metadata(&value, &next, &mut out);
    let pairs: Vec<(&str, &str)> = out.iter().map(|(k, v)| (k.as_str(), v.as_str())).collect();
    assert_eq!(pairs, vec![("k", "v"), ("a", "1"), ("c", "x"), ("d", "2"), ("e", "false")]);
}
