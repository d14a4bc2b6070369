//! Tags of several tracks, command tags, and metadata.

use oxideav_rtmp::amf::Amf0Value;
use oxideav_rtmp::error::{Error, Result};
use oxideav_rtmp::flv::{
    AUDIO_FORMAT_EX_HEADER, AUDIO_PACKET_TYPE_CODED_FRAMES, AV_MULTITRACK_TYPE_MANY_TRACKS,
    AV_MULTITRACK_TYPE_MANY_TRACKS_MANY_CODECS, AV_MULTITRACK_TYPE_ONE_TRACK, AudioTag,
    ColorConfig, ColorInfo, EX_PACKET_TYPE_CODED_FRAMES, EX_PACKET_TYPE_METADATA,
    EX_PACKET_TYPE_MOD_EX, EX_PACKET_TYPE_MULTITRACK, FOURCC_AV1, FOURCC_HEVC, FOURCC_OPUS, HdrCll,
    HdrMdcv, ModEx, Multitrack, MultitrackTrack, OnMetaData, VIDEO_CODEC_AVC,
    VIDEO_COMMAND_END_SEEK, VIDEO_COMMAND_START_SEEK, VIDEO_FRAME_COMMAND, VIDEO_FRAME_INTER,
    VIDEO_FRAME_KEYFRAME, VideoTag, build_audio, build_video, parse_audio, parse_video,
};
use oxideav_rtmp::number::Double;

fn num(x: f64) -> Double {
    Double::from_bits(x.to_bits())
}

fn video(fourcc: [u8; 4], cts: i32, body: &[u8]) -> VideoTag {
    VideoTag {
        frame_type: VIDEO_FRAME_KEYFRAME,
        codec_id: 0,
        avc_packet_type: None,
        composition_time: cts,
        body: body.to_vec(),
        ex_packet_type: Some(EX_PACKET_TYPE_CODED_FRAMES),
        fourcc: Some(fourcc),
        mod_ex: Vec::new(),
        multitrack: None,
    }
}

fn audio(fourcc: [u8; 4], body: &[u8]) -> AudioTag {
    let mut payload = vec![(AUDIO_FORMAT_EX_HEADER << 4) | AUDIO_PACKET_TYPE_CODED_FRAMES];
    payload.extend_from_slice(&fourcc);
    payload.extend_from_slice(body);
    parse_audio(&payload).expect("audio")
}

fn text<T: std::fmt::Debug>(r: Result<T>) -> String {
    match r {
        Err(Error::Other(m)) => m,
        other => panic!("{other:?}"),
    }
}

#[test]
fn video_tracks_are_packed_and_taken_apart() {
    let one = video(FOURCC_HEVC, -40, &[1, 2, 3]);
    let two = video(FOURCC_AV1, 0, &[4]);
    let packed = VideoTag::multitrack_from_tags(
        AV_MULTITRACK_TYPE_MANY_TRACKS_MANY_CODECS,
        &[(0, &one), (5, &two)],
    )
    .expect("pack");
    assert!(packed.is_multitrack());
    assert_eq!(packed.fourcc, None);
    assert_eq!(packed.ex_packet_type, Some(EX_PACKET_TYPE_CODED_FRAMES));
    let tracks = &packed.multitrack.as_ref().expect("tracks").tracks;
    assert_eq!(tracks[0].body, vec![0xFF, 0xFF, 0xD8, 1, 2, 3]);
    assert_eq!(tracks[1].fourcc, Some(FOURCC_AV1));
    let wire = build_video(&packed);
    let again = parse_video(&wire).expect("parse");
    assert_eq!(again, packed);
    assert_eq!(again.demux_tracks().expect("apart"), vec![(0, one.clone()), (5, two)]);

    let other = video(FOURCC_HEVC, 7, &[9]);
    let shared = VideoTag::multitrack_from_tags(
        AV_MULTITRACK_TYPE_MANY_TRACKS,
        &[(1, &one), (2, &other)],
    )
    .expect("pack");
    assert_eq!(shared.fourcc, Some(FOURCC_HEVC));
    assert_eq!(shared.demux_tracks().expect("apart"), vec![(1, one.clone()), (2, other)]);

    let single =
        VideoTag::multitrack_from_tags(AV_MULTITRACK_TYPE_ONE_TRACK, &[(3, &one)]).expect("pack");
    assert_eq!(single.demux_tracks().expect("apart"), vec![(3, one)]);
}

#[test]
fn audio_tracks_are_packed_and_taken_apart() {
    let one = audio(FOURCC_OPUS, &[1]);
    let two = audio(*b"fLaC", &[]);
    let packed = AudioTag::multitrack_from_tags(
        AV_MULTITRACK_TYPE_MANY_TRACKS_MANY_CODECS,
        &[(8, &one), (9, &two)],
    )
    .expect("pack");
    let again = parse_audio(&build_audio(&packed)).expect("parse");
    assert_eq!(again, packed);
    assert_eq!(again.demux_tracks().expect("apart"), vec![(8, one), (9, two)]);
}

#[test]
fn tags_that_do_not_go_together_are_refused() {
    let hevc = video(FOURCC_HEVC, 0, &[1]);
    let av1 = video(FOURCC_AV1, 0, &[1]);
    let pack = |mode, tags: &[(u8, &VideoTag)]| text(VideoTag::multitrack_from_tags(mode, tags));
    assert_eq!(pack(1, &[]), "multitrack_from_tags (video): need at least one track");
    assert_eq!(
        pack(0, &[(1, &hevc), (2, &hevc)]),
        "multitrack_from_tags (video): OneTrack mode carries exactly one track, got 2"
    );
    assert_eq!(
        pack(1, &[(1, &hevc), (2, &av1)]),
        "multitrack_from_tags (video): track 2 FourCC differs — OneTrack / ManyTracks share one \
         codec; use ManyTracksManyCodecs"
    );
    let mut inter = hevc.clone();
    inter.frame_type = VIDEO_FRAME_INTER;
    assert_eq!(
        pack(1, &[(1, &hevc), (2, &inter)]),
        "multitrack_from_tags: track 2 FrameType differs (the outer header carries one FrameType \
         per message)"
    );
    let mut other = hevc.clone();
    other.ex_packet_type = Some(EX_PACKET_TYPE_METADATA);
    assert_eq!(
        pack(1, &[(1, &hevc), (4, &other)]),
        "multitrack_from_tags (video): track 4 PacketType differs (the wire carries one inner \
         PacketType per message)"
    );
    let mut offset = hevc.clone();
    offset.mod_ex = vec![ModEx::timestamp_offset_nano_entry(5)];
    assert_eq!(
        pack(1, &[(3, &offset)]),
        "multitrack_from_tags (video): track 3 carries a ModEx prelude (message-level ModEx \
         belongs on the outer tag)"
    );
    let mut legacy = hevc.clone();
    legacy.fourcc = None;
    assert_eq!(
        pack(1, &[(3, &legacy)]),
        "multitrack_from_tags (video): track 3 is not an Enhanced-RTMP tag (no FourCC)"
    );
    legacy.ex_packet_type = None;
    assert_eq!(
        pack(1, &[(3, &legacy)]),
        "multitrack_from_tags (video): track 3 is not an Enhanced-RTMP tag (no PacketType)"
    );
    let nested = VideoTag::multitrack_from_tags(1, &[(1, &hevc)]).expect("pack");
    assert_eq!(
        pack(1, &[(6, &nested)]),
        "multitrack_from_tags (video): track 6 is itself a Multitrack tag"
    );
    for reserved in [EX_PACKET_TYPE_MULTITRACK, EX_PACKET_TYPE_MOD_EX] {
        let mut bad = hevc.clone();
        bad.ex_packet_type = Some(reserved);
        assert_eq!(
            pack(1, &[(1, &bad)]),
            format!(
                "multitrack_from_tags (video): inner PacketType {reserved} is reserved \
                 (Multitrack / ModEx cannot nest)"
            )
        );
    }
    let opus = audio(FOURCC_OPUS, &[1]);
    let flac = audio(*b"fLaC", &[1]);
    assert_eq!(
        text(AudioTag::multitrack_from_tags(1, &[(1, &opus), (7, &flac)])),
        "multitrack_from_tags (audio): track 7 FourCC differs — OneTrack / ManyTracks share one \
         codec; use ManyTracksManyCodecs"
    );
}

#[test]
fn tracks_that_cannot_be_told_apart_are_refused() {
    assert_eq!(
        text(video(FOURCC_HEVC, 0, &[]).demux_tracks()),
        "VideoTag::demux_tracks: tag is not a Multitrack message"
    );
    assert_eq!(
        text(audio(FOURCC_OPUS, &[]).demux_tracks()),
        "AudioTag::demux_tracks: tag is not a Multitrack message"
    );
    let tracks = |body: &[u8]| Multitrack {
        multitrack_type: AV_MULTITRACK_TYPE_MANY_TRACKS,
        tracks: vec![MultitrackTrack { fourcc: None, track_id: 2, body: body.to_vec() }],
    };
    let bare = VideoTag::multitrack_tag(1, EX_PACKET_TYPE_CODED_FRAMES, None, tracks(&[1]));
    assert_eq!(
        text(bare.demux_tracks()),
        "VideoTag::demux_tracks: track 2 has no FourCC (neither per-track nor shared)"
    );
    let mut lost = bare.clone();
    lost.ex_packet_type = None;
    assert_eq!(
        text(lost.demux_tracks()),
        "VideoTag::demux_tracks: multitrack tag lacks inner PacketType"
    );
    let short =
        VideoTag::multitrack_tag(1, EX_PACKET_TYPE_CODED_FRAMES, Some(FOURCC_HEVC), tracks(&[1]));
    assert_eq!(
        text(short.demux_tracks()),
        "VideoTag::demux_tracks: track 2 body failed to parse: rtmp: Enhanced RTMP / HEVC \
         CodedFrames: need 3 bytes for SI24 CTS"
    );
}

#[test]
fn the_mode_says_whose_fourcc_counts() {
    let own = |mode: u8, fourcc: Option<[u8; 4]>| Multitrack {
        multitrack_type: mode,
        tracks: vec![MultitrackTrack { fourcc, track_id: 0, body: vec![0x0A] }],
    };
    let many_codecs = own(AV_MULTITRACK_TYPE_MANY_TRACKS_MANY_CODECS, None);
    let v = VideoTag::multitrack_tag(1, 1, Some(FOURCC_AV1), many_codecs.clone());
    assert_eq!(
        text(v.demux_tracks()),
        "VideoTag::demux_tracks: track 0 has no FourCC (neither per-track nor shared)"
    );
    let a = AudioTag::multitrack_tag(1, Some(FOURCC_OPUS), many_codecs);
    assert_eq!(
        text(a.demux_tracks()),
        "AudioTag::demux_tracks: track 0 has no FourCC (neither per-track nor shared)"
    );
    let its = own(AV_MULTITRACK_TYPE_MANY_TRACKS_MANY_CODECS, Some(*b"vp09"));
    let v = VideoTag::multitrack_tag(1, 1, Some(FOURCC_AV1), its);
    assert_eq!(v.demux_tracks().expect("apart")[0].1.fourcc, Some(*b"vp09"));
    for mode in [AV_MULTITRACK_TYPE_ONE_TRACK, AV_MULTITRACK_TYPE_MANY_TRACKS] {
        let v = VideoTag::multitrack_tag(1, 1, Some(FOURCC_AV1), own(mode, Some(*b"vp09")));
        assert_eq!(v.demux_tracks().expect("apart")[0].1.fourcc, Some(FOURCC_AV1));
        let v = VideoTag::multitrack_tag(1, 1, None, own(mode, Some(*b"vp09")));
        assert_eq!(v.demux_tracks().expect("apart")[0].1.fourcc, Some(*b"vp09"));
        let v = VideoTag::multitrack_tag(1, 1, None, own(mode, None));
        assert!(matches!(v.demux_tracks(), Err(Error::Other(_))));
        let a = AudioTag::multitrack_tag(1, Some(FOURCC_OPUS), own(mode, Some(*b"fLaC")));
        assert_eq!(a.demux_tracks().expect("apart")[0].1.audio_fourcc, Some(FOURCC_OPUS));
        let a = AudioTag::multitrack_tag(1, None, own(mode, Some(*b"fLaC")));
        assert_eq!(a.demux_tracks().expect("apart")[0].1.audio_fourcc, Some(*b"fLaC"));
        let a = AudioTag::multitrack_tag(1, None, own(mode, None));
        assert!(matches!(a.demux_tracks(), Err(Error::Other(_))));
    }
    for reserved in [3, 15] {
        for shared in [None, Some(FOURCC_AV1)] {
            let v = VideoTag::multitrack_tag(1, 1, shared, own(reserved, Some(*b"vp09")));
            assert_eq!(v.demux_tracks().expect("apart")[0].1.fourcc, Some(*b"vp09"));
            let a = AudioTag::multitrack_tag(1, shared, own(reserved, Some(*b"fLaC")));
            assert_eq!(a.demux_tracks().expect("apart")[0].1.audio_fourcc, Some(*b"fLaC"));
        }
        let v = VideoTag::multitrack_tag(1, 1, Some(FOURCC_AV1), own(reserved, None));
        assert_eq!(v.demux_tracks().expect("apart")[0].1.fourcc, Some(FOURCC_AV1));
        let a = AudioTag::multitrack_tag(1, Some(FOURCC_OPUS), own(reserved, None));
        assert_eq!(a.demux_tracks().expect("apart")[0].1.audio_fourcc, Some(FOURCC_OPUS));
        let v = VideoTag::multitrack_tag(1, 1, None, own(reserved, None));
        assert!(matches!(v.demux_tracks(), Err(Error::Other(_))));
    }
}

#[test]
fn track_lists_are_read_to_the_end() {
    assert_eq!(text(Multitrack::parse(&[], 1)), "Multitrack: empty track list (need at least one track)");
    assert_eq!(text(Multitrack::parse(&[1, 2], 2)), "Multitrack: truncated reading per-track FourCC");
    assert_eq!(text(Multitrack::parse(&[1, 2, 3, 4], 2)), "Multitrack: truncated reading trackId");
    assert_eq!(text(Multitrack::parse(&[1, 0], 1)), "Multitrack: truncated reading sizeOfTrack UI24");
    assert_eq!(
        text(Multitrack::parse(&[1, 0, 0, 3, 9], 1)),
        "Multitrack: sizeOfTrack=3 overruns remaining 1 bytes"
    );
    let all = Multitrack::parse(&[1, 0, 0, 2, 7, 8, 2, 0, 0, 0], 1).expect("parse");
    assert_eq!(all.tracks.len(), 2);
    assert_eq!(all.tracks[0].body, vec![7, 8]);
    assert_eq!(all.encode(), vec![1, 0, 0, 2, 7, 8, 2, 0, 0, 0]);
}

#[test]
fn command_tags_hold_one_byte() {
    let plain = VideoTag::command_tag(VIDEO_CODEC_AVC, VIDEO_COMMAND_START_SEEK);
    assert!(plain.is_command());
    assert_eq!(build_video(&plain), vec![0x57, 0]);
    assert_eq!(parse_video(&[0x57, 0]).expect("parse").video_command(), Some(0));
    let named = VideoTag::command_tag_ex(FOURCC_HEVC, VIDEO_COMMAND_END_SEEK);
    let wire = build_video(&named);
    assert_eq!(wire, vec![0xD1, b'h', b'v', b'c', b'1', 1]);
    let again = parse_video(&wire).expect("parse");
    assert_eq!(again, named);
    assert_eq!(again.video_command(), Some(1));
    assert_eq!(parse_video(&[0x57]).expect("parse").video_command(), None);
    let mut metadata = named.clone();
    metadata.ex_packet_type = Some(EX_PACKET_TYPE_METADATA);
    assert_eq!(metadata.frame_type, VIDEO_FRAME_COMMAND);
    assert!(!metadata.is_command());
    assert_eq!(metadata.video_command(), None);
    assert_eq!(VideoTag::command_tag_ex(FOURCC_AV1, 77).video_command(), Some(77));
}

#[test]
fn sequence_ends_come_back() {
    let v = VideoTag::sequence_end_tag(FOURCC_AV1);
    assert!(v.is_ex_sequence_end());
    assert_eq!(build_video(&v), vec![0xA2, b'a', b'v', b'0', b'1']);
    assert_eq!(parse_video(&build_video(&v)).expect("parse"), v);
    let a = AudioTag::sequence_end_tag(FOURCC_OPUS);
    assert!(a.is_ex_sequence_end());
    assert_eq!(parse_audio(&build_audio(&a)).expect("parse"), a);
}

#[test]
fn color_metadata_comes_back() {
    let info = ColorInfo {
        color_config: Some(ColorConfig {
            bit_depth: Some(num(10.0)),
            color_primaries: None,
            transfer_characteristics: Some(num(16.0)),
            matrix_coefficients: None,
        }),
        hdr_cll: Some(HdrCll { max_fall: None, max_cll: None }),
        hdr_mdcv: Some(HdrMdcv { red_x: Some(num(0.68)), ..HdrMdcv::default() }),
    };
    let tag = VideoTag::color_info_tag(FOURCC_HEVC, &info);
    assert!(tag.is_ex_metadata());
    assert_eq!(tag.color_info().expect("read"), Some(info));
    let again = parse_video(&build_video(&tag)).expect("parse");
    assert_eq!(again.color_info().expect("read"), Some(info));
    let reset = VideoTag::color_info_tag(FOURCC_HEVC, &ColorInfo::default());
    assert!(reset.color_info().expect("read").expect("there").is_reset());
    assert_eq!(video(FOURCC_HEVC, 0, &[]).color_info().expect("read"), None);
}

#[test]
fn color_metadata_of_another_type_is_refused() {
    for value in [
        Amf0Value::Null,
        Amf0Value::Boolean(true),
        Amf0Value::String("x".to_string()),
        Amf0Value::StrictArray(Vec::new()),
    ] {
        assert_eq!(
            text(ColorInfo::from_amf0(&value)),
            "colorInfo: value must be an Object/ECMA array or Undefined"
        );
    }
    assert!(ColorInfo::from_amf0(&Amf0Value::Undefined).expect("reset").is_reset());
    assert!(ColorInfo::from_amf0(&Amf0Value::Object(Vec::new())).expect("reset").is_reset());
    assert!(ColorInfo::from_amf0(&Amf0Value::EcmaArray(Vec::new())).expect("reset").is_reset());
}

#[test]
fn stream_metadata_comes_back() {
    let pair = |k: &str, v: Amf0Value| (k.to_string(), v);
    let value = Amf0Value::Object(vec![
        pair("width", Amf0Value::Number(num(1920.0))),
        pair("height", Amf0Value::String("tall".to_string())),
        pair("custom", Amf0Value::Null),
        pair("stereo", Amf0Value::Boolean(true)),
        pair("creationdate", Amf0Value::String("now".to_string())),
        pair("audiocodecid", Amf0Value::Number(num(0x4F70_7573 as f64))),
        pair("videocodecid", Amf0Value::Number(num(7.0))),
        pair("width", Amf0Value::Number(num(1280.0))),
        pair("videoTrackIdInfoMap", Amf0Value::Undefined),
    ]);
    let m = OnMetaData::from_amf0(&value).expect("read");
    assert_eq!(m.width, Some(num(1280.0)));
    assert_eq!(m.height, None);
    assert_eq!(m.stereo, Some(true));
    assert_eq!(m.creationdate.as_deref(), Some("now"));
    assert_eq!(m.extra, vec![pair("custom", Amf0Value::Null)]);
    assert_eq!(m.audio_fourcc(), Some(*b"Opus"));
    assert_eq!(m.video_fourcc(), None);
    assert_eq!(m.video_track_id_info_map, Some(Amf0Value::Undefined));
    let written = m.to_amf0();
    assert!(matches!(written, Amf0Value::EcmaArray(_)));
    assert_eq!(OnMetaData::from_amf0(&written).expect("read"), m);
    assert_eq!(
        text(OnMetaData::from_amf0(&Amf0Value::Null)),
        "onMetaData: argument must be an ECMA array or Object"
    );
}
