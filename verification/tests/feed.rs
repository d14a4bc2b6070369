//! Events as a feed of packets, with and without a probe.

use oxideav_rtmp::adapter::{
    AUDIO_STREAM_INDEX, FeedStep, ListenUrl, MediaSourceEvent, PROBE_LIMIT, PacketFeed, Probe,
    SourceError, TimestampUnwrapper, VIDEO_STREAM_INDEX, audio_codec_params, audio_times_fit,
    ends_probe, play_address, rtmp_time_base, rtmp_to_core_err, video_codec_params,
    video_fourcc_codec_id, video_times_fit,
};
use oxideav_rtmp::amf::Amf0Value;
use oxideav_rtmp::error::{Error, IoError, IoErrorKind};
use oxideav_rtmp::flv::{AudioTag, VideoTag, parse_audio, parse_video};
use oxideav_rtmp::number::Double;

fn num(x: f64) -> Double {
    Double::from_bits(x.to_bits())
}

fn number_text(d: Double) -> String {
    f64::from_bits(d.to_bits()).to_string()
}

fn aac(body: &[u8]) -> AudioTag {
    let mut payload = vec![0xAF, 1];
    payload.extend_from_slice(body);
    parse_audio(&payload).expect("audio")
}

fn avc(body: &[u8]) -> VideoTag {
    let mut payload = vec![0x17, 1, 0, 0, 0];
    payload.extend_from_slice(body);
    parse_video(&payload).expect("video")
}

fn audio(timestamp: u32) -> MediaSourceEvent {
    MediaSourceEvent::Audio { timestamp, tag: aac(&[1]) }
}

fn video(timestamp: u32) -> MediaSourceEvent {
    MediaSourceEvent::Video { timestamp, tag: avc(&[2]) }
}

fn packet_time(step: FeedStep) -> (u32, i64) {
    match step {
        FeedStep::Packet(p) => (p.stream_index, p.dts.expect("dts")),
        other => panic!("{other:?}"),
    }
}

#[test]
fn streams_show_up_in_order_as_they_are_seen() {
    let mut feed = PacketFeed::new();
    assert!(feed.streams().is_empty());
    assert!(matches!(feed.poll(), FeedStep::NeedEvent));
    assert_eq!(packet_time(feed.on_event(video(10))), (VIDEO_STREAM_INDEX, 10_000_000));
    assert_eq!(feed.streams().len(), 1);
    assert_eq!(packet_time(feed.on_event(audio(12))), (AUDIO_STREAM_INDEX, 12_000_000));
    assert_eq!(feed.streams().len(), 2);
    assert_eq!(feed.streams()[0].index, AUDIO_STREAM_INDEX);
    assert_eq!(feed.streams()[0].params.codec_id.as_str(), "aac");
    assert_eq!(feed.streams()[0].time_base, rtmp_time_base());
    assert_eq!(feed.streams()[1].index, VIDEO_STREAM_INDEX);
    assert_eq!(feed.streams()[1].params.codec_id.as_str(), "h264");
    assert_eq!(packet_time(feed.on_event(audio(14))), (AUDIO_STREAM_INDEX, 14_000_000));
    assert_eq!(feed.streams().len(), 2);
    assert!(matches!(feed.on_event(MediaSourceEvent::Skip), FeedStep::NeedEvent));
    assert!(matches!(feed.on_event(MediaSourceEvent::End), FeedStep::Eof));
    assert!(feed.ended());
    assert!(matches!(feed.poll(), FeedStep::Eof));
    assert!(matches!(feed.poll(), FeedStep::Eof));
}

#[test]
fn metadata_is_kept_flat() {
    let value = Amf0Value::Object(vec![
        ("width".to_string(), Amf0Value::Number(num(640.0))),
        ("stereo".to_string(), Amf0Value::Boolean(true)),
        ("encoder".to_string(), Amf0Value::String("x".to_string())),
        ("nothing".to_string(), Amf0Value::Null),
    ]);
    let mut feed = PacketFeed::new();
    let event = MediaSourceEvent::metadata(&value, &number_text);
    assert!(feed.accepts(&event));
    assert!(matches!(feed.on_event(event), FeedStep::NeedEvent));
    let again = MediaSourceEvent::metadata(&Amf0Value::Null, &number_text);
    assert!(matches!(feed.on_event(again), FeedStep::NeedEvent));
    let pair = |k: &str, v: &str| (k.to_string(), v.to_string());
    assert_eq!(
        feed.metadata(),
        &[pair("width", "640"), pair("stereo", "true"), pair("encoder", "x")]
    );
}

#[test]
fn a_probe_keeps_packets_back_in_order() {
    let mut probe = Probe::new();
    for event in [audio(1), MediaSourceEvent::Skip, audio(2), video(3)] {
        assert!(probe.wants_more());
        assert!(probe.accepts(&event));
        probe.on_event(event);
    }
    assert!(!probe.wants_more());
    let mut feed = probe.finish();
    assert_eq!(feed.streams().len(), 2);
    assert_eq!(packet_time(feed.poll()), (AUDIO_STREAM_INDEX, 1_000_000));
    assert_eq!(packet_time(feed.poll()), (AUDIO_STREAM_INDEX, 2_000_000));
    assert_eq!(packet_time(feed.poll()), (VIDEO_STREAM_INDEX, 3_000_000));
    assert!(matches!(feed.poll(), FeedStep::NeedEvent));
    assert_eq!(packet_time(feed.on_event(audio(4))), (AUDIO_STREAM_INDEX, 4_000_000));
}

#[test]
fn a_probe_ends_by_itself() {
    let mut probe = Probe::new();
    for i in 0..PROBE_LIMIT {
        assert!(probe.wants_more());
        probe.on_event(audio(i as u32));
    }
    assert!(!probe.wants_more());
    assert_eq!(probe.finish().streams().len(), 1);

    let mut cut = Probe::new();
    cut.on_event(video(5));
    cut.on_event(MediaSourceEvent::End);
    assert!(!cut.wants_more());
    let mut feed = cut.finish();
    assert!(feed.ended());
    assert_eq!(packet_time(feed.poll()), (VIDEO_STREAM_INDEX, 5_000_000));
    assert!(matches!(feed.poll(), FeedStep::Eof));
}

#[test]
fn only_a_pause_ends_a_probe() {
    let io = |kind| Error::Io(IoError { kind, message: "x".to_string() });
    assert!(ends_probe(&io(IoErrorKind::WouldBlock)));
    assert!(ends_probe(&io(IoErrorKind::TimedOut)));
    assert!(!ends_probe(&io(IoErrorKind::ConnectionReset)));
    assert!(!ends_probe(&io(IoErrorKind::UnexpectedEof)));
    assert!(!ends_probe(&io(IoErrorKind::Other)));
    assert!(!ends_probe(&Error::Timeout));
    assert!(!ends_probe(&Error::UnexpectedEof));
}

#[test]
fn a_feed_follows_the_clock_through_rollover() {
    let mut feed = PacketFeed::new();
    assert_eq!(packet_time(feed.on_event(audio(u32::MAX))).1, u32::MAX as i64 * 1_000_000);
    assert_eq!(packet_time(feed.on_event(audio(9))).1, (u32::MAX as i64 + 10) * 1_000_000);
    assert_eq!(packet_time(feed.on_event(audio(u32::MAX))).1, u32::MAX as i64 * 1_000_000);
}

#[test]
fn a_timeline_can_be_looked_at_before_it_moves() {
    let mut u = TimestampUnwrapper::default();
    assert_eq!(u.peek_ms(5), Some(5));
    assert_eq!(u.unwrap_ms(5), 5);
    assert_eq!(u.peek_ms(0), Some(0));
    assert_eq!(u.peek_ms(0xFFFF_FFFF), Some(-1));
    assert_eq!(u.peek_ms(0x8000_0004), Some(0x8000_0004));
    assert_eq!(u.peek_ms(0x8000_0005), Some(5 - 0x8000_0000));
    assert_eq!(u.unwrap_ms(0xFFFF_FFFF), -1);
}

#[test]
fn times_that_have_no_place_are_seen() {
    let tag = aac(&[]);
    assert!(audio_times_fit(9_223_372_036_854, &tag));
    assert!(!audio_times_fit(9_223_372_036_855, &tag));
    assert!(audio_times_fit(-9_223_372_036_854, &tag));
    assert!(!audio_times_fit(-9_223_372_036_855, &tag));
    let mut late = avc(&[]);
    late.composition_time = 1;
    assert!(video_times_fit(9_223_372_036_853, &late));
    assert!(!video_times_fit(9_223_372_036_854, &late));
}

#[test]
fn parameters_come_from_the_first_tag() {
    let mp3 = parse_audio(&[0x2A, 1]).expect("audio");
    let p = audio_codec_params(&mp3);
    assert_eq!(p.codec_id.as_str(), "mp3");
    assert_eq!(p.sample_rate, Some(22_050));
    assert_eq!(p.channels, Some(1));
    assert!(p.extradata.is_empty());
    let config = parse_audio(&[0xAF, 0, 0x12, 0x10]).expect("audio");
    let c = audio_codec_params(&config);
    assert_eq!(c.extradata, vec![0x12, 0x10]);
    assert_eq!(c.sample_rate, None);
    assert_eq!(c.channels, None);
    let header = parse_video(&[0x17, 0, 0, 0, 0, 1, 100]).expect("video");
    let v = video_codec_params(&header);
    assert_eq!(v.codec_id.as_str(), "h264");
    assert_eq!(v.extradata, vec![1, 100]);
    assert_eq!(video_fourcc_codec_id(*b"vvc1").as_str(), "vvc");
    assert_eq!(video_fourcc_codec_id(*b"zzzz").as_str(), "unknown");
    let base = rtmp_time_base();
    assert_eq!((base.0.num, base.0.den), (1, 1_000_000_000));
}

#[test]
fn publishers_are_held_to_the_address() {
    let url = ListenUrl::parse("rtmp://:1936/live/key").expect("url");
    assert_eq!(url.bind_addr, "0.0.0.0:1936");
    assert!(url.refusal("live", "key").is_none());
    match url.refusal("vod", "key") {
        Some((reason, SourceError::InvalidData(m))) => {
            assert_eq!(reason, "unexpected app");
            assert_eq!(m, "rtmp publisher app mismatch: expected \"live\", got \"vod\"");
        }
        other => panic!("{other:?}"),
    }
    match url.refusal("live", "a\"b\n") {
        Some((reason, SourceError::InvalidData(m))) => {
            assert_eq!(reason, "unexpected stream key");
            assert_eq!(
                m,
                "rtmp publisher stream-name mismatch: expected \"key\", got \"a\\\"b\\n\""
            );
        }
        other => panic!("{other:?}"),
    }
    let open = ListenUrl::parse("rtmp://h/").expect("url");
    assert_eq!(open.bind_addr, "h:1935");
    assert!(open.refusal("any", "thing").is_none());
}

#[test]
fn bad_addresses_are_refused() {
    let text = |uri: &str| match ListenUrl::parse(uri) {
        Err(SourceError::InvalidData(m)) => m,
        other => panic!("{other:?}"),
    };
    assert_eq!(text("http://h/a"), "not an rtmp:// URL: http://h/a");
    assert_eq!(text("rtmp://h"), "rtmp URL missing /app: rtmp://h");
    assert_eq!(text("rtmp://h:x/a"), "rtmp URL bad port \"x\": invalid digit found in string");
    assert_eq!(
        text("rtmp://h:70000/a"),
        "rtmp URL bad port \"70000\": number too large to fit in target type"
    );
    assert_eq!(
        text("rtmp://h:/a"),
        "rtmp URL bad port \"\": cannot parse integer from empty string"
    );
    assert_eq!(
        ListenUrl::parse("rtmp://[::1]:+80/a").expect("url").bind_addr,
        "[::1]:80"
    );
}

#[test]
fn a_play_address_is_dialled_plainly() {
    assert!(matches!(play_address("rtmp-play://h:1/a/b"), Ok(s) if s == "rtmp://h:1/a/b"));
    match play_address("rtmp://h/a") {
        Err(SourceError::InvalidData(m)) => {
            assert_eq!(m, "not an rtmp-play:// URL: rtmp://h/a");
        }
        other => panic!("{other:?}"),
    }
}

#[test]
fn errors_have_their_counterparts() {
    let io = IoError { kind: IoErrorKind::Other, message: "m".to_string() };
    assert!(matches!(
        rtmp_to_core_err(Error::Io(io.clone())),
        SourceError::Io(e) if e == io
    ));
    assert!(matches!(rtmp_to_core_err(Error::UnexpectedEof), SourceError::Eof));
    assert!(matches!(
        rtmp_to_core_err(Error::Timeout),
        SourceError::Other(m) if m == "rtmp: timeout"
    ));
    assert!(matches!(
        rtmp_to_core_err(Error::Rejected("r".to_string())),
        SourceError::Other(m) if m == "rtmp: rejected: r"
    ));
    assert!(matches!(
        rtmp_to_core_err(Error::ProtocolViolation("p".to_string())),
        SourceError::InvalidData(m) if m == "rtmp protocol: p"
    ));
    assert!(matches!(
        rtmp_to_core_err(Error::InvalidAmf0("a".to_string())),
        SourceError::InvalidData(m) if m == "rtmp amf0: a"
    ));
    assert!(matches!(
        rtmp_to_core_err(Error::InvalidChunk("c".to_string())),
        SourceError::InvalidData(m) if m == "rtmp chunk: c"
    ));
    assert!(matches!(
        rtmp_to_core_err(Error::InvalidCommand("d".to_string())),
        SourceError::InvalidData(m) if m == "rtmp command: d"
    ));
    assert!(matches!(
        rtmp_to_core_err(Error::UnsupportedHandshakeVersion(6)),
        SourceError::Unsupported(m) if m == "rtmp handshake version 0x06"
    ));
    assert!(matches!(
        rtmp_to_core_err(Error::Other("o".to_string())),
        SourceError::Other(m) if m == "rtmp: o"
    ));
}
