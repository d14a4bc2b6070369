//! What the proofs say of all values, on some of them.

use oxideav_rtmp::aggregate::{build_aggregate, parse_aggregate};
use oxideav_rtmp::amf::{self, Amf0Value};
use oxideav_rtmp::amf3::{self, Amf3Value, Decoder, FixedBody, read_u29, write_u29};
use oxideav_rtmp::caps::{
    CAPS_EX_MOD_EX, CAPS_EX_RECONNECT, ConnectCapabilities, FOURCC_INFO_CAN_DECODE,
    FOURCC_INFO_CAN_ENCODE, FOURCC_WILDCARD, FourCcInfoMap,
};
use oxideav_rtmp::chunk::{ChunkReader, ChunkWriter, Message};
use oxideav_rtmp::client::event::{classify_user_control, extract_server_caps};
use oxideav_rtmp::client::{RtmpUrl, resolve_tc_url};
use oxideav_rtmp::error::Error;
use oxideav_rtmp::flv::{
    AudioMessage, AudioTag, FOURCC_OPUS, ModEx, MultichannelConfig, MultichannelConfigOrder,
    Multitrack, build_audio, build_audio_message, build_silence_audio, build_video, is_silence_payload,
    parse_audio, parse_audio_message, parse_video,
};
use oxideav_rtmp::flv_crypt::{EncryptedTag, FilterParams, parse_encrypted_body};
use oxideav_rtmp::number::Double;

fn num(x: f64) -> Double {
    Double::from_bits(x.to_bits())
}

fn text(s: &str) -> Amf0Value {
    Amf0Value::String(s.to_string())
}

fn message(msg_type_id: u8, timestamp: u32, payload: Vec<u8>) -> Message {
    Message { msg_type_id, msg_stream_id: 1, timestamp, payload }
}

#[test]
fn messages_read_back_in_order() {
    let sent = [
        (3, message(20, 0, vec![1; 300])),
        (4, message(8, 0x00FF_FFFE, vec![])),
        (4, message(8, 0x0100_0010, vec![2; 128])),
        (63, message(9, 5, vec![3; 129])),
        (64, message(9, 5, vec![4])),
        (319, message(9, 5, vec![5])),
        (320, message(9, 4, vec![6])),
        (65_599, message(9, 0xFFFF_FFFF, vec![7; 257])),
        (4, message(8, 0x0200_0000, vec![8; 500])),
    ];
    let mut w = ChunkWriter::new(Vec::new());
    for (csid, m) in &sent {
        w.write_message(*csid, m).expect("write");
    }
    let mut bytes = w.inner_mut().clone();
    let all = bytes.len();
    bytes.extend_from_slice(&[0xC3]);
    let mut r = ChunkReader::new(bytes);
    for (_, m) in &sent {
        assert_eq!(&r.read_message().expect("read"), m);
    }
    assert_eq!(r.received_bytes() as usize, all);
    assert_eq!(r.inner_mut().as_slice(), &[0xC3]);
}

#[test]
fn later_bytes_wait_behind_a_message() {
    let mut w = ChunkWriter::new(Vec::new());
    w.write_message(3, &message(9, 1, vec![1; 200])).expect("write");
    let bytes = w.inner_mut().clone();
    let mut r = ChunkReader::new(Vec::new());
    for b in &bytes[..bytes.len() - 1] {
        r.inner_mut().push(*b);
        assert!(matches!(r.read_message(), Err(Error::UnexpectedEof)));
    }
    r.inner_mut().push(bytes[bytes.len() - 1]);
    r.inner_mut().push(9);
    assert_eq!(r.read_message().expect("read").payload, vec![1; 200]);
    assert_eq!(r.inner_mut().as_slice(), &[9]);
}

#[test]
fn acknowledgements_fall_due_once_a_window() {
    let mut w = ChunkWriter::new(Vec::new());
    let mut r = ChunkReader::new(Vec::new());
    r.set_window_ack_size(100);
    assert_eq!(r.ack_due(), None);
    let mut due = Vec::new();
    for i in 0..10 {
        w.write_message(3, &message(9, i * i, vec![0; 30])).expect("write");
        let bytes = std::mem::take(w.inner_mut());
        r.inner_mut().extend_from_slice(&bytes);
        r.read_message().expect("read");
        if let Some(n) = r.ack_due() {
            due.push(n);
            assert_eq!(r.ack_due(), None);
        }
    }
    assert!(due.len() >= 2);
    assert!(due.windows(2).all(|p| p[1] - p[0] >= 100));
    r.set_window_ack_size(1);
    assert_eq!(r.ack_due(), None);
}

#[test]
fn an_abort_drops_one_message_once() {
    let mut long = ChunkWriter::new(Vec::new());
    long.write_message(3, &message(9, 0, vec![1; 200])).expect("write");
    let first = long.inner_mut()[..140].to_vec();
    let mut other = ChunkWriter::new(Vec::new());
    other.write_message(4, &message(8, 0, vec![2; 200])).expect("write");
    let whole = other.inner_mut().clone();
    let mut r = ChunkReader::new(first);
    assert!(r.read_message().is_err());
    r.inner_mut().extend_from_slice(&whole[..140]);
    assert!(r.read_message().is_err());
    assert!(r.abort_partial(3));
    assert!(!r.abort_partial(3));
    assert!(!r.abort_partial(77));
    r.inner_mut().extend_from_slice(&whole[140..]);
    assert_eq!(r.read_message().expect("read").payload, vec![2; 200]);
}

#[test]
fn aggregates_come_apart_as_they_were_packed() {
    let subs = [message(8, u32::MAX, vec![1, 2]), message(9, 3, vec![]), message(18, 3, vec![4])];
    let m = build_aggregate(6, &subs).expect("build");
    assert_eq!(m.timestamp, u32::MAX);
    assert_eq!(m.msg_stream_id, 6);
    assert_eq!(m.payload.len(), 3 * 15 + 3);
    let parts = parse_aggregate(&m).expect("parse");
    for (part, sub) in parts.iter().zip(subs.iter()) {
        assert_eq!(part.msg_stream_id, 6);
        assert_eq!(part.timestamp, sub.timestamp);
        assert_eq!(part.payload, sub.payload);
    }
    let mut moved = m.clone();
    moved.timestamp = 50;
    let later = parse_aggregate(&moved).expect("parse");
    assert_eq!(later[0].timestamp, 50);
    assert_eq!(later[1].timestamp, 54);
    let weight: usize = parts.iter().map(|p| 1 + p.payload.len()).sum();
    assert!(weight <= m.payload.len());
}

fn sample() -> Amf0Value {
    Amf0Value::Object(vec![
        ("n".to_string(), Amf0Value::Number(num(-0.0))),
        ("list".to_string(), Amf0Value::StrictArray(vec![Amf0Value::Null, text("ä")])),
        (
            "typed".to_string(),
            Amf0Value::TypedObject {
                class_name: "C".to_string(),
                pairs: vec![("d".to_string(), Amf0Value::Date { millis: num(1.5), timezone: -60 })],
            },
        ),
        ("e".to_string(), Amf0Value::EcmaArray(Vec::new())),
        ("x".to_string(), Amf0Value::XmlDocument("<a/>".to_string())),
        ("u".to_string(), Amf0Value::Undefined),
        ("s".to_string(), Amf0Value::Unsupported),
    ])
}

#[test]
fn amf0_values_come_back() {
    let mut bytes = vec![0xEE];
    amf::encode(&mut bytes, &sample());
    let end = bytes.len();
    bytes.push(0xDD);
    let mut pos: usize = 1;
    assert_eq!(amf::decode(&bytes, &mut pos).expect("decode"), sample());
    assert_eq!(pos, end);
    let long = text(&"y".repeat(70_000));
    let mut out = Vec::new();
    amf::encode(&mut out, &long);
    assert_eq!(out[0], 0x0C);
    assert_eq!(amf::decode_all(&out).expect("decode"), vec![long]);
}

#[test]
fn commands_come_back() {
    let payload = amf::encode_command("f", num(3.0), Amf0Value::Null, &[sample(), text("")]);
    assert_eq!(
        amf::decode_all(&payload).expect("decode"),
        vec![text("f"), Amf0Value::Number(num(3.0)), Amf0Value::Null, sample(), text("")]
    );
}

#[test]
fn references_are_an_abbreviation() {
    let mut bytes = vec![0x03, 0, 1, b'a', 0x08, 0, 0, 0, 0, 0, 0, 9, 0, 1, b'b', 0x07, 0, 1];
    bytes.extend_from_slice(&[0, 0, 9]);
    bytes.extend_from_slice(&[0x07, 0, 0]);
    let values = amf::decode_all(&bytes).expect("decode");
    let inner = Amf0Value::EcmaArray(Vec::new());
    let whole =
        Amf0Value::Object(vec![("a".to_string(), inner.clone()), ("b".to_string(), inner)]);
    assert_eq!(values, vec![whole.clone(), whole]);
    let mut written = Vec::new();
    for v in &values {
        amf::encode(&mut written, v);
    }
    assert!(written.len() > bytes.len());
    assert_eq!(amf::decode_all(&written).expect("decode"), values);
}

#[test]
fn switched_values_read_as_amf0() {
    let number = Amf0Value::Number(num(42.0));
    assert_eq!(amf::decode_all(&[0x11, 0x04, 0x2A]).expect("decode"), vec![number.clone()]);
    let mut pos: usize = 1;
    assert_eq!(amf::decode(&[0x05, 0x11, 0x04, 0x2A, 0x05], &mut pos).expect("decode"), number);
    assert_eq!(pos, 4);

    let mixed = [
        0x03, 0, 1, b'a', 0x11, 0x06, 0x05, b'h', b'i', 0, 1, b'b', 0x01, 1, 0, 0, 9, 0x07, 0, 0,
        0x11, 0x11, 0x03, 0, 0x04, 0x05, 0x04, 0x2A, 0x02, 0, 1, b'z',
    ];
    let object = amf::obj(vec![
        ("a".to_string(), text("hi")),
        ("b".to_string(), Amf0Value::Boolean(true)),
    ]);
    let values = amf::decode_all(&mixed).expect("decode");
    assert_eq!(
        values,
        vec![
            object.clone(),
            object,
            Amf0Value::EcmaArray(vec![("5".to_string(), number)]),
            text("z"),
        ]
    );
    let mut written = Vec::new();
    for v in &values {
        amf::encode(&mut written, v);
    }
    assert_eq!(amf::decode_all(&written).expect("decode"), values);
}

#[test]
fn double_keys_take_the_text_that_is_given() {
    let show = |d: Double| f64::from_bits(d.to_bits()).to_string();
    let by_double = [0x11, 0x11, 0x03, 0, 0x05, 0x3F, 0xF8, 0, 0, 0, 0, 0, 0, 0x04, 0x2A];
    let dictionary =
        Amf0Value::EcmaArray(vec![("1.5".to_string(), Amf0Value::Number(num(42.0)))]);
    assert!(amf::decode_all(&by_double).is_err());
    assert_eq!(
        amf::decode_all_with(&by_double, &show).expect("decode"),
        vec![dictionary.clone()]
    );
    let mut nested = vec![0x0A, 0, 0, 0, 1, 0x03, 0, 1, b'k'];
    nested.extend_from_slice(&by_double);
    nested.extend_from_slice(&[0, 0, 9, 0x07, 0, 1]);
    let object = amf::obj(vec![("k".to_string(), dictionary)]);
    assert_eq!(
        amf::decode_all_with(&nested, &show).expect("decode"),
        vec![Amf0Value::StrictArray(vec![object.clone()]), object]
    );
    assert_eq!(
        amf::decode_all(&nested),
        Err(Error::InvalidAmf0(
            "AMF3 dictionary with a double for a key has no AMF0 form".to_string()
        ))
    );
}

#[test]
fn texts_matter_only_to_double_keys() {
    let one = |_: Double| "1".to_string();
    for bytes in [
        vec![0x11, 0x04, 0x2A, 0x05],
        vec![0x00, 0x3F, 0xF8, 0, 0, 0, 0, 0, 0],
        vec![0x11, 0x05, 0x3F, 0xF8, 0, 0, 0, 0, 0, 0],
        vec![0x0E],
        vec![0x05, 0x11, 0x12],
    ] {
        assert_eq!(amf::decode_all_with(&bytes, &one), amf::decode_all(&bytes));
    }
}

#[test]
fn numbers_compare_as_numbers() {
    assert_ne!(num(f64::NAN), num(f64::NAN));
    assert_eq!(num(0.0), num(-0.0));
    assert_eq!(num(1.5), num(1.5));
    assert_ne!(num(1.5), num(-1.5));
    assert_eq!(num(f64::INFINITY), num(f64::INFINITY));
    assert_ne!(num(f64::INFINITY), num(f64::NEG_INFINITY));
    assert_ne!(num(f64::INFINITY), num(f64::NAN));
    for (a, b) in [(0.0, -0.0), (f64::NAN, f64::NAN), (2.0, 2.0), (2.0, 3.0)] {
        assert_eq!(Amf0Value::Number(num(a)) == Amf0Value::Number(num(b)), a == b);
        assert_eq!(Amf3Value::Double(num(a)) == Amf3Value::Double(num(b)), a == b);
    }
}

#[test]
fn plain_keys_need_no_text() {
    let one = |_: Double| "1".to_string();
    let two = |_: Double| "2".to_string();
    let dictionary = |key: Amf3Value| Amf3Value::Dictionary {
        weak_keys: false,
        entries: vec![(key, Amf3Value::Double(num(0.5)))],
    };
    let plain = Amf3Value::Array {
        dense: vec![Amf3Value::Double(num(1.5)), dictionary(Amf3Value::Boolean(true))],
        assoc: Vec::new(),
    };
    assert!(plain.has_plain_keys());
    assert_eq!(plain.to_amf0(&one), plain.to_amf0(&two));
    let double = amf3::dynamic_object(vec![(
        "k".to_string(),
        dictionary(Amf3Value::Double(num(0.5))),
    )]);
    assert!(!double.has_plain_keys());
    assert_ne!(double.to_amf0(&one), double.to_amf0(&two));
}

#[test]
fn small_integers_come_back_in_few_bytes() {
    for (v, len) in [
        (0u32, 1usize),
        (0x7F, 1),
        (0x80, 2),
        (0x3FFF, 2),
        (0x4000, 3),
        (0x1F_FFFF, 3),
        (0x20_0000, 4),
        (0x1FFF_FFFF, 4),
    ] {
        let mut out = Vec::new();
        write_u29(&mut out, v);
        assert_eq!(out.len(), len);
        let mut pos: usize = 0;
        assert_eq!(read_u29(&out, &mut pos).expect("read"), v);
        assert_eq!(pos, len);
    }
}

#[test]
fn amf3_values_come_back() {
    let values = vec![
        Amf3Value::Integer(-0x1000_0000),
        Amf3Value::Integer(0x0FFF_FFFF),
        Amf3Value::Double(num(0.1)),
        Amf3Value::String("é".to_string()),
        Amf3Value::ByteArray(vec![1, 2]),
        amf3::dynamic_object(vec![("k".to_string(), Amf3Value::Null)]),
        amf3::anon_object(vec![("k".to_string(), Amf3Value::Boolean(false))]),
    ];
    let bytes = amf3::encode_all(&values);
    assert_eq!(amf3::decode_all(&bytes).expect("decode"), values);
    let mut wrapped = Vec::new();
    for v in &values {
        wrapped.push(0x11);
        amf3::encode(&mut wrapped, v);
    }
    assert_eq!(amf3::decode_data_message(&wrapped).expect("decode"), values);
    let wide = amf3::encode_all(&[Amf3Value::Integer(0x1000_0000)]);
    assert_eq!(
        amf3::decode_all(&wide).expect("decode"),
        vec![Amf3Value::Double(num(268_435_456.0))]
    );
}

#[test]
fn amf3_texts_and_objects_can_be_sent_again_by_place() {
    let bytes = [
        0x06, 0x03, b'a', 0x06, 0x00, 0x09, 0x03, 0x01, 0x02, 0x09, 0x00, 0x06, 0x01, 0x06, 0x00,
    ];
    let values = amf3::decode_all(&bytes).expect("decode");
    assert_eq!(values.len(), 6);
    assert_eq!(values[1].as_str(), Some("a"));
    assert_eq!(values[2], values[3]);
    assert_eq!(values[4].as_str(), Some(""));
    assert_eq!(values[5].as_str(), Some("a"));
    let written = amf3::encode_all(&values);
    assert!(written.len() > bytes.len());
    assert_eq!(amf3::decode_all(&written).expect("decode"), values);
}

#[test]
fn a_class_that_writes_itself_comes_back() {
    let mut d = Decoder::new();
    d.register_externalizable("X", Box::new(FixedBody { len: 2 }));
    let bytes = [0x0A, 0x07, 0x03, b'X', 8, 9, 0x01];
    let mut pos: usize = 0;
    let v = d.decode(&bytes, &mut pos).expect("decode");
    assert_eq!(pos, 6);
    let mut again = Vec::new();
    amf3::encode(&mut again, &v);
    assert_eq!(again, bytes[..6].to_vec());
}

#[test]
fn bridged_members_keep_their_order() {
    let show = |d: Double| f64::from_bits(d.to_bits()).to_string();
    let v = amf3::dynamic_object(vec![
        ("b".to_string(), Amf3Value::Integer(1)),
        ("a".to_string(), Amf3Value::Double(num(2.5))),
    ]);
    assert_eq!(
        v.to_amf0(&show),
        amf::obj(vec![
            ("b".to_string(), Amf0Value::Number(num(1.0))),
            ("a".to_string(), Amf0Value::Number(num(2.5))),
        ])
    );
}

#[test]
fn capability_maps_keep_keys_single() {
    let mut m = FourCcInfoMap::new();
    m.insert("a", 1);
    m.insert("b", 2);
    m.insert("a", 4);
    assert_eq!(m.iter(), vec![("a", 4), ("b", 2)]);
    m.insert(FOURCC_WILDCARD, FOURCC_INFO_CAN_ENCODE);
    assert_eq!(m.effective_mask("a"), 4 | FOURCC_INFO_CAN_ENCODE);
    assert_eq!(m.effective_mask("zzz"), FOURCC_INFO_CAN_ENCODE);
    assert_eq!(FourCcInfoMap::new().effective_mask("a"), 0);
    let again = FourCcInfoMap::from_amf0(&m.to_amf0());
    assert_eq!(again.iter(), m.iter());
}

#[test]
fn capability_blocks_come_back_from_among_others() {
    let mut c = ConnectCapabilities::new();
    let mut pairs = vec![("app".to_string(), text("live"))];
    c.encode_into(&mut pairs);
    assert_eq!(pairs.len(), 1);
    c.caps_ex = CAPS_EX_RECONNECT | CAPS_EX_MOD_EX;
    c.fourcc_list = vec!["av01".to_string()];
    c.video_fourcc_info_map.insert("av01", FOURCC_INFO_CAN_DECODE);
    c.encode_into(&mut pairs);
    let again = ConnectCapabilities::from_amf0(&Amf0Value::Object(pairs));
    assert_eq!(again.caps_ex, c.caps_ex);
    assert_eq!(again.fourcc_list, c.fourcc_list);
    assert_eq!(again.video_fourcc_info_map.get("av01"), Some(FOURCC_INFO_CAN_DECODE));
    assert!(again.supports_caps_ex(CAPS_EX_RECONNECT | CAPS_EX_MOD_EX));
    assert!(!again.supports_caps_ex(0x03));
    assert!(!again.supports_caps_ex(0));
}

#[test]
fn the_object_encoding_alone_says_nothing() {
    let plain = Amf0Value::Object(vec![("objectEncoding".to_string(), Amf0Value::Number(num(3.0)))]);
    let said = Amf0Value::EcmaArray(vec![
        ("objectEncoding".to_string(), Amf0Value::Number(num(3.0))),
        ("capsEx".to_string(), Amf0Value::Number(num(5.0))),
    ]);
    assert!(extract_server_caps(&[plain.clone()]).is_empty());
    assert_eq!(extract_server_caps(&[plain, said]).caps_ex, 5);
}

#[test]
fn pings_come_back() {
    assert!(classify_user_control(&[0, 6, 1, 2, 3, 4]).is_ok());
    assert!(classify_user_control(&[0]).is_err());
}

#[test]
fn addresses_are_taken_apart_and_put_together() {
    let u = RtmpUrl::parse("rtmp://[::1]:1936/live/a/b").expect("url");
    assert_eq!(u.host, "[::1]");
    assert_eq!(u.port, 1936);
    assert_eq!(u.app, "live");
    assert_eq!(u.stream_name, "a/b");
    assert_eq!(u.tc_url, "rtmp://[::1]:1936/live");
    let again = RtmpUrl::parse(&format!("{}/{}", u.tc_url, u.stream_name)).expect("url");
    assert_eq!(again.tc_url, u.tc_url);
    assert_eq!(again.stream_name, u.stream_name);
    let short = RtmpUrl::parse("rtmp://h/app").expect("url");
    assert_eq!((short.port, short.stream_name.as_str()), (1935, ""));
}

#[test]
fn references_are_seen_from_the_base() {
    let base = "rtmp://h:1/a/b";
    assert_eq!(resolve_tc_url(base, ""), base);
    assert_eq!(resolve_tc_url(base, "x://y"), "x://y");
    assert_eq!(resolve_tc_url(base, "//g/c"), "rtmp://g/c");
    assert_eq!(resolve_tc_url(base, "/c/d"), "rtmp://h:1/c/d");
    assert_eq!(resolve_tc_url(base, "c/d"), "rtmp://h:1/a/c/d");
    assert_eq!(resolve_tc_url("h", "c"), "rtmp://h/c");
}

#[test]
fn audio_tags_come_back() {
    for payload in [
        vec![0xAF, 1, 9],
        vec![0x2E],
        vec![0x97, 0, 7, 0x01, b'O', b'p', b'u', b's', 5],
        vec![0x95, 0x01, b'O', b'p', b'u', b's', 3, 8],
        vec![0x95, 0x21, b'O', b'p', b'u', b's', 3, 0, 0, 1, 8, b'f', b'L', b'a', b'C', 4, 0, 0, 0],
    ] {
        let tag = parse_audio(&payload).expect("parse");
        assert_eq!(build_audio(&tag), payload);
        assert_eq!(parse_audio(&build_audio(&tag)).expect("parse"), tag);
    }
}

#[test]
fn video_tags_come_back() {
    for payload in [
        vec![0x17, 1, 0xFF, 0xFF, 0xFE, 9],
        vec![0x22, 1],
        vec![0x91, b'h', b'v', b'c', b'1', 0, 0, 40, 5],
        vec![0x97, 2, 0, 0, 9, 0x03, b'a', b'v', b'0', b'1', 5],
        vec![0x96, 0x21, b'a', b'v', b'0', b'1', 1, 0, 0, 1, 7],
        vec![0x96, 0x01, b'a', b'v', b'0', b'1', 1, 7, 8],
        vec![0x96, 0x71, b'a', b'v', b'0', b'1', 1, 0, 0, 1, 7, 2, 0, 0, 0],
        vec![0xD1, b'h', b'v', b'c', b'1', 1],
        vec![0x57, 1],
    ] {
        let tag = parse_video(&payload).expect("parse");
        assert_eq!(build_video(&tag), payload);
        assert_eq!(payload[0] >= 0x80, tag.fourcc.is_some() || tag.multitrack.is_some());
    }
    assert_eq!(parse_video(&[0x17, 1, 0xFF, 0xFF, 0xFE]).expect("parse").composition_time, -2);
}

#[test]
fn track_lists_come_back() {
    for (mode, body) in [
        (0u8, vec![5u8, 1, 2]),
        (1, vec![5, 0, 0, 2, 1, 2, 6, 0, 0, 0]),
        (2, vec![b'a', b'v', b'0', b'1', 5, 0, 0, 1, 9]),
        (9, vec![5, 0, 0, 0]),
    ] {
        let tracks = Multitrack::parse(&body, mode).expect("parse");
        assert_eq!(tracks.encode(), body);
    }
}

#[test]
fn silence_is_the_empty_message() {
    assert!(is_silence_payload(&build_silence_audio()));
    assert!(!is_silence_payload(&[0x2E]));
    for payload in [vec![], vec![0x2E, 1]] {
        let m = parse_audio_message(&payload).expect("parse");
        assert_eq!(m.is_silence(), payload.is_empty());
        assert_eq!(matches!(m, AudioMessage::Tag(_)), !payload.is_empty());
        assert_eq!(build_audio_message(&m), payload);
    }
}

#[test]
fn long_prelude_entries_come_back() {
    for len in [1usize, 255, 256, 257, 65_536] {
        let mut tag = parse_video(&[0x93, b'a', b'v', b'0', b'1', 5]).expect("parse");
        tag.mod_ex = vec![
            ModEx { mod_ex_type: 3, data: vec![1; len] },
            ModEx::timestamp_offset_nano_entry(999_999),
        ];
        let again = parse_video(&build_video(&tag)).expect("parse");
        assert_eq!(again, tag);
        assert_eq!(again.timestamp_offset_nano(), 999_999);
    }
}

#[test]
fn channel_configurations_come_back() {
    for c in [
        MultichannelConfig {
            order: MultichannelConfigOrder::Native { flags: 0x3F },
            channel_count: 6,
            extra: Vec::new(),
        },
        MultichannelConfig {
            order: MultichannelConfigOrder::Custom { mapping: vec![1, 0] },
            channel_count: 2,
            extra: Vec::new(),
        },
        MultichannelConfig {
            order: MultichannelConfigOrder::Reserved(9),
            channel_count: 2,
            extra: vec![7],
        },
    ] {
        assert_eq!(MultichannelConfig::parse(&c.encode()).expect("parse"), c);
        let tag = AudioTag::multichannel_config_tag(FOURCC_OPUS, &c);
        assert_eq!(tag.multichannel_config().expect("read"), Some(c));
    }
}

#[test]
fn envelopes_come_back() {
    for (name, params) in [
        ("Encryption", FilterParams::Encryption { iv: [7; 16] }),
        ("SE", FilterParams::Selective { iv: Some([8; 16]) }),
        ("SE", FilterParams::Selective { iv: None }),
    ] {
        let tag =
            EncryptedTag { filter_name: name.to_string(), params, body: vec![1, 2, 3] };
        let again = parse_encrypted_body(&tag.encode()).expect("parse");
        assert_eq!(again, tag);
        assert_eq!(again.is_encrypted(), again.iv().is_some());
    }
    let spare = [1, b'S', b'E', 0, 0, 0, 2, 0x7F, 9, 5];
    let tag = parse_encrypted_body(&spare).expect("parse");
    assert_eq!(tag.body, vec![5]);
    assert_eq!(parse_encrypted_body(&tag.encode()).expect("parse"), tag);
}

#[test]
fn whole_numbers_have_their_doubles() {
    for n in [0u32, 1, 2, 3, 1 << 31, u32::MAX] {
        assert_eq!(Double::from_u32(n), num(n as f64));
        assert_eq!(Double::from_u32(n).to_u32(), n);
    }
    for n in [i32::MIN, -1, 0, 7, i32::MAX] {
        assert_eq!(Double::from_i32(n), num(n as f64));
    }
    for x in [0.5, 1.999, 4_294_967_295.9, 1e300, -3.0, f64::NAN, f64::INFINITY, f64::NEG_INFINITY] {
        assert_eq!(num(x).to_u32(), x as u32);
    }
}
