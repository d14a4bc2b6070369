//! The errors, and what brings each of them about.

use oxideav_rtmp::aggregate::{build_aggregate, parse_aggregate};
use oxideav_rtmp::amf::{self, Amf0Value};
use oxideav_rtmp::amf3::{self, Decoder, FixedBody};
use oxideav_rtmp::caps::FourCcInfoMap;
use oxideav_rtmp::chunk::{ChunkReader, ChunkWriter, Message};
use oxideav_rtmp::client::RtmpUrl;
use oxideav_rtmp::error::{Error, IoError, IoErrorKind};
use oxideav_rtmp::flv::{MultichannelConfig, parse_audio, parse_audio_message, parse_video};
use oxideav_rtmp::flv_crypt::parse_encrypted_body;

fn message(msg_type_id: u8, msg_stream_id: u32, payload: Vec<u8>) -> Message {
    Message { msg_type_id, msg_stream_id, timestamp: 0, payload }
}

fn amf0_fault(bytes: &[u8]) -> String {
    match amf::decode_all(bytes) {
        Err(Error::InvalidAmf0(m)) => m,
        other => panic!("{other:?}"),
    }
}

fn amf3_fault(bytes: &[u8]) -> String {
    match amf3::decode_all(bytes) {
        Err(Error::InvalidAmf0(m)) => m,
        other => panic!("{other:?}"),
    }
}

fn video_fault(bytes: &[u8]) -> String {
    match parse_video(bytes) {
        Err(Error::Other(m)) => m,
        other => panic!("{other:?}"),
    }
}

fn audio_fault(bytes: &[u8]) -> String {
    match parse_audio(bytes) {
        Err(Error::Other(m)) => m,
        other => panic!("{other:?}"),
    }
}

fn crypt_fault(bytes: &[u8]) -> String {
    match parse_encrypted_body(bytes) {
        Err(Error::Other(m)) => m,
        other => panic!("{other:?}"),
    }
}

#[test]
fn every_error_has_its_text() {
    let t = || "x".to_string();
    let io = IoError { kind: IoErrorKind::ConnectionReset, message: "reset".to_string() };
    assert_eq!(Error::Io(io).message(), "rtmp i/o: reset");
    assert_eq!(Error::UnexpectedEof.message(), "rtmp: peer closed connection");
    assert_eq!(
        Error::UnsupportedHandshakeVersion(0xAB).message(),
        "rtmp handshake: unsupported version byte 0xab"
    );
    assert_eq!(Error::InvalidAmf0(t()).message(), "rtmp amf0: x");
    assert_eq!(Error::InvalidChunk(t()).message(), "rtmp chunk: x");
    assert_eq!(Error::InvalidCommand(t()).message(), "rtmp command: x");
    assert_eq!(Error::ProtocolViolation(t()).message(), "rtmp protocol: x");
    assert_eq!(Error::Rejected(t()).message(), "rtmp: publish rejected: x");
    assert_eq!(Error::Timeout.message(), "rtmp: timeout");
    assert_eq!(Error::Other(t()).message(), "rtmp: x");
}

#[test]
fn amf0_bytes_that_say_nothing() {
    assert_eq!(amf0_fault(&[0x00, 1]), "truncated u64");
    assert_eq!(amf0_fault(&[0x01]), "truncated");
    assert_eq!(amf0_fault(&[0x02, 0]), "truncated u16");
    assert_eq!(amf0_fault(&[0x02, 0, 3, b'a']), "truncated string: need 3, have 1");
    assert_eq!(
        amf0_fault(&[0x02, 0, 2, 0xC3, 0x28]),
        "non-UTF8 string: invalid utf-8 sequence of 1 bytes from index 0"
    );
    assert_eq!(amf0_fault(&[0x0C, 0, 0]), "truncated u32");
    assert_eq!(amf0_fault(&[0x04]), "unknown marker 0x4");
    assert_eq!(amf0_fault(&[0x0E]), "unknown marker 0xe");
    assert_eq!(amf0_fault(&[0x12, 1]), "unknown marker 0x12");
    assert_eq!(
        amf0_fault(&[0x07, 0, 0]),
        "AMF0 reference index 0 out of range (table has 0 entries)"
    );
    assert_eq!(
        amf0_fault(&[0x03, 0, 0, 0x08]),
        "expected OBJECT_END (0x09) after empty key, got 0x8"
    );
    let deep: Vec<u8> = [0x0A, 0, 0, 0, 1].repeat(64);
    assert_eq!(amf0_fault(&deep), "nested container depth exceeded 64");
}

#[test]
fn switched_bytes_that_say_nothing() {
    assert_eq!(amf0_fault(&[0x11]), "amf3 truncated");
    assert_eq!(amf0_fault(&[0x11, 0x04]), "amf3 truncated");
    assert_eq!(amf0_fault(&[0x11, 0x12]), "amf3: unknown marker 0x12");
    let twice = [0x11, 0x06, 0x03, b'a', 0x11, 0x06, 0x00];
    assert_eq!(amf0_fault(&twice), "amf3 string ref 0 out of range");
    let behind = [0x11, 0x0A, 0x0B, 0x01, 0x01, 0x07, 0, 0];
    assert_eq!(
        amf0_fault(&behind),
        "AMF0 reference index 0 out of range (table has 0 entries)"
    );
    let by_double = [0x11, 0x11, 0x03, 0, 0x05, 0x3F, 0xF8, 0, 0, 0, 0, 0, 0, 0x04, 0x2A];
    assert_eq!(
        amf0_fault(&by_double),
        "AMF3 dictionary with a double for a key has no AMF0 form"
    );
}

#[test]
fn amf3_bytes_that_say_nothing() {
    assert_eq!(amf3_fault(&[0x04]), "amf3 truncated");
    assert_eq!(amf3_fault(&[0x05, 1]), "amf3 truncated u64");
    assert_eq!(amf3_fault(&[0x06, 0x02]), "amf3 string ref 1 out of range");
    assert_eq!(amf3_fault(&[0x06, 0x07, b'a']), "amf3 truncated string: need 3, have 1");
    assert_eq!(
        amf3_fault(&[0x06, 0x03, 0xFF]),
        "amf3 non-UTF8 string: invalid utf-8 sequence of 1 bytes from index 0"
    );
    assert_eq!(amf3_fault(&[0x09, 0x00]), "amf3 object ref 0 out of range");
    assert_eq!(amf3_fault(&[0x07, 0x00]), "amf3 xml ref 0 out of range");
    assert_eq!(amf3_fault(&[0x0A, 0x01]), "amf3 trait ref 0 out of range");
    assert_eq!(amf3_fault(&[0x0C, 0x09, 1]), "amf3 truncated bytes: need 4, have 1");
    assert_eq!(amf3_fault(&[0x12]), "amf3: unknown marker 0x12");
    assert_eq!(
        amf3_fault(&[0x0A, 0x07, 0x03, b'A']),
        "amf3: externalizable class \"A\" requires a registered handler; generic decoder cannot \
         determine body length"
    );
    let mut d = Decoder::new();
    d.register_externalizable("A", Box::new(FixedBody { len: 3 }));
    let mut pos: usize = 0;
    match d.decode(&[0x0A, 0x07, 0x03, b'A', 1, 2], &mut pos) {
        Err(Error::InvalidAmf0(m)) => assert_eq!(
            m,
            "amf3: externalizable class \"A\" body length 3 runs past buffer end (2 byte(s) \
             available)"
        ),
        other => panic!("{other:?}"),
    }
}

#[test]
fn chunks_without_a_beginning() {
    let fault = |bytes: &[u8]| match ChunkReader::new(bytes.to_vec()).read_message() {
        Err(Error::InvalidChunk(m)) => m,
        other => panic!("{other:?}"),
    };
    assert_eq!(fault(&[0x43, 0, 0, 0, 0, 0, 0, 0]), "fmt 1 without prior fmt 0");
    assert_eq!(fault(&[0x83, 0, 0, 0]), "fmt 2 without prior fmt 0/1");
    assert_eq!(fault(&[0xC3]), "fmt 3 without prior fmt 0/1/2");
    assert!(matches!(
        ChunkReader::new(vec![0x03, 0]).read_message(),
        Err(Error::UnexpectedEof)
    ));
    let mut w = ChunkWriter::new(Vec::new());
    assert!(w.write_message(1, &message(8, 1, vec![])).is_err());
    assert!(w.write_message(65_600, &message(8, 1, vec![])).is_err());
    assert!(w.inner_mut().is_empty());
}

#[test]
fn control_messages_stay_on_the_control_stream() {
    assert!(message(1, 0, vec![]).validate_protocol_control_invariants().is_ok());
    assert!(message(8, 1, vec![]).validate_protocol_control_invariants().is_ok());
    assert!(matches!(
        message(5, 3, vec![]).validate_protocol_control_invariants(),
        Err(Error::ProtocolViolation(m))
            if m == "protocol-control message type 5 carries non-zero msg_stream_id 3 \
                     (§5 requires 0)"
    ));
    assert!(matches!(
        message(8, 0x0100_0001, vec![]).validate_protocol_control_invariants(),
        Err(Error::ProtocolViolation(m))
            if m == "message stream id 0x01000001 sets reserved high byte (§4.1: 3-byte field)"
    ));
}

#[test]
fn aggregates_that_do_not_add_up() {
    assert!(matches!(
        parse_aggregate(&message(9, 0, vec![])),
        Err(Error::InvalidChunk(m)) if m == "aggregate: expected message type 22, got 9"
    ));
    assert!(matches!(
        parse_aggregate(&message(22, 0, vec![8, 0, 0])),
        Err(Error::UnexpectedEof)
    ));
    let mut whole = build_aggregate(1, &[message(8, 1, vec![5])]).expect("build");
    let last = whole.payload.len() - 1;
    whole.payload[last] = 99;
    assert!(matches!(
        parse_aggregate(&whole),
        Err(Error::InvalidChunk(m)) if m == "aggregate: back pointer 99 != 11 + DataSize 12 (§7.1.6 / §E.3)"
    ));
}

#[test]
fn tags_that_end_too_soon() {
    assert_eq!(video_fault(&[]), "FLV video tag: empty");
    assert_eq!(video_fault(&[0x17, 1, 0, 0]), "FLV/AVC tag: need 5+ bytes");
    assert_eq!(
        video_fault(&[0x90, b'h', b'v']),
        "Enhanced RTMP video tag: need 4 bytes for FourCC after header/ModEx"
    );
    assert_eq!(
        video_fault(&[0x91, b'h', b'v', b'c', b'1', 0]),
        "Enhanced RTMP / HEVC CodedFrames: need 3 bytes for SI24 CTS"
    );
    assert_eq!(
        video_fault(&[0x96]),
        "Enhanced RTMP video Multitrack: truncated reading multitrackType nibble"
    );
    assert_eq!(
        video_fault(&[0x96, 0x06]),
        "Enhanced RTMP video Multitrack: inner PacketType MUST NOT be Multitrack"
    );
    assert_eq!(video_fault(&[0x97]), "Enhanced RTMP video ModEx: truncated reading modExDataSize");
    assert_eq!(
        video_fault(&[0x97, 0xFF, 0]),
        "Enhanced RTMP video ModEx: truncated reading 16-bit modExDataSize"
    );
    assert_eq!(
        video_fault(&[0x97, 2, 0]),
        "Enhanced RTMP video ModEx: truncated reading 3-byte modExData"
    );
    assert_eq!(
        video_fault(&[0x97, 0, 0]),
        "Enhanced RTMP video ModEx: truncated reading modExType/packetType nibble"
    );
    assert_eq!(audio_fault(&[]), "FLV audio tag: empty");
    assert_eq!(audio_fault(&[0xAF]), "FLV/AAC tag: need 2+ bytes");
    assert!(parse_audio_message(&[]).expect("silence").is_silence());
}

#[test]
fn channel_orders_that_do_not_add_up() {
    let fault = |bytes: &[u8]| match MultichannelConfig::parse(bytes) {
        Err(Error::Other(m)) => m,
        other => panic!("{other:?}"),
    };
    assert_eq!(fault(&[1]), "MultichannelConfig: need 2 bytes (order + channelCount)");
    assert_eq!(
        fault(&[0, 2, 9]),
        "MultichannelConfig.Unspecified: trailing bytes after channelCount"
    );
    assert_eq!(
        fault(&[1, 2, 0, 0, 0]),
        "MultichannelConfig.Native: need 6 bytes (order + count + UI32 flags)"
    );
    assert_eq!(
        fault(&[2, 3, 0]),
        "MultichannelConfig.Custom: need 5 bytes for channelCount=3, got 3"
    );
}

#[test]
fn envelopes_that_do_not_add_up() {
    assert_eq!(crypt_fault(&[]), "FLV crypt: truncated NumFilters (§F.3.1)");
    assert_eq!(crypt_fault(&[2]), "FLV crypt: NumFilters 2 != 1 (§F.3.1)");
    assert_eq!(crypt_fault(&[1, b'S']), "FLV crypt: unterminated FilterName (§F.3.1)");
    assert_eq!(crypt_fault(&[1, 0xFF, 0]), "FLV crypt: FilterName is not UTF-8 (§F.3.1)");
    assert_eq!(
        crypt_fault(&[1, b'S', b'E', 0, 0, 0]),
        "FLV crypt: truncated FilterParams Length (§F.3.1)"
    );
    assert_eq!(
        crypt_fault(&[1, b'S', b'E', 0, 0, 0, 9, 0]),
        "FLV crypt: FilterParams Length 9 overruns body (§F.3.1)"
    );
    assert_eq!(
        crypt_fault(&[1, b'S', b'E', 0, 0, 0, 0]),
        "FLV crypt: truncated SE EncryptedAU bitfield (§F.3.2)"
    );
    assert_eq!(
        crypt_fault(&[1, b'S', b'E', 0, 0, 0, 1, 0x80]),
        "FLV crypt: encrypted SE FilterParams 1 bytes < 1 + 16-byte IV (§F.3.2)"
    );
    assert_eq!(
        crypt_fault(&[1, b'"', 0, 0, 0, 0]),
        "FLV crypt: unknown FilterName \"\\\"\" (§F.3.1 defines 'Encryption' / 'SE')"
    );
}

#[test]
fn urls_that_name_no_stream() {
    let fault = |url: &str| match RtmpUrl::parse(url) {
        Err(Error::Other(m)) => m,
        other => panic!("{other:?}"),
    };
    assert_eq!(fault("http://h/a"), "not an rtmp:// URL: http://h/a");
    assert_eq!(fault("rtmp://h"), "missing /app in rtmp URL");
    assert_eq!(fault("rtmp://h:1x/a"), "rtmp URL bad port: invalid digit found in string");
    assert_eq!(RtmpUrl::parse("rtmp://h:08/a/b/c").expect("url").port, 8);
}

#[test]
fn bytes_that_are_no_text_become_a_key_all_the_same() {
    let mut m = FourCcInfoMap::new();
    m.insert_fourcc(*b"av01", 1);
    m.insert_fourcc([b'a', 0xFF, b'b', b'c'], 2);
    assert_eq!(m.get("av01"), Some(1));
    assert_eq!(m.get("a\u{FFFD}bc"), Some(2));
    assert_eq!(
        m.to_amf0(),
        amf::obj(vec![
            ("av01".to_string(), Amf0Value::Number(oxideav_rtmp::number::Double::from_u32(1))),
            (
                "a\u{FFFD}bc".to_string(),
                Amf0Value::Number(oxideav_rtmp::number::Double::from_u32(2)),
            ),
        ])
    );
}
