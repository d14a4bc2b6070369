//! Capabilities of a connection.

use oxideav_rtmp::amf::{Amf0Value, decode, encode, obj};
use oxideav_rtmp::caps::{
    CAPS_EX_MOD_EX, CAPS_EX_MULTITRACK, CAPS_EX_RECONNECT, CAPS_EX_TIMESTAMP_NANO_OFFSET,
    ConnectCapabilities, FOURCC_INFO_CAN_DECODE, FOURCC_INFO_CAN_ENCODE,
    FOURCC_INFO_CAN_FORWARD, FOURCC_WILDCARD, FourCcInfoMap, OBJECT_ENCODING_AMF0,
    OBJECT_ENCODING_AMF3,
};
use oxideav_rtmp::flv::{
    FOURCC_AAC, FOURCC_AC3, FOURCC_AV1, FOURCC_AVC, FOURCC_EAC3, FOURCC_FLAC, FOURCC_HEVC,
    FOURCC_MP3, FOURCC_OPUS, FOURCC_VP8, FOURCC_VP9, FOURCC_VVC,
};
use oxideav_rtmp::number::Double;

fn num(x: f64) -> Double {
    Double::from_bits(x.to_bits())
}

fn fourcc_str(b: [u8; 4]) -> String {
    std::str::from_utf8(&b).unwrap().to_owned()
}

#[test]
fn fourcc_info_mask_constants_match_spec() {
    assert_eq!(FOURCC_INFO_CAN_DECODE, 0x01);
    assert_eq!(FOURCC_INFO_CAN_ENCODE, 0x02);
    assert_eq!(FOURCC_INFO_CAN_FORWARD, 0x04);
}

#[test]
fn caps_ex_mask_constants_match_spec() {
    assert_eq!(CAPS_EX_RECONNECT, 0x01);
    assert_eq!(CAPS_EX_MULTITRACK, 0x02);
    assert_eq!(CAPS_EX_MOD_EX, 0x04);
    assert_eq!(CAPS_EX_TIMESTAMP_NANO_OFFSET, 0x08);
}

#[test]
fn fourcc_wildcard_is_star() {
    assert_eq!(FOURCC_WILDCARD, "*");
}

#[test]
fn fourcc_info_map_insert_preserves_order() {
    let mut m = FourCcInfoMap::new();
    m.insert("hvc1", FOURCC_INFO_CAN_DECODE);
    m.insert_fourcc(FOURCC_AV1, FOURCC_INFO_CAN_DECODE | FOURCC_INFO_CAN_ENCODE);
    m.insert("hvc1", FOURCC_INFO_CAN_FORWARD);
    let keys: Vec<_> = m.iter().into_iter().map(|(k, _)| k.to_owned()).collect();
    assert_eq!(keys, vec!["hvc1", "av01"]);
    assert_eq!(m.get("hvc1"), Some(FOURCC_INFO_CAN_FORWARD));
}

#[test]
fn fourcc_info_map_wildcard_overrides_per_codec() {
    let mut m = FourCcInfoMap::new();
    m.insert("*", FOURCC_INFO_CAN_FORWARD);
    m.insert("vp09", FOURCC_INFO_CAN_DECODE | FOURCC_INFO_CAN_ENCODE);
    assert_eq!(
        m.effective_mask("vp09"),
        FOURCC_INFO_CAN_DECODE | FOURCC_INFO_CAN_ENCODE | FOURCC_INFO_CAN_FORWARD,
    );
    assert_eq!(m.effective_mask("xxxx"), FOURCC_INFO_CAN_FORWARD);
}

#[test]
fn fourcc_info_map_amf0_roundtrip() {
    let mut m = FourCcInfoMap::new();
    m.insert("*", FOURCC_INFO_CAN_FORWARD);
    m.insert_fourcc(FOURCC_VP9, FOURCC_INFO_CAN_DECODE | FOURCC_INFO_CAN_ENCODE);
    let v = m.to_amf0();
    let back = FourCcInfoMap::from_amf0(&v);
    assert_eq!(back, m);
}

#[test]
fn fourcc_info_map_skips_non_number_values() {
    let v = Amf0Value::Object(vec![
        ("hvc1".into(), Amf0Value::Number(num(7.0))),
        ("Opus".into(), Amf0Value::String("nope".into())),
        ("avc1".into(), Amf0Value::Number(num(f64::NAN))),
        ("vp08".into(), Amf0Value::Number(num(-1.0))),
    ]);
    let m = FourCcInfoMap::from_amf0(&v);
    let keys: Vec<_> = m.iter().into_iter().map(|(k, _)| k.to_owned()).collect();
    assert_eq!(keys, vec!["hvc1"]);
    assert_eq!(m.get("hvc1"), Some(7));
}

#[test]
fn fourcc_info_map_saturates_oversize_mask() {
    let v = Amf0Value::Object(vec![("hvc1".into(), Amf0Value::Number(num(1e20)))]);
    let m = FourCcInfoMap::from_amf0(&v);
    assert_eq!(m.get("hvc1"), Some(u32::MAX));
}

#[test]
fn default_capabilities_emit_nothing() {
    let caps = ConnectCapabilities::default();
    assert!(caps.is_empty());
    let mut pairs = Vec::new();
    caps.encode_into(&mut pairs);
    assert!(pairs.is_empty());
}

#[test]
fn encode_into_uses_documented_order() {
    let mut video = FourCcInfoMap::new();
    video.insert("*", FOURCC_INFO_CAN_FORWARD);
    let mut audio = FourCcInfoMap::new();
    audio.insert_fourcc(FOURCC_OPUS, FOURCC_INFO_CAN_DECODE);
    let caps = ConnectCapabilities {
        object_encoding: Some(OBJECT_ENCODING_AMF3),
        fourcc_list: vec![fourcc_str(FOURCC_HEVC), fourcc_str(FOURCC_AV1)],
        video_fourcc_info_map: video,
        audio_fourcc_info_map: audio,
        caps_ex: CAPS_EX_RECONNECT | CAPS_EX_MULTITRACK,
    };

    let mut pairs = Vec::new();
    caps.encode_into(&mut pairs);
    let names: Vec<&str> = pairs.iter().map(|(k, _)| k.as_str()).collect();
    assert_eq!(
        names,
        vec![
            "objectEncoding",
            "fourCcList",
            "videoFourCcInfoMap",
            "audioFourCcInfoMap",
            "capsEx",
        ],
    );
}

#[test]
fn full_capabilities_amf0_roundtrip() {
    let mut video = FourCcInfoMap::new();
    video.insert("*", FOURCC_INFO_CAN_FORWARD);
    video.insert_fourcc(FOURCC_HEVC, FOURCC_INFO_CAN_DECODE | FOURCC_INFO_CAN_ENCODE);
    video.insert_fourcc(FOURCC_VP9, FOURCC_INFO_CAN_DECODE);
    let mut audio = FourCcInfoMap::new();
    audio.insert("*", FOURCC_INFO_CAN_FORWARD);
    audio.insert_fourcc(FOURCC_OPUS, FOURCC_INFO_CAN_DECODE | FOURCC_INFO_CAN_ENCODE);
    let caps = ConnectCapabilities {
        object_encoding: Some(OBJECT_ENCODING_AMF0),
        fourcc_list: vec![
            fourcc_str(FOURCC_AV1),
            fourcc_str(FOURCC_VP9),
            fourcc_str(FOURCC_VP8),
            fourcc_str(FOURCC_HEVC),
            fourcc_str(FOURCC_AVC),
            fourcc_str(FOURCC_VVC),
            fourcc_str(FOURCC_AC3),
            fourcc_str(FOURCC_EAC3),
            fourcc_str(FOURCC_OPUS),
            fourcc_str(FOURCC_MP3),
            fourcc_str(FOURCC_FLAC),
            fourcc_str(FOURCC_AAC),
        ],
        video_fourcc_info_map: video,
        audio_fourcc_info_map: audio,
        caps_ex: CAPS_EX_RECONNECT
            | CAPS_EX_MULTITRACK
            | CAPS_EX_MOD_EX
            | CAPS_EX_TIMESTAMP_NANO_OFFSET,
    };

    let mut pairs = vec![("app".into(), Amf0Value::String("live".into()))];
    caps.encode_into(&mut pairs);
    let obj = Amf0Value::Object(pairs);
    let mut buf = Vec::new();
    encode(&mut buf, &obj);
    let mut pos = 0;
    let decoded = decode(&buf, &mut pos).unwrap();
    let back = ConnectCapabilities::from_amf0(&decoded);
    assert_eq!(back, caps);
}

#[test]
fn fourcc_list_wildcard_and_explicit() {
    let caps = ConnectCapabilities {
        fourcc_list: vec!["*".into()],
        ..Default::default()
    };
    assert!(caps.has_fourcc("av01"));
    assert!(caps.has_fourcc("xxxx"));

    let caps = ConnectCapabilities {
        fourcc_list: vec![fourcc_str(FOURCC_HEVC)],
        ..Default::default()
    };
    assert!(caps.has_fourcc("hvc1"));
    assert!(!caps.has_fourcc("av01"));
}

#[test]
fn caps_ex_bit_test() {
    let caps = ConnectCapabilities {
        caps_ex: CAPS_EX_RECONNECT | CAPS_EX_MOD_EX,
        ..Default::default()
    };
    assert!(caps.supports_caps_ex(CAPS_EX_RECONNECT));
    assert!(caps.supports_caps_ex(CAPS_EX_MOD_EX));
    assert!(!caps.supports_caps_ex(CAPS_EX_MULTITRACK));
    assert!(caps.supports_caps_ex(CAPS_EX_RECONNECT | CAPS_EX_MOD_EX));
}

#[test]
fn malformed_caps_ex_falls_back_to_default() {
    let obj = Amf0Value::Object(vec![
        ("capsEx".into(), Amf0Value::String("oops".into())),
        (
            "fourCcList".into(),
            Amf0Value::StrictArray(vec![Amf0Value::String("av01".into())]),
        ),
    ]);
    let caps = ConnectCapabilities::from_amf0(&obj);
    assert_eq!(caps.caps_ex, 0);
    assert_eq!(caps.fourcc_list, vec!["av01"]);
}

#[test]
fn from_amf0_non_object_returns_empty() {
    let caps = ConnectCapabilities::from_amf0(&Amf0Value::Number(num(7.0)));
    assert!(caps.is_empty());
    let caps = ConnectCapabilities::from_amf0(&Amf0Value::Null);
    assert!(caps.is_empty());
}

#[test]
fn object_encoding_values() {
    for &enc in &[OBJECT_ENCODING_AMF0, OBJECT_ENCODING_AMF3] {
        let caps = ConnectCapabilities {
            object_encoding: Some(enc),
            ..Default::default()
        };
        let mut pairs = Vec::new();
        caps.encode_into(&mut pairs);
        let back = ConnectCapabilities::from_amf0(&Amf0Value::Object(pairs));
        assert_eq!(back.object_encoding, Some(enc));
    }
}

#[test]
fn ecma_array_parses_as_capability_block() {
    let arr = Amf0Value::EcmaArray(vec![
        ("capsEx".into(), Amf0Value::Number(num(0x05 as f64))),
        (
            "videoFourCcInfoMap".into(),
            Amf0Value::Object(vec![("hvc1".into(), Amf0Value::Number(num(3.0)))]),
        ),
    ]);
    let caps = ConnectCapabilities::from_amf0(&arr);
    assert_eq!(caps.caps_ex, 0x05);
    assert_eq!(caps.video_fourcc_info_map.get("hvc1"), Some(3));
}
