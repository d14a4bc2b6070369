//! AMF0 values.

use oxideav_rtmp::amf::{
    Amf0Value, M_OBJECT, M_OBJECT_END, M_REFERENCE, M_TYPED_OBJECT, M_UNSUPPORTED,
    M_XML_DOCUMENT, decode, decode_all, encode, obj,
};
use oxideav_rtmp::error::Error;
use oxideav_rtmp::number::Double;

fn num(x: f64) -> Double {
    Double::from_bits(x.to_bits())
}

#[test]
fn roundtrip_number() {
    let v = Amf0Value::Number(num(42.5));
    let mut b = Vec::new();
    encode(&mut b, &v);
    let mut p = 0;
    assert_eq!(decode(&b, &mut p).unwrap(), v);
}

#[test]
fn roundtrip_string_and_object() {
    let v = Amf0Value::Object(vec![
        ("app".into(), Amf0Value::String("live".into())),
        ("flashVer".into(), Amf0Value::String("FMLE/3.0".into())),
        ("capabilities".into(), Amf0Value::Number(num(239.0))),
    ]);
    let mut b = Vec::new();
    encode(&mut b, &v);
    let mut p = 0;
    assert_eq!(decode(&b, &mut p).unwrap(), v);
}

#[test]
fn decode_all_splits_command_payload() {
    let payload = {
        let mut v = Vec::new();
        encode(&mut v, &Amf0Value::String("connect".into()));
        encode(&mut v, &Amf0Value::Number(num(1.0)));
        encode(
            &mut v,
            &Amf0Value::Object(vec![("app".into(), Amf0Value::String("live".into()))]),
        );
        v
    };
    let values = decode_all(&payload).unwrap();
    assert_eq!(values.len(), 3);
    assert_eq!(values[0].as_str(), Some("connect"));
    assert_eq!(values[1].as_f64(), Some(num(1.0)));
    assert_eq!(
        values[2].get("app").and_then(Amf0Value::as_str),
        Some("live")
    );
}

#[test]
fn reference_resolves_to_prior_complex_object() {
    let obj = Amf0Value::Object(vec![
        ("app".into(), Amf0Value::String("live".into())),
        ("n".into(), Amf0Value::Number(num(7.0))),
    ]);
    let mut b = Vec::new();
    encode(&mut b, &obj);
    b.push(M_REFERENCE);
    b.extend_from_slice(&0u16.to_be_bytes());

    let values = decode_all(&b).unwrap();
    assert_eq!(values.len(), 2);
    assert_eq!(values[0], obj);
    assert_eq!(values[1], obj);
}

#[test]
fn reference_to_second_complex_object() {
    let o0 = Amf0Value::Object(vec![("a".into(), Amf0Value::Number(num(1.0)))]);
    let e1 = Amf0Value::EcmaArray(vec![("b".into(), Amf0Value::Boolean(true))]);
    let s2 = Amf0Value::StrictArray(vec![Amf0Value::Number(num(9.0))]);
    let mut b = Vec::new();
    encode(&mut b, &o0);
    encode(&mut b, &e1);
    encode(&mut b, &s2);
    b.push(M_REFERENCE);
    b.extend_from_slice(&1u16.to_be_bytes());

    let values = decode_all(&b).unwrap();
    assert_eq!(values.len(), 4);
    assert_eq!(values[3], e1);
}

#[test]
fn nested_reference_inside_object_body() {
    let mut body = Vec::new();
    body.extend_from_slice(&(1u16).to_be_bytes());
    body.extend_from_slice(b"x");
    encode(&mut body, &Amf0Value::Number(num(5.0)));
    body.extend_from_slice(&(4u16).to_be_bytes());
    body.extend_from_slice(b"self");
    body.push(M_REFERENCE);
    body.extend_from_slice(&0u16.to_be_bytes());
    body.extend_from_slice(&0u16.to_be_bytes());
    body.push(M_OBJECT_END);

    let mut frame = vec![M_OBJECT];
    frame.extend_from_slice(&body);

    let mut p = 0;
    let v = decode(&frame, &mut p).unwrap();
    if let Amf0Value::Object(pairs) = &v {
        assert_eq!(pairs[0].0, "x");
        assert_eq!(pairs[1].0, "self");
        assert_eq!(pairs[1].1, Amf0Value::Object(Vec::new()));
    } else {
        panic!("expected object, got {v:?}");
    }
}

#[test]
fn out_of_range_reference_is_clean_error() {
    let b = [M_REFERENCE, 0x00, 0x05];
    let mut p = 0;
    assert!(matches!(decode(&b, &mut p), Err(Error::InvalidAmf0(_))));
}

#[test]
fn truncated_reference_index_is_clean_error() {
    let b = [M_REFERENCE, 0x00];
    let mut p = 0;
    assert!(matches!(decode(&b, &mut p), Err(Error::InvalidAmf0(_))));
}

#[test]
fn reference_scope_is_per_top_level_value_in_decode() {
    let b = [M_REFERENCE, 0x00, 0x00];
    let mut p = 0;
    assert!(matches!(decode(&b, &mut p), Err(Error::InvalidAmf0(_))));
}

#[test]
fn roundtrip_xml_document() {
    let v = Amf0Value::XmlDocument("<a>hi</a>".into());
    let mut b = Vec::new();
    encode(&mut b, &v);
    assert_eq!(b[0], M_XML_DOCUMENT);
    assert_eq!(b.len(), 1 + 4 + 9);
    assert_eq!(&b[1..5], &(9u32).to_be_bytes());
    let mut p = 0;
    assert_eq!(decode(&b, &mut p).unwrap(), v);
    assert_eq!(p, b.len());
}

#[test]
fn xml_document_is_distinct_from_string() {
    let v = Amf0Value::XmlDocument("<x/>".into());
    let mut b = Vec::new();
    encode(&mut b, &v);
    let mut p = 0;
    let back = decode(&b, &mut p).unwrap();
    assert!(matches!(back, Amf0Value::XmlDocument(_)));
    assert_ne!(back, Amf0Value::String("<x/>".into()));
}

#[test]
fn truncated_xml_document_is_clean_error() {
    let mut b = vec![M_XML_DOCUMENT];
    b.extend_from_slice(&8u32.to_be_bytes());
    let mut p = 0;
    assert!(matches!(decode(&b, &mut p), Err(Error::InvalidAmf0(_))));
}

#[test]
fn roundtrip_typed_object() {
    let v = Amf0Value::TypedObject {
        class_name: "com.example.User".into(),
        pairs: vec![
            ("id".into(), Amf0Value::Number(num(7.0))),
            ("name".into(), Amf0Value::String("ada".into())),
        ],
    };
    let mut b = Vec::new();
    encode(&mut b, &v);
    assert_eq!(b[0], M_TYPED_OBJECT);
    assert_eq!(&b[1..3], &("com.example.User".len() as u16).to_be_bytes());
    let mut p = 0;
    let back = decode(&b, &mut p).unwrap();
    assert_eq!(back, v);
    assert_eq!(p, b.len());
    assert_eq!(back.class_name(), Some("com.example.User"));
    assert_eq!(back.get("name").and_then(Amf0Value::as_str), Some("ada"));
}

#[test]
fn typed_object_participates_in_reference_table() {
    let to = Amf0Value::TypedObject {
        class_name: "T".into(),
        pairs: vec![("a".into(), Amf0Value::Number(num(1.0)))],
    };
    let mut b = Vec::new();
    encode(&mut b, &to);
    b.push(M_REFERENCE);
    b.extend_from_slice(&0u16.to_be_bytes());
    let values = decode_all(&b).unwrap();
    assert_eq!(values.len(), 2);
    assert_eq!(values[0], to);
    assert_eq!(values[1], to);
}

#[test]
fn roundtrip_unsupported() {
    let v = Amf0Value::Unsupported;
    let mut b = Vec::new();
    encode(&mut b, &v);
    assert_eq!(b, vec![M_UNSUPPORTED]);
    let mut p = 0;
    assert_eq!(decode(&b, &mut p).unwrap(), v);
    assert_eq!(p, 1);
}

#[test]
fn class_name_is_none_for_anonymous_object() {
    let o = Amf0Value::Object(vec![("a".into(), Amf0Value::Number(num(1.0)))]);
    assert_eq!(o.class_name(), None);
    assert_eq!(Amf0Value::Number(num(1.0)).class_name(), None);
}
