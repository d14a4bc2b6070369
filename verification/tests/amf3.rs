//! AMF3 values.

use oxideav_rtmp::amf::Amf0Value as A0;
use oxideav_rtmp::amf3::{
    AVMPLUS_OBJECT_MARKER, Amf3Value, Decoder, ExternalizableReader, FixedBody, M_ARRAY, M_DATE,
    M_OBJECT, M_STRING, anon_object, decode, decode_all, decode_data_message, dynamic_object,
    encode, read_u29, write_u29,
};
use oxideav_rtmp::error::{Error, Result};
use oxideav_rtmp::number::Double;

fn num(x: f64) -> Double {
    Double::from_bits(x.to_bits())
}

fn number_text(d: Double) -> String {
    f64::from_bits(d.to_bits()).to_string()
}

fn write_u29_string(out: &mut Vec<u8>, s: &str) {
    write_u29(out, ((s.len() as u32) << 1) | 1);
    out.extend_from_slice(s.as_bytes());
}

/// A body whose first byte says how many follow.
struct LengthPrefixed;

impl ExternalizableReader for LengthPrefixed {
    fn body_len(&self, buf: &[u8], start: usize) -> Result<usize> {
        let n = *buf
            .get(start)
            .ok_or_else(|| Error::InvalidAmf0("LenPrefixed: missing prefix".into()))?
            as usize;
        Ok(1 + n)
    }
}

#[test]
fn u29_roundtrips_each_length() {
    for v in [0u32, 1, 0x7F] {
        let mut b = Vec::new();
        write_u29(&mut b, v);
        assert_eq!(b.len(), 1, "v={v}");
        let mut p = 0;
        assert_eq!(read_u29(&b, &mut p).unwrap(), v);
        assert_eq!(p, b.len());
    }
    for v in [0x80u32, 0x100, 0x3FFF] {
        let mut b = Vec::new();
        write_u29(&mut b, v);
        assert_eq!(b.len(), 2, "v={v}");
        let mut p = 0;
        assert_eq!(read_u29(&b, &mut p).unwrap(), v);
    }
    for v in [0x4000u32, 0x10_0000, 0x1F_FFFF] {
        let mut b = Vec::new();
        write_u29(&mut b, v);
        assert_eq!(b.len(), 3, "v={v}");
        let mut p = 0;
        assert_eq!(read_u29(&b, &mut p).unwrap(), v);
    }
    for v in [0x20_0000u32, 0x1234_5678, 0x1FFF_FFFF] {
        let mut b = Vec::new();
        write_u29(&mut b, v);
        assert_eq!(b.len(), 4, "v={v}");
        let mut p = 0;
        assert_eq!(read_u29(&b, &mut p).unwrap(), v);
    }
}

#[test]
fn u29_spec_examples() {
    let mut b = Vec::new();
    write_u29(&mut b, 0x7F);
    assert_eq!(b, vec![0x7F]);

    let mut b = Vec::new();
    write_u29(&mut b, 0x80);
    assert_eq!(b, vec![0x81, 0x00]);

    let mut b = Vec::new();
    write_u29(&mut b, 0x4000);
    assert_eq!(b, vec![0x81, 0x80, 0x00]);

    let mut b = Vec::new();
    write_u29(&mut b, 0x20_0000);
    assert_eq!(b, vec![0x80, 0xC0, 0x80, 0x00]);
    let mut p = 0;
    assert_eq!(read_u29(&b, &mut p).unwrap(), 0x20_0000);
}

#[test]
fn roundtrip_simple_markers() {
    for v in [
        Amf3Value::Undefined,
        Amf3Value::Null,
        Amf3Value::Boolean(false),
        Amf3Value::Boolean(true),
    ] {
        let mut b = Vec::new();
        encode(&mut b, &v);
        let mut p = 0;
        assert_eq!(decode(&b, &mut p).unwrap(), v);
        assert_eq!(p, b.len());
    }
}

#[test]
fn roundtrip_integer_and_double() {
    for n in [-3, -1, 0, 1, 1024, (1 << 28) - 1, -(1 << 28)] {
        let v = Amf3Value::Integer(n);
        let mut b = Vec::new();
        encode(&mut b, &v);
        let mut p = 0;
        assert_eq!(decode(&b, &mut p).unwrap(), v);
    }
    let v = Amf3Value::Integer(1 << 28);
    let mut b = Vec::new();
    encode(&mut b, &v);
    let mut p = 0;
    let decoded = decode(&b, &mut p).unwrap();
    assert!(matches!(decoded, Amf3Value::Double(d) if d == num(f64::from(1 << 28))));

    let d = Amf3Value::Double(num(123.456_789));
    let mut b = Vec::new();
    encode(&mut b, &d);
    let mut p = 0;
    assert_eq!(decode(&b, &mut p).unwrap(), d);
}

#[test]
fn roundtrip_string_literal_then_reference() {
    let mut bytes = Vec::new();
    encode(&mut bytes, &Amf3Value::String("hello".into()));
    bytes.push(M_STRING);
    write_u29(&mut bytes, 0);
    let mut dec = Decoder::new();
    let mut p = 0;
    let a = dec.decode(&bytes, &mut p).unwrap();
    let b = dec.decode(&bytes, &mut p).unwrap();
    assert_eq!(a, Amf3Value::String("hello".into()));
    assert_eq!(b, Amf3Value::String("hello".into()));
    assert_eq!(p, bytes.len());
}

#[test]
fn empty_string_never_in_table() {
    let mut bytes = Vec::new();
    encode(&mut bytes, &Amf3Value::String(String::new()));
    encode(&mut bytes, &Amf3Value::String("after".into()));
    let mut dec = Decoder::new();
    let mut p = 0;
    dec.decode(&bytes, &mut p).unwrap();
    dec.decode(&bytes, &mut p).unwrap();
    let mut more = vec![M_STRING];
    write_u29(&mut more, 0);
    let mut p2 = 0;
    let resolved = dec.decode(&more, &mut p2).unwrap();
    assert_eq!(resolved, Amf3Value::String("after".into()));
}

#[test]
fn roundtrip_date() {
    let v = Amf3Value::Date(num(1_700_000_000_000.0));
    let mut b = Vec::new();
    encode(&mut b, &v);
    let mut p = 0;
    assert_eq!(decode(&b, &mut p).unwrap(), v);
}

#[test]
fn roundtrip_byte_array() {
    let v = Amf3Value::ByteArray(vec![0u8, 1, 2, 0xFE, 0xFF]);
    let mut b = Vec::new();
    encode(&mut b, &v);
    let mut p = 0;
    assert_eq!(decode(&b, &mut p).unwrap(), v);
}

#[test]
fn roundtrip_dense_array() {
    let v = Amf3Value::Array {
        dense: vec![
            Amf3Value::Integer(1),
            Amf3Value::Integer(2),
            Amf3Value::String("c".into()),
        ],
        assoc: Vec::new(),
    };
    let mut b = Vec::new();
    encode(&mut b, &v);
    let mut p = 0;
    assert_eq!(decode(&b, &mut p).unwrap(), v);
}

#[test]
fn roundtrip_associative_array() {
    let v = Amf3Value::Array {
        dense: vec![Amf3Value::Integer(7), Amf3Value::Integer(8)],
        assoc: vec![
            ("color".into(), Amf3Value::String("red".into())),
            ("count".into(), Amf3Value::Integer(2)),
        ],
    };
    let mut b = Vec::new();
    encode(&mut b, &v);
    let mut p = 0;
    assert_eq!(decode(&b, &mut p).unwrap(), v);
}

#[test]
fn roundtrip_anonymous_object() {
    let v = anon_object(vec![
        ("app".to_string(), Amf3Value::String("live".into())),
        ("flashVer".to_string(), Amf3Value::String("FMLE/3.0".into())),
        ("capabilities".to_string(), Amf3Value::Integer(239)),
    ]);
    let mut b = Vec::new();
    encode(&mut b, &v);
    let mut p = 0;
    let decoded = decode(&b, &mut p).unwrap();
    assert_eq!(decoded, v);
    assert_eq!(decoded.get("app").and_then(Amf3Value::as_str), Some("live"));
}

#[test]
fn roundtrip_dynamic_object() {
    let v = dynamic_object(vec![
        ("name".to_string(), Amf3Value::String("alice".into())),
        ("age".to_string(), Amf3Value::Integer(30)),
    ]);
    let mut b = Vec::new();
    encode(&mut b, &v);
    let mut p = 0;
    assert_eq!(decode(&b, &mut p).unwrap(), v);
}

#[test]
fn roundtrip_typed_object_with_sealed_and_dynamic() {
    let v = Amf3Value::Object {
        class_name: "com.example.Camera".into(),
        dynamic: true,
        sealed: vec![
            ("width".into(), Amf3Value::Integer(1920)),
            ("height".into(), Amf3Value::Integer(1080)),
        ],
        dynamic_members: vec![("extra".into(), Amf3Value::Boolean(true))],
        externalizable_body: None,
    };
    let mut b = Vec::new();
    encode(&mut b, &v);
    let mut p = 0;
    assert_eq!(decode(&b, &mut p).unwrap(), v);
}

#[test]
fn externalizable_object_refuses_to_decode_without_handler() {
    let mut bytes = vec![M_OBJECT];
    write_u29(&mut bytes, 0b0111);
    write_u29_string(&mut bytes, "MyExternalClass");
    bytes.push(0xAA);
    let mut p = 0;
    assert!(matches!(decode(&bytes, &mut p), Err(Error::InvalidAmf0(_))));
}

#[test]
fn externalizable_object_decodes_with_registered_fixed_handler() {
    let mut bytes = vec![M_OBJECT];
    write_u29(&mut bytes, 0b0111);
    write_u29_string(&mut bytes, "MyFixedClass");
    bytes.extend_from_slice(&[0xDE, 0xAD, 0xBE, 0xEF]);
    encode(&mut bytes, &Amf3Value::Integer(7));

    let mut dec = Decoder::new();
    dec.register_externalizable("MyFixedClass", Box::new(FixedBody { len: 4 }));
    let mut p = 0;
    let v = dec.decode(&bytes, &mut p).unwrap();
    assert_eq!(
        v,
        Amf3Value::Object {
            class_name: "MyFixedClass".into(),
            dynamic: false,
            sealed: Vec::new(),
            dynamic_members: Vec::new(),
            externalizable_body: Some(vec![0xDE, 0xAD, 0xBE, 0xEF]),
        }
    );
    assert_eq!(dec.decode(&bytes, &mut p).unwrap(), Amf3Value::Integer(7));
    assert_eq!(p, bytes.len());
}

#[test]
fn externalizable_object_decodes_with_length_prefixed_handler() {
    let mut bytes = vec![M_OBJECT];
    write_u29(&mut bytes, 0b0111);
    write_u29_string(&mut bytes, "LenPrefixed");
    bytes.push(3);
    bytes.extend_from_slice(&[1, 2, 3]);

    let mut dec = Decoder::new();
    dec.register_externalizable(
        "LenPrefixed",
        Box::new(LengthPrefixed),
    );
    let mut p = 0;
    let v = dec.decode(&bytes, &mut p).unwrap();
    match v {
        Amf3Value::Object {
            externalizable_body: Some(body),
            ..
        } => assert_eq!(body, vec![3, 1, 2, 3]),
        other => panic!("expected externalizable object, got {other:?}"),
    }
    assert_eq!(p, bytes.len());
}

#[test]
fn externalizable_decode_then_encode_roundtrips() {
    let mut bytes = vec![M_OBJECT];
    write_u29(&mut bytes, 0b0111);
    write_u29_string(&mut bytes, "RoundTrip");
    bytes.extend_from_slice(&[0x10, 0x20]);

    let mut dec = Decoder::new();
    dec.register_externalizable("RoundTrip", Box::new(FixedBody { len: 2 }));
    let mut p = 0;
    let v = dec.decode(&bytes, &mut p).unwrap();

    let mut reencoded = Vec::new();
    encode(&mut reencoded, &v);
    assert_eq!(reencoded, bytes);
}

#[test]
fn externalizable_handler_overrun_is_rejected() {
    let mut bytes = vec![M_OBJECT];
    write_u29(&mut bytes, 0b0111);
    write_u29_string(&mut bytes, "Greedy");
    bytes.push(0x01);

    let mut dec = Decoder::new();
    dec.register_externalizable("Greedy", Box::new(FixedBody { len: 8 }));
    let mut p = 0;
    assert!(matches!(
        dec.decode(&bytes, &mut p),
        Err(Error::InvalidAmf0(_))
    ));
}

#[test]
fn externalizable_handler_survives_reset_tables() {
    let mut dec = Decoder::new();
    dec.register_externalizable("Persist", Box::new(FixedBody { len: 1 }));
    dec.reset_tables();

    let mut bytes = vec![M_OBJECT];
    write_u29(&mut bytes, 0b0111);
    write_u29_string(&mut bytes, "Persist");
    bytes.push(0x99);
    let mut p = 0;
    assert!(dec.decode(&bytes, &mut p).is_ok());
}

#[test]
fn externalizable_object_joins_object_reference_table() {
    let mut bytes = Vec::new();
    bytes.push(M_ARRAY);
    write_u29(&mut bytes, (2 << 1) | 1);
    write_u29(&mut bytes, 1);
    bytes.push(M_OBJECT);
    write_u29(&mut bytes, 0b0111);
    write_u29_string(&mut bytes, "Reffed");
    bytes.push(0x42);
    bytes.push(M_OBJECT);
    write_u29(&mut bytes, 1 << 1);

    let mut dec = Decoder::new();
    dec.register_externalizable("Reffed", Box::new(FixedBody { len: 1 }));
    let mut p = 0;
    let v = dec.decode(&bytes, &mut p).unwrap();
    match v {
        Amf3Value::Array { dense, .. } => {
            assert_eq!(dense.len(), 2);
            assert_eq!(dense[0], dense[1]);
            assert!(matches!(
                &dense[0],
                Amf3Value::Object { externalizable_body: Some(b), .. } if b == &vec![0x42]
            ));
        }
        other => panic!("expected array, got {other:?}"),
    }
}

#[test]
fn roundtrip_vector_int() {
    let v = Amf3Value::VectorInt {
        fixed: false,
        items: vec![-1, 0, 1, i32::MIN, i32::MAX],
    };
    let mut b = Vec::new();
    encode(&mut b, &v);
    let mut p = 0;
    assert_eq!(decode(&b, &mut p).unwrap(), v);
}

#[test]
fn roundtrip_vector_uint() {
    let v = Amf3Value::VectorUInt {
        fixed: true,
        items: vec![0u32, 1, 4_000_000_000],
    };
    let mut b = Vec::new();
    encode(&mut b, &v);
    let mut p = 0;
    assert_eq!(decode(&b, &mut p).unwrap(), v);
}

#[test]
fn roundtrip_vector_double() {
    let v = Amf3Value::VectorDouble {
        fixed: false,
        items: vec![num(0.0), num(1.5), num(-2.5), num(f64::INFINITY)],
    };
    let mut b = Vec::new();
    encode(&mut b, &v);
    let mut p = 0;
    let r = decode(&b, &mut p).unwrap();
    assert_eq!(r, v);
}

#[test]
fn roundtrip_vector_object() {
    let v = Amf3Value::VectorObject {
        fixed: false,
        object_type_name: "*".into(),
        items: vec![
            Amf3Value::Integer(1),
            Amf3Value::String("two".into()),
            Amf3Value::Null,
        ],
    };
    let mut b = Vec::new();
    encode(&mut b, &v);
    let mut p = 0;
    assert_eq!(decode(&b, &mut p).unwrap(), v);
}

#[test]
fn roundtrip_dictionary() {
    let v = Amf3Value::Dictionary {
        weak_keys: false,
        entries: vec![
            (Amf3Value::String("k1".into()), Amf3Value::Integer(1)),
            (Amf3Value::Integer(42), Amf3Value::String("v".into())),
        ],
    };
    let mut b = Vec::new();
    encode(&mut b, &v);
    let mut p = 0;
    assert_eq!(decode(&b, &mut p).unwrap(), v);
}

#[test]
fn roundtrip_xml_and_xmldoc() {
    for v in [
        Amf3Value::Xml("<root/>".into()),
        Amf3Value::XmlDocument("<doc/>".into()),
    ] {
        let mut b = Vec::new();
        encode(&mut b, &v);
        let mut p = 0;
        assert_eq!(decode(&b, &mut p).unwrap(), v);
    }
}

#[test]
fn decode_all_shares_string_table_across_values() {
    let mut bytes = Vec::new();
    encode(&mut bytes, &Amf3Value::String("shared".into()));
    bytes.push(M_STRING);
    write_u29(&mut bytes, 0);
    let values = decode_all(&bytes).unwrap();
    assert_eq!(values.len(), 2);
    assert_eq!(values[0], Amf3Value::String("shared".into()));
    assert_eq!(values[1], Amf3Value::String("shared".into()));
}

#[test]
fn decode_all_rejects_dangling_reference() {
    let mut bytes = vec![M_STRING];
    write_u29(&mut bytes, 0);
    assert!(matches!(decode_all(&bytes), Err(Error::InvalidAmf0(_))));
}

#[test]
fn rejects_unknown_marker() {
    let b = [0xFE_u8];
    let mut p = 0;
    assert!(matches!(decode(&b, &mut p), Err(Error::InvalidAmf0(_))));
}

#[test]
fn integer_sign_extension_at_negative_boundary() {
    let v = Amf3Value::Integer(-1);
    let mut b = Vec::new();
    encode(&mut b, &v);
    let mut p = 0;
    assert_eq!(decode(&b, &mut p).unwrap(), v);
    assert_eq!(b.len(), 5);
}

#[test]
fn trait_reference_round_trip() {
    let class = "com.foo.Bar";
    let mut bytes = Vec::new();
    bytes.push(M_OBJECT);
    write_u29(&mut bytes, 0b0011 | (1u32 << 4));
    write_u29_string(&mut bytes, class);
    write_u29_string(&mut bytes, "x");
    encode(&mut bytes, &Amf3Value::Integer(1));
    bytes.push(M_OBJECT);
    write_u29(&mut bytes, 0b01);
    encode(&mut bytes, &Amf3Value::Integer(2));

    let values = decode_all(&bytes).unwrap();
    assert_eq!(values.len(), 2);
    if let Amf3Value::Object {
        class_name, sealed, ..
    } = &values[0]
    {
        assert_eq!(class_name, class);
        assert_eq!(sealed, &vec![("x".into(), Amf3Value::Integer(1))]);
    } else {
        panic!("expected object, got {:?}", values[0]);
    }
    if let Amf3Value::Object {
        class_name, sealed, ..
    } = &values[1]
    {
        assert_eq!(class_name, class);
        assert_eq!(sealed, &vec![("x".into(), Amf3Value::Integer(2))]);
    } else {
        panic!("expected object, got {:?}", values[1]);
    }
}

#[test]
fn object_reference_resolves_to_same_value() {
    let mut bytes = Vec::new();
    encode(&mut bytes, &Amf3Value::Date(num(1234.0)));
    bytes.push(M_DATE);
    write_u29(&mut bytes, 0);

    let values = decode_all(&bytes).unwrap();
    assert_eq!(
        values,
        vec![Amf3Value::Date(num(1234.0)), Amf3Value::Date(num(1234.0))]
    );
}

fn avmplus_wrap(v: &Amf3Value) -> Vec<u8> {
    let mut out = vec![AVMPLUS_OBJECT_MARKER];
    encode(&mut out, v);
    out
}

#[test]
fn data_message_decodes_avmplus_wrapped_sequence() {
    let meta = dynamic_object(vec![
        ("duration".to_string(), Amf3Value::Double(num(12.5))),
        ("width".to_string(), Amf3Value::Integer(1920)),
    ]);
    let mut body = avmplus_wrap(&Amf3Value::String("onMetaData".into()));
    body.extend(avmplus_wrap(&meta));

    let values = decode_data_message(&body).unwrap();
    assert_eq!(values.len(), 2);
    assert_eq!(values[0].as_str(), Some("onMetaData"));
    assert_eq!(
        values[1].get("duration").and_then(Amf3Value::as_f64),
        Some(num(12.5))
    );
    assert_eq!(
        values[1].get("width").and_then(Amf3Value::as_i32),
        Some(1920)
    );
}

#[test]
fn data_message_decodes_unprefixed_amf3() {
    let mut body = Vec::new();
    encode(&mut body, &Amf3Value::String("onMetaData".into()));
    encode(
        &mut body,
        &dynamic_object(vec![("fps".to_string(), Amf3Value::Integer(30))]),
    );

    let values = decode_data_message(&body).unwrap();
    assert_eq!(values.len(), 2);
    assert_eq!(values[0].as_str(), Some("onMetaData"));
    assert_eq!(values[1].get("fps").and_then(Amf3Value::as_i32), Some(30));
}

#[test]
fn data_message_shares_one_reference_context() {
    let mut body = Vec::new();
    encode(&mut body, &Amf3Value::String("repeat".into()));
    body.push(M_STRING);
    write_u29(&mut body, 0);

    let values = decode_data_message(&body).unwrap();
    assert_eq!(values.len(), 2);
    assert_eq!(values[0].as_str(), Some("repeat"));
    assert_eq!(values[1].as_str(), Some("repeat"));
}

#[test]
fn data_message_dangling_avmplus_marker_errors() {
    assert!(decode_data_message(&[AVMPLUS_OBJECT_MARKER]).is_err());
}

#[test]
fn bridge_scalars() {
    assert_eq!(Amf3Value::Null.to_amf0(&number_text), A0::Null);
    assert_eq!(Amf3Value::Undefined.to_amf0(&number_text), A0::Undefined);
    assert_eq!(Amf3Value::Boolean(true).to_amf0(&number_text), A0::Boolean(true));
    assert_eq!(Amf3Value::Integer(7).to_amf0(&number_text), A0::Number(num(7.0)));
    assert_eq!(Amf3Value::Double(num(2.5)).to_amf0(&number_text), A0::Number(num(2.5)));
    assert_eq!(
        Amf3Value::String("x".into()).to_amf0(&number_text),
        A0::String("x".into())
    );
    assert_eq!(
        Amf3Value::Date(num(100.0)).to_amf0(&number_text),
        A0::Date {
            millis: num(100.0),
            timezone: 0
        }
    );
}

#[test]
fn bridge_object_merges_sealed_and_dynamic_in_order() {
    let obj = Amf3Value::Object {
        class_name: "Some.Class".into(),
        dynamic: true,
        sealed: vec![("a".into(), Amf3Value::Integer(1))],
        dynamic_members: vec![("b".into(), Amf3Value::String("two".into()))],
        externalizable_body: None,
    };
    assert_eq!(
        obj.to_amf0(&number_text),
        A0::Object(vec![
            ("a".into(), A0::Number(num(1.0))),
            ("b".into(), A0::String("two".into())),
        ])
    );
}

#[test]
fn bridge_array_to_ecma_with_ordinal_keys() {
    let arr = Amf3Value::Array {
        dense: vec![Amf3Value::Integer(10), Amf3Value::Integer(20)],
        assoc: vec![("name".into(), Amf3Value::String("v".into()))],
    };
    assert_eq!(
        arr.to_amf0(&number_text),
        A0::EcmaArray(vec![
            ("0".into(), A0::Number(num(10.0))),
            ("1".into(), A0::Number(num(20.0))),
            ("name".into(), A0::String("v".into())),
        ])
    );
}

#[test]
fn bridge_vectors_and_bytearray_to_strict_array() {
    let vi = Amf3Value::VectorInt {
        fixed: true,
        items: vec![-1, 2],
    };
    assert_eq!(
        vi.to_amf0(&number_text),
        A0::StrictArray(vec![A0::Number(num(-1.0)), A0::Number(num(2.0))])
    );
    let ba = Amf3Value::ByteArray(vec![0, 255]);
    assert_eq!(
        ba.to_amf0(&number_text),
        A0::StrictArray(vec![A0::Number(num(0.0)), A0::Number(num(255.0))])
    );
}

#[test]
fn bridge_full_onmetadata_roundtrips_into_amf0_object() {
    let meta = dynamic_object(vec![
        ("width".to_string(), Amf3Value::Integer(1280)),
        ("height".to_string(), Amf3Value::Integer(720)),
        ("framerate".to_string(), Amf3Value::Double(num(29.97))),
        ("videocodecid".to_string(), Amf3Value::String("avc1".into())),
    ]);
    let mut body = avmplus_wrap(&Amf3Value::String("onMetaData".into()));
    body.extend(avmplus_wrap(&meta));

    let bridged: Vec<A0> = decode_data_message(&body)
        .unwrap()
        .iter()
        .map(|v| v.to_amf0(&number_text))
        .collect();
    let obj = bridged.last().unwrap();
    assert_eq!(obj.get("width").and_then(A0::as_f64), Some(num(1280.0)));
    assert_eq!(obj.get("height").and_then(A0::as_f64), Some(num(720.0)));
    assert_eq!(obj.get("framerate").and_then(A0::as_f64), Some(num(29.97)));
    assert_eq!(obj.get("videocodecid").and_then(A0::as_str), Some("avc1"));
}
