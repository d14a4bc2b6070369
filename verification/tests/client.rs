//! What a server tells a publishing client.

use oxideav_rtmp::amf::{Amf0Value, decode_all, encode_command};
use oxideav_rtmp::client::{ClientEvent, classify_command, resolve_tc_url};
use oxideav_rtmp::client::event::{parse_user_control, ucm_stream_id};
use oxideav_rtmp::message::{RECONNECT_REQUEST_CODE, USR_STREAM_EOF};
use oxideav_rtmp::number::Double;

fn num(x: f64) -> Double {
    Double::from_bits(x.to_bits())
}

/// The payload of the status message that asks for a reconnection.
fn reconnect_request(tc_url: Option<&str>, description: Option<&str>) -> Vec<u8> {
    let mut info = vec![
        ("level".to_string(), Amf0Value::String("status".into())),
        ("code".to_string(), Amf0Value::String(RECONNECT_REQUEST_CODE.into())),
    ];
    if let Some(text) = description {
        info.push(("description".to_string(), Amf0Value::String(text.into())));
    }
    if let Some(url) = tc_url {
        info.push(("tcUrl".to_string(), Amf0Value::String(url.into())));
    }
    encode_command(
        "onStatus",
        num(0.0),
        Amf0Value::Null,
        &[Amf0Value::Object(info)],
    )
}

#[test]
fn parse_user_control_stream_eof_recovers_stream_id() {
    let payload: [u8; 6] = [0x00, 0x01, 0x00, 0x00, 0x00, 0x07];
    let (event_type, event_data) = parse_user_control(&payload).expect("parse UCM");
    assert_eq!(event_type, USR_STREAM_EOF);
    assert_eq!(ucm_stream_id(event_data).expect("sid"), 7);
}

#[test]
fn parse_user_control_rejects_truncated_payload() {
    assert!(parse_user_control(&[0x00]).is_err());
    assert!(parse_user_control(&[]).is_err());
    let (event_type, event_data) = parse_user_control(&[0x00, 0x01]).expect("parse UCM");
    assert_eq!(event_type, USR_STREAM_EOF);
    assert!(ucm_stream_id(event_data).is_err());
}

#[test]
fn classify_command_recognises_on_status() {
    let info = Amf0Value::Object(vec![
        ("level".into(), Amf0Value::String("status".into())),
        (
            "code".into(),
            Amf0Value::String("NetStream.Publish.Start".into()),
        ),
        ("description".into(), Amf0Value::String("ready".into())),
    ]);
    let values = vec![
        Amf0Value::String("onStatus".into()),
        Amf0Value::Number(num(0.0)),
        Amf0Value::Null,
        info,
    ];
    match classify_command(values, None) {
        ClientEvent::OnStatus {
            level,
            code,
            description,
        } => {
            assert_eq!(level, "status");
            assert_eq!(code, "NetStream.Publish.Start");
            assert_eq!(description, "ready");
        }
        other => panic!("expected OnStatus, got {other:?}"),
    }
}

#[test]
fn classify_command_recognises_reconnect_request() {
    let values = decode_all(&reconnect_request(Some("//192.0.2.0/realtimeapp"), Some("server update"))).unwrap();
    match classify_command(values, None) {
        ClientEvent::ReconnectRequest {
            tc_url,
            description,
        } => {
            assert_eq!(tc_url.as_deref(), Some("//192.0.2.0/realtimeapp"));
            assert_eq!(description, "server update");
        }
        other => panic!("expected ReconnectRequest, got {other:?}"),
    }

    let values = decode_all(&reconnect_request(None, None)).unwrap();
    match classify_command(values, None) {
        ClientEvent::ReconnectRequest { tc_url, .. } => assert_eq!(tc_url, None),
        other => panic!("expected ReconnectRequest, got {other:?}"),
    }

    let info = Amf0Value::Object(vec![
        ("level".into(), Amf0Value::String("error".into())),
        (
            "code".into(),
            Amf0Value::String(RECONNECT_REQUEST_CODE.into()),
        ),
    ]);
    let values = vec![
        Amf0Value::String("onStatus".into()),
        Amf0Value::Number(num(0.0)),
        Amf0Value::Null,
        info,
    ];
    match classify_command(values, None) {
        ClientEvent::OnStatus { level, code, .. } => {
            assert_eq!(level, "error");
            assert_eq!(code, RECONNECT_REQUEST_CODE);
        }
        other => panic!("expected OnStatus, got {other:?}"),
    }
}

#[test]
fn resolve_tc_url_spec_example_shapes() {
    let base = "rtmp://origin.example.com:1935/live";
    assert_eq!(
        resolve_tc_url(base, "rtmp://foo.mydomain.com:1935/realtimeapp"),
        "rtmp://foo.mydomain.com:1935/realtimeapp"
    );
    assert_eq!(
        resolve_tc_url(base, "//192.0.2.0/realtimeapp"),
        "rtmp://192.0.2.0/realtimeapp"
    );
    assert_eq!(
        resolve_tc_url(base, "/realtimeapp"),
        "rtmp://origin.example.com:1935/realtimeapp"
    );
    assert_eq!(
        resolve_tc_url(base, "realtimeapp"),
        "rtmp://origin.example.com:1935/realtimeapp"
    );
    assert_eq!(
        resolve_tc_url("rtmp://h/app/inst", "other"),
        "rtmp://h/app/other"
    );
    assert_eq!(resolve_tc_url(base, ""), base);
    assert_eq!(
        resolve_tc_url("rtmp://h:1935", "realtimeapp"),
        "rtmp://h:1935/realtimeapp"
    );
}

#[test]
fn classify_command_recognises_result_and_error() {
    let result = classify_command(
        vec![
        Amf0Value::String("_result".into()),
        Amf0Value::Number(num(42.0)),
        Amf0Value::Null,
        Amf0Value::Number(num(7.0)),
        ],
        None,
    );
    match result {
        ClientEvent::Result {
            transaction_id,
            values,
        } => {
            assert_eq!(transaction_id, num(42.0));
            assert_eq!(values.len(), 4);
        }
        other => panic!("expected Result, got {other:?}"),
    }

    let err = classify_command(
        vec![
        Amf0Value::String("_error".into()),
        Amf0Value::Number(num(99.0)),
        Amf0Value::Null,
        Amf0Value::Null,
        ],
        None,
    );
    match err {
        ClientEvent::ErrorReply { transaction_id, .. } => {
            assert_eq!(transaction_id, num(99.0));
        }
        other => panic!("expected ErrorReply, got {other:?}"),
    }
}
