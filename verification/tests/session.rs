//! A publishing client that is connected, on bytes in memory.

use oxideav_rtmp::aggregate::{build_aggregate, parse_aggregate};
use oxideav_rtmp::amf::{Amf0Value, decode_all, encode_command};
use oxideav_rtmp::amf3::{Amf3Value, decode_data_message};
use oxideav_rtmp::caps::ConnectCapabilities;
use oxideav_rtmp::chunk::{ChunkReader, ChunkWriter, Message};
use oxideav_rtmp::client::{ClientEvent, ClientStep, RtmpClient};
use oxideav_rtmp::error::Error;
use oxideav_rtmp::flv::{
    AAC_PACKET_TYPE_RAW, AAC_PACKET_TYPE_SEQUENCE_HEADER, AUDIO_FORMAT_AAC, AVC_PACKET_TYPE_NALU,
    AVC_PACKET_TYPE_SEQUENCE_HEADER, VIDEO_CODEC_AVC, VIDEO_FRAME_INTER, VIDEO_FRAME_KEYFRAME,
    parse_audio, parse_video,
};
use oxideav_rtmp::message::{
    MSG_ACK, MSG_AGGREGATE, MSG_AUDIO, MSG_COMMAND_AMF0, MSG_COMMAND_AMF3, MSG_DATA_AMF0,
    MSG_DATA_AMF3, MSG_SET_CHUNK_SIZE, MSG_SET_PEER_BANDWIDTH, MSG_SHARED_OBJECT_AMF0,
    MSG_USER_CONTROL, MSG_VIDEO, MSG_WINDOW_ACK_SIZE, RECONNECT_REQUEST_CODE,
};
use oxideav_rtmp::number::Double;

const STREAM_ID: u32 = 7;

fn num(x: f64) -> Double {
    Double::from_bits(x.to_bits())
}

fn client() -> RtmpClient {
    RtmpClient::new(
        ChunkReader::new(Vec::new()),
        ChunkWriter::new(Vec::new()),
        STREAM_ID,
        ConnectCapabilities::new(),
        "rtmp://host:1935/live".to_string(),
    )
}

fn message(msg_type_id: u8, payload: Vec<u8>) -> Message {
    Message { msg_type_id, msg_stream_id: 0, timestamp: 0, payload }
}

fn wire(messages: &[Message]) -> Vec<u8> {
    let mut w = ChunkWriter::new(Vec::new());
    for m in messages {
        w.write_message(3, m).expect("write");
    }
    w.inner_mut().clone()
}

fn user_control(event: u16, data: &[u8]) -> Message {
    let mut payload = event.to_be_bytes().to_vec();
    payload.extend_from_slice(data);
    message(MSG_USER_CONTROL, payload)
}

fn sent(c: &mut RtmpClient) -> Vec<Message> {
    let mut r = ChunkReader::new(c.take_output());
    let mut all = Vec::new();
    while let Ok(m) = r.read_message() {
        all.push(m);
    }
    all
}

fn event(c: &mut RtmpClient) -> ClientEvent {
    match c.poll_event().expect("poll") {
        Some(ClientStep::Event(e)) => e,
        other => panic!("no event: {other:?}"),
    }
}

#[test]
fn user_control_events_are_told() {
    let mut c = client();
    let id = [0, 0, 0, 9];
    c.receive(&wire(&[
        user_control(0, &id),
        user_control(1, &id),
        user_control(2, &id),
        user_control(4, &id),
        user_control(7, &[0, 0, 1, 0]),
        user_control(31, &[]),
    ]));
    assert!(matches!(event(&mut c), ClientEvent::StreamBegin { stream_id: 9 }));
    assert!(matches!(event(&mut c), ClientEvent::StreamEof { stream_id: 9 }));
    assert!(matches!(event(&mut c), ClientEvent::StreamDry { stream_id: 9 }));
    assert!(matches!(event(&mut c), ClientEvent::StreamIsRecorded { stream_id: 9 }));
    assert!(matches!(event(&mut c), ClientEvent::PingResponse { timestamp_ms: 256 }));
    assert!(matches!(event(&mut c), ClientEvent::Other));
    assert!(matches!(c.poll_event(), Ok(Some(ClientStep::NeedInput))));
}

#[test]
fn short_user_control_data_is_refused() {
    let cases: [(u16, &[u8], &str); 4] = [
        (0, &[0, 0, 1], "UserControl: event data < 4 bytes (need stream id)"),
        (3, &[0; 7], "UserControl SetBufferLength: event data < 8 bytes"),
        (7, &[0, 0, 0], "UserControl PingResponse: event data < 4 bytes"),
        (1, &[], "UserControl: event data < 4 bytes (need stream id)"),
    ];
    for (kind, data, text) in cases {
        let mut c = client();
        c.receive(&wire(&[user_control(kind, data)]));
        match c.poll_event() {
            Err(Error::ProtocolViolation(m)) => assert_eq!(m, text),
            other => panic!("{other:?}"),
        }
    }
    let mut c = client();
    c.receive(&wire(&[message(MSG_USER_CONTROL, vec![0])]));
    assert!(matches!(c.poll_event(), Err(Error::ProtocolViolation(_))));
    let mut full = client();
    full.receive(&wire(&[user_control(3, &[0; 8])]));
    assert!(matches!(event(&mut full), ClientEvent::Other));
}

#[test]
fn ping_is_answered_with_its_time() {
    let mut c = client();
    c.receive(&wire(&[user_control(6, &[1, 2, 3, 4, 5])]));
    assert!(matches!(event(&mut c), ClientEvent::Other));
    let out = sent(&mut c);
    assert_eq!(out.len(), 1);
    assert_eq!(out[0].msg_type_id, MSG_USER_CONTROL);
    assert_eq!(out[0].msg_stream_id, 0);
    assert_eq!(out[0].payload, vec![0, 7, 1, 2, 3, 4]);
    c.receive(&wire(&[user_control(6, &[1, 2, 3])]));
    assert!(matches!(event(&mut c), ClientEvent::Other));
    assert!(c.take_output().is_empty());
}

#[test]
fn ping_request_carries_the_time() {
    let mut c = client();
    c.send_ping_request(0x0102_0304).expect("send");
    let out = sent(&mut c);
    assert_eq!(out[0].payload, vec![0, 6, 1, 2, 3, 4]);
}

#[test]
fn shared_objects_go_out_on_no_stream() {
    let mut c = client();
    c.send_shared_object(&[0, 1, b'x']).expect("send");
    let bytes = c.take_output();
    assert_eq!(bytes[0], 3);
    let out = ChunkReader::new(bytes).read_message().expect("message");
    assert_eq!(out, message(MSG_SHARED_OBJECT_AMF0, vec![0, 1, b'x']));
}

#[test]
fn control_messages_change_the_reader() {
    let mut c = client();
    let mut w = ChunkWriter::new(Vec::new());
    w.write_message(2, &message(MSG_SET_CHUNK_SIZE, vec![0x80, 0, 1, 0])).expect("write");
    w.set_chunk_size(256);
    w.write_message(3, &message(MSG_VIDEO, vec![5; 200])).expect("write");
    c.receive(w.inner_mut());
    assert!(matches!(event(&mut c), ClientEvent::Other));
    assert!(matches!(event(&mut c), ClientEvent::Other));
    assert!(matches!(c.poll_event(), Ok(Some(ClientStep::NeedInput))));
}

#[test]
fn acknowledgements_follow_the_window() {
    let mut c = client();
    c.receive(&wire(&[
        message(MSG_WINDOW_ACK_SIZE, vec![0, 0, 0, 40]),
        message(MSG_ACK, vec![0; 4]),
    ]));
    assert!(matches!(event(&mut c), ClientEvent::Other));
    assert!(matches!(event(&mut c), ClientEvent::Other));
    assert!(c.take_output().is_empty());
    let mut more = ChunkWriter::new(Vec::new());
    more.write_message(9, &message(MSG_ACK, vec![0; 60])).expect("write");
    let bytes = more.inner_mut().clone();
    c.receive(&bytes);
    assert!(matches!(event(&mut c), ClientEvent::Other));
    let out = sent(&mut c);
    assert_eq!(out.len(), 1);
    assert_eq!(out[0].msg_type_id, MSG_ACK);
    let first = wire(&[
        message(MSG_WINDOW_ACK_SIZE, vec![0, 0, 0, 40]),
        message(MSG_ACK, vec![0; 4]),
    ]);
    assert_eq!(out[0].payload, ((first.len() + bytes.len()) as u32).to_be_bytes().to_vec());
}

#[test]
fn a_limited_bandwidth_is_handed_on_and_adopted() {
    let mut c = client();
    c.receive(&wire(&[message(MSG_SET_PEER_BANDWIDTH, vec![0, 0, 4, 0, 2])]));
    match c.poll_event() {
        Ok(Some(ClientStep::PeerBandwidth { payload, queued })) => {
            assert_eq!(payload, vec![0, 0, 4, 0, 2]);
            assert!(!queued);
        }
        other => panic!("{other:?}"),
    }
    c.adopt_window(1024).expect("adopt");
    let out = sent(&mut c);
    assert_eq!(out[0].msg_type_id, MSG_WINDOW_ACK_SIZE);
    assert_eq!(out[0].payload, vec![0, 0, 4, 0]);
}

#[test]
fn commands_are_sorted_out() {
    let mut c = client();
    let reconnect = Amf0Value::Object(vec![
        ("level".to_string(), Amf0Value::String("status".to_string())),
        ("code".to_string(), Amf0Value::String(RECONNECT_REQUEST_CODE.to_string())),
        ("tcUrl".to_string(), Amf0Value::String("/other".to_string())),
    ]);
    let warned = Amf0Value::Object(vec![
        ("level".to_string(), Amf0Value::String("warning".to_string())),
        ("code".to_string(), Amf0Value::String(RECONNECT_REQUEST_CODE.to_string())),
    ]);
    c.receive(&wire(&[
        message(
            MSG_COMMAND_AMF0,
            encode_command("onStatus", num(0.0), Amf0Value::Null, &[reconnect]),
        ),
        message(MSG_COMMAND_AMF0, encode_command("onStatus", num(0.0), Amf0Value::Null, &[warned])),
        message(MSG_COMMAND_AMF0, encode_command("onStatus", num(0.0), Amf0Value::Null, &[])),
        message(
            MSG_COMMAND_AMF0,
            encode_command("_result", num(10.0), Amf0Value::Null, &[Amf0Value::Boolean(true)]),
        ),
        message(MSG_COMMAND_AMF0, encode_command("_error", num(11.0), Amf0Value::Null, &[])),
        message(MSG_COMMAND_AMF0, encode_command("sum", num(0.0), Amf0Value::Null, &[])),
        message(MSG_COMMAND_AMF3, vec![1, 2]),
        message(MSG_SHARED_OBJECT_AMF0, vec![9]),
    ]));
    match event(&mut c) {
        ClientEvent::ReconnectRequest { tc_url, description } => {
            assert_eq!(tc_url.as_deref(), Some("/other"));
            assert_eq!(description, "");
            assert_eq!(c.resolve_reconnect_url(tc_url.as_deref()), "rtmp://host:1935/other");
        }
        other => panic!("{other:?}"),
    }
    match event(&mut c) {
        ClientEvent::OnStatus { level, code, description } => {
            assert_eq!(level, "warning");
            assert_eq!(code, RECONNECT_REQUEST_CODE);
            assert_eq!(description, "");
        }
        other => panic!("{other:?}"),
    }
    assert!(matches!(event(&mut c), ClientEvent::Other));
    match event(&mut c) {
        ClientEvent::Result { transaction_id, values } => {
            assert_eq!(transaction_id, num(10.0));
            assert_eq!(values.len(), 4);
            assert_eq!(values[3], Amf0Value::Boolean(true));
        }
        other => panic!("{other:?}"),
    }
    match event(&mut c) {
        ClientEvent::ErrorReply { transaction_id, values } => {
            assert_eq!(transaction_id, num(11.0));
            assert_eq!(values.len(), 3);
        }
        other => panic!("{other:?}"),
    }
    match c.poll_event() {
        Ok(Some(ClientStep::Command { values, queued })) => {
            assert_eq!(values[0].as_str(), Some("sum"));
            assert!(!queued);
        }
        other => panic!("{other:?}"),
    }
    match c.poll_event() {
        Ok(Some(ClientStep::CommandAmf3 { payload, queued })) => {
            assert_eq!(payload, vec![1, 2]);
            assert!(!queued);
        }
        other => panic!("{other:?}"),
    }
    match c.poll_event() {
        Ok(Some(ClientStep::SharedObject(m))) => assert_eq!(m.payload, vec![9]),
        other => panic!("{other:?}"),
    }
    assert_eq!(c.resolve_reconnect_url(None), c.tc_url());
    assert!(c.server_capabilities().is_empty());
}

#[test]
fn aggregates_are_taken_apart_however_deep() {
    let inner = build_aggregate(
        1,
        &[user_control(1, &[0, 0, 0, 3]), message(MSG_AUDIO, vec![1])],
    )
    .expect("inner");
    let outer = build_aggregate(
        1,
        &[message(MSG_VIDEO, vec![2]), inner, user_control(2, &[0, 0, 0, 4])],
    )
    .expect("outer");
    let mut c = client();
    c.receive(&wire(&[outer]));
    assert!(matches!(event(&mut c), ClientEvent::StreamDry { stream_id: 4 }));
    assert!(matches!(event(&mut c), ClientEvent::StreamEof { stream_id: 3 }));
    assert!(matches!(c.poll_event(), Ok(Some(ClientStep::NeedInput))));
}

#[test]
fn the_end_is_told_once_all_is_read_and_stays() {
    let mut c = client();
    let bytes = wire(&[user_control(1, &[0, 0, 0, 3])]);
    c.receive(&bytes[..4]);
    assert!(matches!(c.poll_event(), Ok(Some(ClientStep::NeedInput))));
    c.receive(&bytes[4..]);
    c.end_of_input();
    assert!(matches!(event(&mut c), ClientEvent::StreamEof { stream_id: 3 }));
    assert!(matches!(c.poll_event(), Ok(None)));
    c.receive(&bytes);
    assert!(matches!(c.poll_event(), Ok(None)));
}

#[test]
fn polling_only_adds_output() {
    let mut c = client();
    c.send_ping_request(1).expect("send");
    let mut twin = client();
    twin.send_ping_request(1).expect("send");
    let before = twin.take_output();
    c.receive(&wire(&[user_control(6, &[0, 0, 0, 2])]));
    assert!(matches!(event(&mut c), ClientEvent::Other));
    let after = c.take_output();
    assert!(after.len() > before.len());
    assert_eq!(&after[..before.len()], before.as_slice());
}

#[test]
fn media_goes_out_as_tags() {
    let mut c = client();
    c.send_video_sequence_header(&[1, 100]).expect("send");
    c.send_audio_sequence_header(&[0x12, 0x10]).expect("send");
    c.send_video(40, true, &[0, 0, 0, 1, 0x65]).expect("send");
    c.send_video(80, false, &[0, 0, 0, 1, 0x41]).expect("send");
    c.send_audio(90, &[0x21]).expect("send");
    let out = sent(&mut c);
    let kinds: Vec<(u8, u32, u32)> =
        out.iter().map(|m| (m.msg_type_id, m.msg_stream_id, m.timestamp)).collect();
    assert_eq!(
        kinds,
        vec![
            (MSG_VIDEO, STREAM_ID, 0),
            (MSG_AUDIO, STREAM_ID, 0),
            (MSG_VIDEO, STREAM_ID, 40),
            (MSG_VIDEO, STREAM_ID, 80),
            (MSG_AUDIO, STREAM_ID, 90),
        ]
    );
    let header = parse_video(&out[0].payload).expect("tag");
    assert_eq!(header.codec_id, VIDEO_CODEC_AVC);
    assert_eq!(header.frame_type, VIDEO_FRAME_KEYFRAME);
    assert_eq!(header.avc_packet_type, Some(AVC_PACKET_TYPE_SEQUENCE_HEADER));
    assert_eq!(header.body, vec![1, 100]);
    let config = parse_audio(&out[1].payload).expect("tag");
    assert_eq!(config.sound_format, AUDIO_FORMAT_AAC);
    assert_eq!(config.sound_rate, 3);
    assert!(config.sound_size_16bit && config.stereo);
    assert_eq!(config.aac_packet_type, Some(AAC_PACKET_TYPE_SEQUENCE_HEADER));
    let inter = parse_video(&out[3].payload).expect("tag");
    assert_eq!(inter.frame_type, VIDEO_FRAME_INTER);
    assert_eq!(inter.avc_packet_type, Some(AVC_PACKET_TYPE_NALU));
    assert_eq!(inter.composition_time, 0);
    let frame = parse_audio(&out[4].payload).expect("tag");
    assert_eq!(frame.aac_packet_type, Some(AAC_PACKET_TYPE_RAW));
    assert_eq!(frame.body, vec![0x21]);
}

#[test]
fn data_frames_are_set_and_cleared() {
    let mut c = client();
    let info = Amf0Value::EcmaArray(vec![("width".to_string(), Amf0Value::Number(num(640.0)))]);
    c.send_metadata(info.clone()).expect("send");
    c.send_data_frame("onCuePoint", Amf0Value::Null).expect("send");
    c.clear_data_frame("onCuePoint").expect("send");
    c.clear_metadata().expect("send");
    let out = sent(&mut c);
    assert!(out.iter().all(|m| m.msg_type_id == MSG_DATA_AMF0 && m.msg_stream_id == STREAM_ID));
    let text = |s: &str| Amf0Value::String(s.to_string());
    assert_eq!(
        decode_all(&out[0].payload).expect("amf"),
        vec![text("@setDataFrame"), text("onMetaData"), info]
    );
    assert_eq!(
        decode_all(&out[1].payload).expect("amf"),
        vec![text("@setDataFrame"), text("onCuePoint"), Amf0Value::Null]
    );
    assert_eq!(
        decode_all(&out[2].payload).expect("amf"),
        vec![text("@clearDataFrame"), text("onCuePoint")]
    );
    assert_eq!(
        decode_all(&out[3].payload).expect("amf"),
        vec![text("@clearDataFrame"), text("onMetaData")]
    );
}

#[test]
fn amf3_metadata_has_selector_and_markers() {
    let mut c = client();
    c.send_metadata_amf3(Amf3Value::Boolean(true)).expect("send");
    let out = sent(&mut c);
    assert_eq!(out[0].msg_type_id, MSG_DATA_AMF3);
    assert_eq!(out[0].payload[0], 0);
    assert_eq!(out[0].payload[1], 0x11);
    let values = decode_data_message(&out[0].payload[1..]).expect("amf3");
    assert_eq!(values, vec![Amf3Value::String("onMetaData".to_string()), Amf3Value::Boolean(true)]);
}

#[test]
fn amf3_metadata_reads_as_amf0() {
    let mut c = client();
    let metadata = Amf3Value::Array {
        dense: vec![Amf3Value::Integer(7)],
        assoc: vec![("width".to_string(), Amf3Value::Double(num(1280.5)))],
    };
    c.send_metadata_amf3(metadata.clone()).expect("send");
    let payload = sent(&mut c)[0].payload.clone();
    assert_eq!(payload[0], 0);
    let show = |_: Double| String::new();
    assert_eq!(
        decode_all(&payload[1..]).expect("decode"),
        vec![Amf0Value::String("onMetaData".to_string()), metadata.to_amf0(&show)]
    );
}

#[test]
fn an_aggregate_goes_out_on_the_clients_stream() {
    let mut c = client();
    c.send_aggregate(&[]).expect("nothing");
    assert!(c.take_output().is_empty());
    let mut late = message(MSG_AUDIO, vec![3]);
    late.timestamp = 60;
    let mut first = message(MSG_VIDEO, vec![4, 5]);
    first.timestamp = 20;
    c.send_aggregate(&[first, late]).expect("send");
    let out = sent(&mut c);
    assert_eq!(out[0].msg_type_id, MSG_AGGREGATE);
    assert_eq!(out[0].timestamp, 20);
    let parts = parse_aggregate(&out[0]).expect("parts");
    assert_eq!(parts.len(), 2);
    assert!(parts.iter().all(|m| m.msg_stream_id == STREAM_ID));
    assert_eq!(parts[1].timestamp, 60);
    assert_eq!(parts[1].payload, vec![3]);
}

#[test]
fn calls_count_transactions_up() {
    let mut c = client();
    let args = vec![Amf0Value::Number(num(2.0))];
    assert_eq!(c.call("f", Amf0Value::Null, &args, true).expect("call"), num(10.0));
    assert_eq!(c.call("g", Amf0Value::Null, &[], false).expect("call"), num(0.0));
    assert_eq!(c.call("h", Amf0Value::Null, &[], true).expect("call"), num(11.0));
    c.reply_call_result(num(5.0), Amf0Value::Null, Amf0Value::Boolean(true)).expect("reply");
    c.reply_call_error(num(6.0), Amf0Value::Null, Amf0Value::Undefined).expect("reply");
    c.close().expect("close");
    let out = sent(&mut c);
    let values: Vec<Vec<Amf0Value>> =
        out.iter().map(|m| decode_all(&m.payload).expect("amf")).collect();
    let text = |s: &str| Amf0Value::String(s.to_string());
    assert_eq!(
        values[0],
        vec![text("f"), Amf0Value::Number(num(10.0)), Amf0Value::Null, args[0].clone()]
    );
    assert_eq!(values[1], vec![text("g"), Amf0Value::Number(num(0.0)), Amf0Value::Null]);
    assert_eq!(
        values[3],
        vec![
            text("_result"),
            Amf0Value::Number(num(5.0)),
            Amf0Value::Null,
            Amf0Value::Boolean(true),
        ]
    );
    assert_eq!(values[4][0], text("_error"));
    assert_eq!(
        values[5],
        vec![
            text("closeStream"),
            Amf0Value::Number(num(12.0)),
            Amf0Value::Null,
            Amf0Value::Number(num(7.0)),
        ]
    );
    assert_eq!(out[5].msg_stream_id, STREAM_ID);
}
