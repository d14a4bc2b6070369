//! How a publishing client gets its stream.

use oxideav_rtmp::amf::{Amf0Value, decode_all, encode_command};
use oxideav_rtmp::caps::{CAPS_EX_RECONNECT, ConnectCapabilities};
use oxideav_rtmp::chunk::{ChunkReader, ChunkWriter, Message};
use oxideav_rtmp::client::setup::create_stream_id;
use oxideav_rtmp::client::{Connecting, RtmpUrl, SetupStep};
use oxideav_rtmp::error::Error;
use oxideav_rtmp::message::{
    MSG_COMMAND_AMF0, MSG_SET_CHUNK_SIZE, MSG_SET_PEER_BANDWIDTH, MSG_USER_CONTROL, MSG_VIDEO,
    MSG_WINDOW_ACK_SIZE,
};
use oxideav_rtmp::number::Double;

fn num(x: f64) -> Double {
    Double::from_bits(x.to_bits())
}

fn text(s: &str) -> Amf0Value {
    Amf0Value::String(s.to_string())
}

fn starting(caps: &ConnectCapabilities) -> Connecting {
    let url = RtmpUrl::parse("rtmp://host/live/key").expect("url");
    Connecting::start(&url, "live", vec![("app".to_string(), text("live"))], caps)
}

fn command(name: &str, tx: f64, args: &[Amf0Value]) -> Message {
    Message {
        msg_type_id: MSG_COMMAND_AMF0,
        msg_stream_id: 0,
        timestamp: 0,
        payload: encode_command(name, num(tx), Amf0Value::Null, args),
    }
}

fn control(msg_type_id: u8, payload: Vec<u8>) -> Message {
    Message { msg_type_id, msg_stream_id: 0, timestamp: 0, payload }
}

/// A server: what it puts on the wire, and what it hears.
struct Server {
    out: ChunkWriter,
    heard: ChunkReader,
}

impl Server {
    fn new() -> Server {
        let mut heard = ChunkReader::new(Vec::new());
        heard.set_chunk_size(4096);
        Server { out: ChunkWriter::new(Vec::new()), heard }
    }

    fn hear(&mut self, bytes: Vec<u8>) -> Vec<Message> {
        self.heard.inner_mut().extend_from_slice(&bytes);
        let mut all = Vec::new();
        while let Ok(m) = self.heard.read_message() {
            all.push(m);
        }
        all
    }

    fn say(&mut self, m: &Message) -> Vec<u8> {
        self.out.write_message(3, m).expect("write");
        std::mem::take(self.out.inner_mut())
    }
}

fn names(messages: &[Message]) -> Vec<String> {
    messages
        .iter()
        .map(|m| {
            decode_all(&m.payload).expect("amf")[0].as_str().expect("name").to_string()
        })
        .collect()
}

#[test]
fn a_setup_runs_through() {
    let mut caps = ConnectCapabilities::new();
    caps.caps_ex = CAPS_EX_RECONNECT;
    let mut setup = starting(&caps);
    let mut server = Server::new();

    let opening = server.hear(setup.take_output());
    assert_eq!(opening.len(), 2);
    assert_eq!(opening[0].msg_type_id, MSG_SET_CHUNK_SIZE);
    assert_eq!(opening[0].payload, vec![0, 0, 16, 0]);
    let connect = decode_all(&opening[1].payload).expect("amf");
    assert_eq!(connect[0], text("connect"));
    assert_eq!(connect[1], Amf0Value::Number(num(1.0)));
    assert_eq!(connect[2].get("app"), Some(&text("live")));
    assert_eq!(connect[2].get("capsEx"), Some(&Amf0Value::Number(num(1.0))));
    assert!(matches!(setup.advance(), Ok(SetupStep::NeedInput)));

    setup.receive(&server.say(&control(MSG_WINDOW_ACK_SIZE, vec![0, 0x26, 0x25, 0xA0])));
    setup.receive(&server.say(&control(MSG_SET_PEER_BANDWIDTH, vec![0, 0x26, 0x25, 0xA0, 2])));
    setup.receive(&server.say(&command("onBWDone", 0.0, &[])));
    setup.receive(&server.say(&command("_result", 9.0, &[])));
    assert!(matches!(setup.advance(), Ok(SetupStep::NeedInput)));
    assert!(setup.take_output().is_empty());

    let info = Amf0Value::Object(vec![("capsEx".to_string(), Amf0Value::Number(num(3.0)))]);
    setup.receive(&server.say(&command("_result", 1.0, &[info])));
    assert!(matches!(setup.advance(), Ok(SetupStep::NeedInput)));
    let asked = server.hear(setup.take_output());
    assert_eq!(names(&asked), vec!["releaseStream", "FCPublish", "createStream"]);
    assert_eq!(decode_all(&asked[0].payload).expect("amf")[3], text("key"));
    assert!(!setup.stop_waiting());

    setup.receive(&server.say(&command("_result", 4.0, &[Amf0Value::Number(num(5.0))])));
    assert!(matches!(setup.advance(), Ok(SetupStep::NeedInput)));
    let publish = server.hear(setup.take_output());
    assert_eq!(publish.len(), 1);
    assert_eq!(publish[0].msg_stream_id, 5);
    assert_eq!(
        decode_all(&publish[0].payload).expect("amf"),
        vec![
            text("publish"),
            Amf0Value::Number(num(5.0)),
            Amf0Value::Null,
            text("key"),
            text("live"),
        ]
    );

    setup.receive(&server.say(&command("onStatus", 0.0, &[])));
    assert!(matches!(setup.advance(), Ok(SetupStep::Ready)));
    assert!(matches!(setup.advance(), Ok(SetupStep::Ready)));
    let client = setup.into_client().expect("client");
    assert_eq!(client.tc_url(), "rtmp://host/live");
    assert_eq!(client.server_capabilities().caps_ex, 3);
}

#[test]
fn an_error_refuses_the_setup() {
    let mut setup = starting(&ConnectCapabilities::new());
    let mut server = Server::new();
    setup.receive(&server.say(&command("_error", 1.0, &[text("no")])));
    match setup.advance() {
        Ok(SetupStep::Refused(Some(v))) => assert_eq!(v, text("no")),
        other => panic!("{other:?}"),
    }
    let mut bare = starting(&ConnectCapabilities::new());
    bare.receive(&Server::new().say(&command("_error", 77.0, &[])));
    assert!(matches!(bare.advance(), Ok(SetupStep::Refused(None))));
    assert!(bare.into_client().is_none());
}

#[test]
fn a_broken_message_ends_the_setup() {
    let mut setup = starting(&ConnectCapabilities::new());
    setup.receive(&Server::new().say(&control(MSG_WINDOW_ACK_SIZE, vec![1, 2, 3])));
    match setup.advance() {
        Err(Error::ProtocolViolation(m)) => assert_eq!(m, "need 4 bytes for u32be"),
        other => panic!("{other:?}"),
    }
    let mut amf = starting(&ConnectCapabilities::new());
    amf.receive(&Server::new().say(&control(MSG_COMMAND_AMF0, vec![0xFF])));
    assert!(matches!(amf.advance(), Err(Error::InvalidAmf0(_))));
}

#[test]
fn the_stream_id_is_the_last_number() {
    let values = vec![
        text("_result"),
        Amf0Value::Number(num(4.0)),
        Amf0Value::Number(num(3.0)),
        Amf0Value::Null,
    ];
    assert_eq!(create_stream_id(&values), Ok(3));
    assert_eq!(create_stream_id(&vec![Amf0Value::Number(num(2.9))]), Ok(2));
    assert_eq!(create_stream_id(&vec![Amf0Value::Number(num(-1.0))]), Ok(0));
    assert_eq!(create_stream_id(&vec![Amf0Value::Number(num(f64::NAN))]), Ok(0));
    assert_eq!(create_stream_id(&vec![Amf0Value::Number(num(1e12))]), Ok(u32::MAX));
    match create_stream_id(&vec![text("_result")]) {
        Err(Error::InvalidCommand(m)) => assert_eq!(m, "createStream result has no stream id"),
        other => panic!("{other:?}"),
    }
}

fn publishing(server: &mut Server) -> Connecting {
    let mut setup = starting(&ConnectCapabilities::new());
    setup.receive(&server.say(&command("_result", 1.0, &[])));
    setup.receive(&server.say(&command("_result", 4.0, &[Amf0Value::Number(num(1.0))])));
    assert!(matches!(setup.advance(), Ok(SetupStep::NeedInput)));
    setup
}

#[test]
fn a_user_control_message_begins_the_stream() {
    let mut server = Server::new();
    let mut setup = publishing(&mut server);
    setup.receive(&server.say(&control(MSG_USER_CONTROL, vec![0, 0, 0, 0, 0, 1])));
    assert!(matches!(setup.advance(), Ok(SetupStep::Ready)));
}

#[test]
fn a_silent_server_is_waited_for_a_while() {
    let mut server = Server::new();
    let mut setup = publishing(&mut server);
    for _ in 0..19 {
        setup.receive(&server.say(&control(MSG_VIDEO, vec![1])));
        assert!(matches!(setup.advance(), Ok(SetupStep::NeedInput)));
    }
    setup.receive(&server.say(&control(MSG_VIDEO, vec![1])));
    assert!(matches!(setup.advance(), Ok(SetupStep::Ready)));

    let mut again = Server::new();
    let mut impatient = publishing(&mut again);
    assert!(impatient.stop_waiting());
    assert!(matches!(impatient.advance(), Ok(SetupStep::Ready)));
    assert!(impatient.into_client().is_some());
}
