//! How a publishing client gets connected.
//!
//! After the handshake the client sets its chunk size, sends `connect` and waits for
//! the result; then it sends `releaseStream`, `FCPublish` and `createStream` and
//! waits for the stream id; then it sends `publish` and waits for a sign that the
//! stream has begun.

use vstd::prelude::*;
use crate::amf::{decode_all, Amf0Value};
#[allow(unused_imports)]
use crate::amf::{pair_views, values_of, Amf0};
#[allow(unused_imports)]
use crate::amf_fields::present;
use crate::caps::ConnectCapabilities;
#[allow(unused_imports)]
use crate::caps::CapsView;
use crate::chunk::{ChunkReader, ChunkWriter, Message};
#[allow(unused_imports)]
use crate::chunk::{
    clamped, read_from, with_window, MessageView, ReaderView, WriterView, DEFAULT_CHUNK_SIZE,
};
#[allow(unused_imports)]
use crate::chunk_laws::law_reading_takes_bytes;
use crate::client::event::{extract_server_caps, name_of, read_u32_be};
#[allow(unused_imports)]
use crate::client::event::{caps_among, command_name, u32_at_front};
use crate::client::outgoing::{
    build_connect_with_caps, build_create_stream, build_fc_publish, build_publish,
    build_release_stream, build_set_chunk_size,
};
#[allow(unused_imports)]
use crate::client::outgoing::{command_message, control_message};
use crate::client::session::RtmpClient;
#[allow(unused_imports)]
use crate::client::session::{ClientView, FIRST_TRANSACTION};
use crate::client::url::RtmpUrl;
#[allow(unused_imports)]
use crate::client::url::UrlView;
use crate::error::{Error, Result};
#[allow(unused_imports)]
use crate::error::{outcome, Fault};
use crate::message::{
    CSID_COMMAND, CSID_PROTOCOL_CONTROL, MSG_COMMAND_AMF0, MSG_SET_CHUNK_SIZE,
    MSG_SET_PEER_BANDWIDTH, MSG_USER_CONTROL, MSG_WINDOW_ACK_SIZE,
};
#[allow(unused_imports)]
use crate::model::{opt_view, views};
use crate::number::Double;
#[allow(unused_imports)]
use crate::number::{as_u32, at_least_zero, is_finite, is_whole, nat_bits, whole};
use crate::text::same_text;
use crate::wire::put_bytes;
#[allow(unused_imports)]
use crate::wire::be32_bytes;

verus! {

/// The size of the chunks that the client sends.
pub const CLIENT_CHUNK_SIZE: u32 = 4096;

/// The version of Flash that the client states.
pub const FLASH_VER: &'static str = "FMLE/3.0 (compatible; oxideav-rtmp)";

/// The transaction ids of the setup.
pub const TX_CONNECT: u32 = 1;

pub const TX_RELEASE_STREAM: u32 = 2;

pub const TX_FC_PUBLISH: u32 = 3;

pub const TX_CREATE_STREAM: u32 = 4;

pub const TX_PUBLISH: u32 = 5;

/// How many messages may come before the sign that the stream has begun.
pub const PUBLISH_PATIENCE: u8 = 20;

// ---------------------------------------------------------------------------
// Waiting for a result
// ---------------------------------------------------------------------------

/// Whether a value is the number `n`.
pub open spec fn is_number(v: Amf0, n: u32) -> bool {
    v matches Amf0::Number(bits) && is_finite(bits) && at_least_zero(bits) && is_whole(bits)
        && whole(bits) == n
}

/// What waiting for a result came to.
#[derive(Debug)]
pub enum Awaited {
    /// More bytes have to come.
    NeedInput,
    /// The values of the result.
    Result(Vec<Amf0Value>),
    /// An error came instead, with what it says.
    Refused(Option<Amf0Value>),
}

/// The mathematical view of [`Awaited`].
pub enum AwaitedView {
    NeedInput,
    Result(Seq<Amf0>),
    Refused(Option<Amf0>),
}

impl View for Awaited {
    type V = AwaitedView;

    open spec fn view(&self) -> AwaitedView {
        match *self {
            Awaited::NeedInput => AwaitedView::NeedInput,
            Awaited::Result(v) => AwaitedView::Result(views(v@)),
            Awaited::Refused(v) => AwaitedView::Refused(opt_view(v)),
        }
    }
}

/// What one message means to a client that waits for the result of a command.
pub enum Heard {
    Bad(Fault),
    ChunkSize(u32),
    Window(u32),
    Done(AwaitedView),
    Nothing,
}

/// What one message means to a client that waits for the result of `tx`.
pub open spec fn heard(m: MessageView, tx: u32) -> Heard {
    let t = m.msg_type_id;
    if t == MSG_SET_CHUNK_SIZE {
        match u32_at_front(m.payload) {
            Err(f) => Heard::Bad(f),
            Ok(n) => Heard::ChunkSize((n % 0x8000_0000) as u32),
        }
    } else if t == MSG_WINDOW_ACK_SIZE {
        match u32_at_front(m.payload) {
            Err(f) => Heard::Bad(f),
            Ok(n) => Heard::Window(n),
        }
    } else if t == MSG_SET_PEER_BANDWIDTH {
        match u32_at_front(m.payload) {
            Err(_) => Heard::Nothing,
            Ok(n) => Heard::Window(n),
        }
    } else if t == MSG_COMMAND_AMF0 {
        match values_of(m.payload) {
            Err(f) => Heard::Bad(f),
            Ok(values) => if command_name(values) == "_result"@ && values.len() > 1 && is_number(
                values[1],
                tx,
            ) {
                Heard::Done(AwaitedView::Result(values))
            } else if command_name(values) == "_error"@ {
                Heard::Done(
                    AwaitedView::Refused(
                        if values.len() > 3 {
                            Some(values[3])
                        } else {
                            None
                        },
                    ),
                )
            } else {
                Heard::Nothing
            },
        }
    } else {
        Heard::Nothing
    }
}

/// What waiting for the result of `tx` comes to, and the reader afterwards. Chunk
/// sizes and windows that are set meanwhile are followed.
pub open spec fn awaited(r: ReaderView, tx: u32) -> (
    core::result::Result<AwaitedView, Fault>,
    ReaderView,
)
    decreases r.stream.len(),
    when r.wf()
    via awaiting_ends
{
    let (m, r2) = read_from(r);
    match m {
        Err(Fault::UnexpectedEof) => (Ok(AwaitedView::NeedInput), r2),
        Err(f) => (Err(f), r2),
        Ok(msg) => match heard(msg, tx) {
            Heard::Bad(f) => (Err(f), r2),
            Heard::ChunkSize(n) => awaited(
                ReaderView { chunk_size: clamped(n as usize), ..r2 },
                tx,
            ),
            Heard::Window(n) => awaited(with_window(r2, n), tx),
            Heard::Done(v) => (Ok(v), r2),
            Heard::Nothing => awaited(r2, tx),
        },
    }
}

#[via_fn]
proof fn awaiting_ends(r: ReaderView, tx: u32) {
    law_reading_takes_bytes(r);
}

fn number_is(v: &Amf0Value, n: u32) -> (b: bool)
    ensures
        b == is_number(v@, n),
{
    match v {
        Amf0Value::Number(d) => {
            if !d.finite_at_least_zero() {
                return false;
            }
            let (w, exact) = d.whole_u32();
            exact && w == n
        },
        _ => false,
    }
}

enum Told {
    ChunkSize(u32),
    Window(u32),
    Done(Awaited),
    Nothing,
}

fn listen(msg: &Message, tx: u32) -> (r: Result<Told>)
    ensures
        match r {
            Err(e) => heard(msg@, tx) == Heard::Bad(e@),
            Ok(Told::ChunkSize(n)) => heard(msg@, tx) == Heard::ChunkSize(n),
            Ok(Told::Window(n)) => heard(msg@, tx) == Heard::Window(n),
            Ok(Told::Done(v)) => heard(msg@, tx) == Heard::Done(v@),
            Ok(Told::Nothing) => heard(msg@, tx) == Heard::Nothing,
        },
{
    let t: u8 = msg.msg_type_id;
    if t == MSG_SET_CHUNK_SIZE {
        return match read_u32_be(msg.payload.as_slice()) {
            Err(e) => Err(e),
            Ok(n) => Ok(Told::ChunkSize(n % 0x8000_0000)),
        };
    }
    if t == MSG_WINDOW_ACK_SIZE {
        return match read_u32_be(msg.payload.as_slice()) {
            Err(e) => Err(e),
            Ok(n) => Ok(Told::Window(n)),
        };
    }
    if t == MSG_SET_PEER_BANDWIDTH {
        return match read_u32_be(msg.payload.as_slice()) {
            Err(_) => Ok(Told::Nothing),
            Ok(n) => Ok(Told::Window(n)),
        };
    }
    if t == MSG_COMMAND_AMF0 {
        let values = match decode_all(msg.payload.as_slice()) {
            Err(e) => {
                return Err(e);
            },
            Ok(v) => v,
        };
        let name = name_of(&values);
        if same_text(name.as_str(), "_result") && values.len() > 1 {
            assert(views(values@)[1] == values@[1]@);
            if number_is(&values[1], tx) {
                return Ok(Told::Done(Awaited::Result(values)));
            }
        }
        if same_text(name.as_str(), "_error") {
            if values.len() > 3 {
                assert(views(values@)[3] == values@[3]@);
                return Ok(Told::Done(Awaited::Refused(Some(values[3].clone()))));
            }
            return Ok(Told::Done(Awaited::Refused(None)));
        }
    }
    Ok(Told::Nothing)
}

/// Wait for the result of the command `expected_tx`.
pub(crate) fn wait_for_result(reader: &mut ChunkReader, expected_tx: u32) -> (r: Result<Awaited>)
    requires
        old(reader)@.wf(),
    ensures
        final(reader)@.wf(),
        outcome(r) == awaited(old(reader)@, expected_tx).0,
        final(reader)@ == awaited(old(reader)@, expected_tx).1,
{
    loop
        invariant
            reader@.wf(),
            awaited(reader@, expected_tx) == awaited(old(reader)@, expected_tx),
        decreases reader@.stream.len(),
    {
        proof {
            law_reading_takes_bytes(reader@);
        }
        let msg = match reader.read_message() {
            Ok(m) => m,
            Err(Error::UnexpectedEof) => {
                return Ok(Awaited::NeedInput);
            },
            Err(e) => {
                return Err(e);
            },
        };
        match listen(&msg, expected_tx) {
            Err(e) => {
                return Err(e);
            },
            Ok(Told::ChunkSize(n)) => {
                reader.set_chunk_size(n as usize);
            },
            Ok(Told::Window(n)) => {
                reader.set_window_ack_size(n);
            },
            Ok(Told::Done(v)) => {
                return Ok(v);
            },
            Ok(Told::Nothing) => {},
        }
    }
}

/// The last number among the first `n` values.
pub open spec fn last_number(values: Seq<Amf0>, n: int) -> Option<u64>
    decreases n,
{
    if n <= 0 {
        None
    } else {
        match values[n - 1] {
            Amf0::Number(bits) => Some(bits),
            _ => last_number(values, n - 1),
        }
    }
}

/// The stream id that a result of `createStream` names: its last number.
pub open spec fn created_stream(values: Seq<Amf0>) -> core::result::Result<u32, Fault> {
    match last_number(values, values.len() as int) {
        Some(bits) => Ok(as_u32(bits)),
        None => Err(Fault::InvalidCommand("createStream result has no stream id"@)),
    }
}

/// The stream id that a result of `createStream` names.
pub fn create_stream_id(values: &Vec<Amf0Value>) -> (r: Result<u32>)
    ensures
        match r {
            Ok(id) => created_stream(views(values@)) == Ok::<u32, Fault>(id),
            Err(e) => created_stream(views(values@)) == Err::<u32, Fault>(e@),
        },
{
    let ghost all = views(values@);
    let mut n: usize = values.len();
    while n > 0
        invariant
            all == views(values@),
            n <= values@.len(),
            last_number(all, all.len() as int) == last_number(all, n as int),
        decreases n,
    {
        match &values[n - 1] {
            Amf0Value::Number(d) => {
                return Ok(d.to_u32());
            },
            _ => {},
        }
        n = n - 1;
    }
    Err(Error::InvalidCommand("createStream result has no stream id".to_owned()))
}

/// Whether a message is a sign that the stream has begun: a user control message, a
/// status or a result.
pub open spec fn is_start(m: MessageView) -> core::result::Result<bool, Fault> {
    if m.msg_type_id == MSG_USER_CONTROL {
        Ok(true)
    } else if m.msg_type_id == MSG_COMMAND_AMF0 {
        match values_of(m.payload) {
            Err(f) => Err(f),
            Ok(values) => Ok(
                command_name(values) == "onStatus"@ || command_name(values) == "_result"@,
            ),
        }
    } else {
        Ok(false)
    }
}

/// What waiting for the stream to begin comes to, for at most `left` more messages:
/// how many are left while more bytes have to come, or nothing once it is over; and
/// the reader afterwards.
pub open spec fn begun(r: ReaderView, left: nat) -> (
    core::result::Result<Option<nat>, Fault>,
    ReaderView,
)
    decreases left,
{
    if left == 0 {
        (Ok(None), r)
    } else {
        let (m, r2) = read_from(r);
        match m {
            Err(Fault::UnexpectedEof) => (Ok(Some(left)), r2),
            Err(f) => (Err(f), r2),
            Ok(msg) => match is_start(msg) {
                Err(f) => (Err(f), r2),
                Ok(true) => (Ok(None), r2),
                Ok(false) => begun(r2, (left - 1) as nat),
            },
        }
    }
}

fn starts(msg: &Message) -> (r: Result<bool>)
    ensures
        match r {
            Ok(b) => is_start(msg@) == Ok::<bool, Fault>(b),
            Err(e) => is_start(msg@) == Err::<bool, Fault>(e@),
        },
{
    if msg.msg_type_id == MSG_USER_CONTROL {
        return Ok(true);
    }
    if msg.msg_type_id == MSG_COMMAND_AMF0 {
        return match decode_all(msg.payload.as_slice()) {
            Err(e) => Err(e),
            Ok(values) => {
                let name = name_of(&values);
                Ok(same_text(name.as_str(), "onStatus") || same_text(name.as_str(), "_result"))
            },
        };
    }
    Ok(false)
}

/// Wait for the stream to begin.
fn wait_for_publish_start(reader: &mut ChunkReader, left: u8) -> (r: Result<Option<u8>>)
    requires
        old(reader)@.wf(),
    ensures
        final(reader)@.wf(),
        match r {
            Ok(Some(n)) => begun(old(reader)@, left as nat).0 == Ok::<Option<nat>, Fault>(
                Some(n as nat),
            ),
            Ok(None) => begun(old(reader)@, left as nat).0 == Ok::<Option<nat>, Fault>(None),
            Err(e) => begun(old(reader)@, left as nat).0 == Err::<Option<nat>, Fault>(e@),
        },
        final(reader)@ == begun(old(reader)@, left as nat).1,
{
    let mut n: u8 = left;
    while n > 0
        invariant
            reader@.wf(),
            n <= left,
            begun(reader@, n as nat) == begun(old(reader)@, left as nat),
        decreases n,
    {
        let msg = match reader.read_message() {
            Ok(m) => m,
            Err(Error::UnexpectedEof) => {
                return Ok(Some(n));
            },
            Err(e) => {
                return Err(e);
            },
        };
        match starts(&msg) {
            Err(e) => {
                return Err(e);
            },
            Ok(true) => {
                return Ok(None);
            },
            Ok(false) => {},
        }
        n = n - 1;
    }
    Ok(None)
}

// ---------------------------------------------------------------------------
// The whole setup
// ---------------------------------------------------------------------------

/// How far a setup is.
#[derive(Debug, Clone, Copy)]
pub enum Phase {
    /// Waits for the result of `connect`.
    Connect,
    /// Waits for the result of `createStream`.
    Stream,
    /// Waits for the stream to begin, for so many messages.
    Publish(u8),
    /// The stream is published.
    Ready,
}

/// What a look at a setup came to.
#[derive(Debug)]
pub enum SetupStep {
    /// More bytes have to come.
    NeedInput,
    /// The server refused, with what it says.
    Refused(Option<Amf0Value>),
    Ready,
}

/// The mathematical view of [`SetupStep`].
pub enum SetupStepView {
    NeedInput,
    Refused(Option<Amf0>),
    Ready,
}

impl View for SetupStep {
    type V = SetupStepView;

    open spec fn view(&self) -> SetupStepView {
        match *self {
            SetupStep::NeedInput => SetupStepView::NeedInput,
            SetupStep::Refused(v) => SetupStepView::Refused(opt_view(v)),
            SetupStep::Ready => SetupStepView::Ready,
        }
    }
}

/// The mathematical view of [`Connecting`].
pub struct SetupView {
    pub reader: ReaderView,
    pub writer: WriterView,
    pub url: UrlView,
    pub publish_type: Seq<char>,
    pub phase: Phase,
    pub server_caps: CapsView,
    pub stream_id: u32,
}

/// A transaction id as a number.
pub open spec fn tx_number(tx: u32) -> Double {
    Double { bits: nat_bits(tx as nat) }
}

/// What a setup sends first.
pub open spec fn opening(properties: Seq<(Seq<char>, Amf0)>, caps: CapsView) -> WriterView {
    let fresh = WriterView {
        stream: Seq::empty(),
        chunk_size: DEFAULT_CHUNK_SIZE,
        states: Map::empty(),
    };
    let announced = fresh.after(
        CSID_PROTOCOL_CONTROL,
        control_message(MSG_SET_CHUNK_SIZE, be32_bytes(CLIENT_CHUNK_SIZE)),
    );
    let larger = WriterView { chunk_size: clamped(CLIENT_CHUNK_SIZE as usize), ..announced };
    larger.after(
        CSID_COMMAND,
        command_message(
            0,
            "connect"@,
            tx_number(TX_CONNECT),
            Amf0::Object(properties + present(caps.fields())),
            Seq::empty(),
        ),
    )
}

/// What a setup sends once it is connected.
pub open spec fn asking_for_stream(w: WriterView, stream_name: Seq<char>) -> WriterView {
    let name = seq![Amf0::String(stream_name)];
    w.after(
        CSID_COMMAND,
        command_message(0, "releaseStream"@, tx_number(TX_RELEASE_STREAM), Amf0::Null, name),
    ).after(
        CSID_COMMAND,
        command_message(0, "FCPublish"@, tx_number(TX_FC_PUBLISH), Amf0::Null, name),
    ).after(
        CSID_COMMAND,
        command_message(0, "createStream"@, tx_number(TX_CREATE_STREAM), Amf0::Null, Seq::empty()),
    )
}

/// What a setup sends once it has a stream.
pub open spec fn publishing(
    w: WriterView,
    stream_id: u32,
    stream_name: Seq<char>,
    publish_type: Seq<char>,
) -> WriterView {
    w.after(
        CSID_COMMAND,
        command_message(
            stream_id,
            "publish"@,
            tx_number(TX_PUBLISH),
            Amf0::Null,
            seq![Amf0::String(stream_name), Amf0::String(publish_type)],
        ),
    )
}

/// The phase that waits for the stream to begin.
pub open spec fn publish_phase(s: SetupView, left: u8) -> (
    core::result::Result<SetupStepView, Fault>,
    SetupView,
) {
    let (r, reader) = begun(s.reader, left as nat);
    match r {
        Err(f) => (Err(f), SetupView { reader, ..s }),
        Ok(Some(n)) => (
            Ok(SetupStepView::NeedInput),
            SetupView { reader, phase: Phase::Publish(n as u8), ..s },
        ),
        Ok(None) => (Ok(SetupStepView::Ready), SetupView { reader, phase: Phase::Ready, ..s }),
    }
}

/// The phase that waits for a stream, and those that follow.
pub open spec fn stream_phase(s: SetupView) -> (
    core::result::Result<SetupStepView, Fault>,
    SetupView,
) {
    let (r, reader) = awaited(s.reader, TX_CREATE_STREAM);
    let s1 = SetupView { reader, ..s };
    match r {
        Err(f) => (Err(f), s1),
        Ok(AwaitedView::NeedInput) => (Ok(SetupStepView::NeedInput), s1),
        Ok(AwaitedView::Refused(v)) => (Ok(SetupStepView::Refused(v)), s1),
        Ok(AwaitedView::Result(values)) => match created_stream(values) {
            Err(f) => (Err(f), s1),
            Ok(stream_id) => publish_phase(
                SetupView {
                    stream_id,
                    writer: publishing(
                        s.writer,
                        stream_id,
                        s.url.stream_name,
                        s.publish_type,
                    ),
                    phase: Phase::Publish(PUBLISH_PATIENCE),
                    ..s1
                },
                PUBLISH_PATIENCE,
            ),
        },
    }
}

/// The phase that waits to be connected, and those that follow.
pub open spec fn connect_phase(s: SetupView) -> (
    core::result::Result<SetupStepView, Fault>,
    SetupView,
) {
    let (r, reader) = awaited(s.reader, TX_CONNECT);
    let s1 = SetupView { reader, ..s };
    match r {
        Err(f) => (Err(f), s1),
        Ok(AwaitedView::NeedInput) => (Ok(SetupStepView::NeedInput), s1),
        Ok(AwaitedView::Refused(v)) => (Ok(SetupStepView::Refused(v)), s1),
        Ok(AwaitedView::Result(values)) => stream_phase(
            SetupView {
                server_caps: caps_among(values, 0),
                writer: asking_for_stream(s.writer, s.url.stream_name),
                phase: Phase::Stream,
                ..s1
            },
        ),
    }
}

/// What a look at a setup comes to, and the setup afterwards.
pub open spec fn advanced(s: SetupView) -> (core::result::Result<SetupStepView, Fault>, SetupView) {
    match s.phase {
        Phase::Connect => connect_phase(s),
        Phase::Stream => stream_phase(s),
        Phase::Publish(left) => publish_phase(s, left),
        Phase::Ready => (Ok(SetupStepView::Ready), s),
    }
}

/// A publishing client that is being connected.
pub struct Connecting {
    reader: ChunkReader,
    writer: ChunkWriter,
    url: RtmpUrl,
    publish_type: String,
    phase: Phase,
    server_caps: ConnectCapabilities,
    stream_id: u32,
}

impl View for Connecting {
    type V = SetupView;

    closed spec fn view(&self) -> SetupView {
        SetupView {
            reader: self.reader@,
            writer: self.writer@,
            url: self.url@,
            publish_type: self.publish_type@,
            phase: self.phase,
            server_caps: self.server_caps@,
            stream_id: self.stream_id,
        }
    }
}

impl Connecting {
    /// Whether reader and writer are well-formed.
    pub open spec fn wf(&self) -> bool {
        self@.reader.wf() && self@.writer.wf()
    }

    /// Start a setup. `properties` are those of the `connect` command that the
    /// application states; the capability block follows them.
    pub fn start(
        url: &RtmpUrl,
        publish_type: &str,
        properties: Vec<(String, Amf0Value)>,
        caps: &ConnectCapabilities,
    ) -> (s: Connecting)
        ensures
            s.wf(),
            s@ == (SetupView {
                reader: ReaderView {
                    stream: Seq::empty(),
                    chunk_size: DEFAULT_CHUNK_SIZE,
                    states: Map::empty(),
                    received_bytes: 0,
                    window_ack_size: 0,
                    last_ack_bytes: 0,
                },
                writer: opening(pair_views(properties@), caps@),
                url: url@,
                publish_type: publish_type@,
                phase: Phase::Connect,
                server_caps: CapsView::none(),
                stream_id: 0,
            }),
    {
        let empty: Vec<u8> = Vec::new();
        let none: Vec<u8> = Vec::new();
        assert(empty@ =~= Seq::empty());
        assert(none@ =~= Seq::empty());
        let reader = ChunkReader::new(empty);
        let mut writer = ChunkWriter::new(none);
        let first = build_set_chunk_size(CLIENT_CHUNK_SIZE);
        let _announced = writer.write_message(CSID_PROTOCOL_CONTROL, &first);
        writer.set_chunk_size(CLIENT_CHUNK_SIZE as usize);
        let connect = build_connect_with_caps(Double::from_u32(TX_CONNECT), properties, caps);
        let _sent = writer.write_message(CSID_COMMAND, &connect);
        Connecting {
            reader,
            writer,
            url: url.clone(),
            publish_type: publish_type.to_owned(),
            phase: Phase::Connect,
            server_caps: ConnectCapabilities::new(),
            stream_id: 0,
        }
    }

    /// Bytes that have come.
    pub fn receive(&mut self, bytes: &[u8])
        requires
            old(self).wf(),
        ensures
            final(self).wf(),
            final(self)@ == (SetupView {
                reader: ReaderView {
                    stream: old(self)@.reader.stream + bytes@,
                    ..old(self)@.reader
                },
                ..old(self)@
            }),
    {
        let stream = self.reader.inner_mut();
        put_bytes(stream, bytes);
    }

    /// The bytes that are to go out.
    pub fn take_output(&mut self) -> (bytes: Vec<u8>)
        requires
            old(self).wf(),
        ensures
            final(self).wf(),
            bytes@ == old(self)@.writer.stream,
            final(self)@ == (SetupView {
                writer: WriterView { stream: Seq::empty(), ..old(self)@.writer },
                ..old(self)@
            }),
    {
        let stream = self.writer.inner_mut();
        let mut out: Vec<u8> = Vec::new();
        assert(out@ =~= Seq::empty());
        std::mem::swap(&mut out, stream);
        out
    }

    fn ask_for_stream(&mut self)
        requires
            old(self).wf(),
        ensures
            final(self).wf(),
            final(self)@ == (SetupView {
                writer: asking_for_stream(old(self)@.writer, old(self)@.url.stream_name),
                ..old(self)@
            }),
    {
        let name = self.url.stream_name.as_str();
        let release = build_release_stream(Double::from_u32(TX_RELEASE_STREAM), name);
        let fc = build_fc_publish(Double::from_u32(TX_FC_PUBLISH), name);
        let create = build_create_stream(Double::from_u32(TX_CREATE_STREAM));
        let _one = self.writer.write_message(CSID_COMMAND, &release);
        let _two = self.writer.write_message(CSID_COMMAND, &fc);
        let _three = self.writer.write_message(CSID_COMMAND, &create);
    }

    fn publish(&mut self)
        requires
            old(self).wf(),
        ensures
            final(self).wf(),
            final(self)@ == (SetupView {
                writer: publishing(
                    old(self)@.writer,
                    old(self)@.stream_id,
                    old(self)@.url.stream_name,
                    old(self)@.publish_type,
                ),
                ..old(self)@
            }),
    {
        let m = build_publish(
            Double::from_u32(TX_PUBLISH),
            self.stream_id,
            self.url.stream_name.as_str(),
            self.publish_type.as_str(),
        );
        let _sent = self.writer.write_message(CSID_COMMAND, &m);
    }

    fn await_start(&mut self, left: u8) -> (r: Result<SetupStep>)
        requires
            old(self).wf(),
        ensures
            final(self).wf(),
            outcome(r) == publish_phase(old(self)@, left).0,
            final(self)@ == publish_phase(old(self)@, left).1,
    {
        match wait_for_publish_start(&mut self.reader, left) {
            Err(e) => Err(e),
            Ok(Some(n)) => {
                self.phase = Phase::Publish(n);
                Ok(SetupStep::NeedInput)
            },
            Ok(None) => {
                self.phase = Phase::Ready;
                Ok(SetupStep::Ready)
            },
        }
    }

    fn await_stream(&mut self) -> (r: Result<SetupStep>)
        requires
            old(self).wf(),
        ensures
            final(self).wf(),
            outcome(r) == stream_phase(old(self)@).0,
            final(self)@ == stream_phase(old(self)@).1,
    {
        let values = match wait_for_result(&mut self.reader, TX_CREATE_STREAM) {
            Err(e) => {
                return Err(e);
            },
            Ok(Awaited::NeedInput) => {
                return Ok(SetupStep::NeedInput);
            },
            Ok(Awaited::Refused(v)) => {
                return Ok(SetupStep::Refused(v));
            },
            Ok(Awaited::Result(values)) => values,
        };
        let stream_id: u32 = match create_stream_id(&values) {
            Err(e) => {
                return Err(e);
            },
            Ok(id) => id,
        };
        self.stream_id = stream_id;
        self.publish();
        self.phase = Phase::Publish(PUBLISH_PATIENCE);
        self.await_start(PUBLISH_PATIENCE)
    }

    /// Look at the setup once.
    pub fn advance(&mut self) -> (r: Result<SetupStep>)
        requires
            old(self).wf(),
        ensures
            final(self).wf(),
            outcome(r) == advanced(old(self)@).0,
            final(self)@ == advanced(old(self)@).1,
    {
        match self.phase {
            Phase::Ready => Ok(SetupStep::Ready),
            Phase::Publish(left) => self.await_start(left),
            Phase::Stream => self.await_stream(),
            Phase::Connect => {
                let values = match wait_for_result(&mut self.reader, TX_CONNECT) {
                    Err(e) => {
                        return Err(e);
                    },
                    Ok(Awaited::NeedInput) => {
                        return Ok(SetupStep::NeedInput);
                    },
                    Ok(Awaited::Refused(v)) => {
                        return Ok(SetupStep::Refused(v));
                    },
                    Ok(Awaited::Result(values)) => values,
                };
                self.server_caps = extract_server_caps(values.as_slice());
                self.ask_for_stream();
                self.phase = Phase::Stream;
                self.await_stream()
            },
        }
    }

    /// Wait no longer for the stream to begin: some servers never say so. Tells
    /// whether that was all that was waited for.
    pub fn stop_waiting(&mut self) -> (b: bool)
        ensures
            b == (old(self)@.phase is Publish || old(self)@.phase is Ready),
            final(self)@ == (SetupView {
                phase: if b {
                    Phase::Ready
                } else {
                    old(self)@.phase
                },
                ..old(self)@
            }),
    {
        match self.phase {
            Phase::Publish(_) => {
                self.phase = Phase::Ready;
                true
            },
            Phase::Ready => true,
            _ => false,
        }
    }

    /// The client, once the stream is published.
    pub fn into_client(self) -> (r: Option<RtmpClient>)
        requires
            self.wf(),
        ensures
            match r {
                Some(c) => self@.phase is Ready && c@.wf() && c@ == (ClientView {
                    reader: self@.reader,
                    writer: self@.writer,
                    stream_id: self@.stream_id,
                    next_tx: FIRST_TRANSACTION,
                    input_ended: false,
                    read_eof: false,
                    server_caps: self@.server_caps,
                    tc_url: self@.url.tc_url,
                    pending: Seq::empty(),
                }),
                None => !(self@.phase is Ready),
            },
    {
        match self.phase {
            Phase::Ready => Some(
                RtmpClient::new(
                    self.reader,
                    self.writer,
                    self.stream_id,
                    self.server_caps,
                    self.url.tc_url,
                ),
            ),
            _ => None,
        }
    }
}

// ---------------------------------------------------------------------------
// Laws
// ---------------------------------------------------------------------------

/// How far a phase is.
pub open spec fn progress(p: Phase) -> int {
    match p {
        Phase::Connect => 0,
        Phase::Stream => 1,
        Phase::Publish(_) => 2,
        Phase::Ready => 3,
    }
}

/// A setup never goes back, keeps its address, and keeps the stream id and the
/// capabilities that it has learned. It is ready exactly when it says so.
pub proof fn law_setup_goes_forward(s: SetupView)
    requires
        s.reader.wf(),
    ensures
        ({
            let (r, s2) = advanced(s);
            &&& progress(s.phase) <= progress(s2.phase)
            &&& s2.url == s.url && s2.publish_type == s.publish_type
            &&& progress(s.phase) >= 1 ==> s2.server_caps == s.server_caps
            &&& progress(s.phase) >= 2 ==> s2.stream_id == s.stream_id
            &&& s2.phase is Ready <==> r == Ok::<SetupStepView, Fault>(SetupStepView::Ready)
        }),
{
}

/// While more bytes have to come, a setup has put out nothing that it would put
/// out again: looking at it once more changes nothing but the reader.
pub proof fn law_waiting_sends_nothing(s: SetupView)
    requires
        s.reader.wf(),
        advanced(s).0 == Ok::<SetupStepView, Fault>(SetupStepView::NeedInput),
        progress(advanced(s).1.phase) == progress(s.phase),
    ensures
        advanced(s).1.writer == s.writer,
{
}

} // verus!
