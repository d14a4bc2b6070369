//! What the server tells a publishing client.

use vstd::prelude::*;
use crate::amf::Amf0Value;
#[allow(unused_imports)]
use crate::amf::Amf0;
use crate::caps::ConnectCapabilities;
#[allow(unused_imports)]
use crate::caps::{caps_of, CapsView};
use crate::error::{Error, Result};
#[allow(unused_imports)]
use crate::error::{outcome, Fault};
use crate::message::{
    RECONNECT_REQUEST_CODE, USR_PING_REQUEST, USR_PING_RESPONSE, USR_SET_BUFFER_LENGTH,
    USR_STREAM_BEGIN, USR_STREAM_DRY, USR_STREAM_EOF, USR_STREAM_IS_RECORDED,
};
#[allow(unused_imports)]
use crate::model::{opt_view, views};
use crate::number::Double;
use crate::text::same_text;
use crate::wire::{copy_range, get_be16, get_be32, put_be16, put_bytes};
#[allow(unused_imports)]
use crate::wire::{be16, be16_bytes, be32, from};

verus! {

/// A remote procedure call.
#[derive(Debug, PartialEq)]
pub struct CallCommand {
    pub procedure: String,
    /// Zero where no answer is expected.
    pub transaction_id: Double,
    pub command_object: Amf0Value,
    pub arguments: Vec<Amf0Value>,
}

/// The mathematical view of [`CallCommand`].
pub struct CallView {
    pub procedure: Seq<char>,
    pub transaction_id: Double,
    pub command_object: Amf0,
    pub arguments: Seq<Amf0>,
}

impl View for CallCommand {
    type V = CallView;

    open spec fn view(&self) -> CallView {
        CallView {
            procedure: self.procedure@,
            transaction_id: self.transaction_id,
            command_object: self.command_object@,
            arguments: views(self.arguments@),
        }
    }
}

/// One thing that the server tells.
#[derive(Debug, PartialEq)]
pub enum ClientEvent {
    StreamBegin { stream_id: u32 },
    /// The stream has ended; a last status may follow.
    StreamEof { stream_id: u32 },
    /// There is no data for the moment.
    StreamDry { stream_id: u32 },
    StreamIsRecorded { stream_id: u32 },
    /// The answer to a ping, with the time that the ping named.
    PingResponse { timestamp_ms: u32 },
    OnStatus { level: String, code: String, description: String },
    /// The server asks to connect anew, to `tc_url` if it names one.
    ReconnectRequest { tc_url: Option<String>, description: String },
    Result { transaction_id: Double, values: Vec<Amf0Value> },
    ErrorReply { transaction_id: Double, values: Vec<Amf0Value> },
    Call(CallCommand),
    /// Anything else, and what the client sees to by itself.
    Other,
}

/// The mathematical view of [`ClientEvent`].
pub enum EventView {
    StreamBegin { stream_id: u32 },
    StreamEof { stream_id: u32 },
    StreamDry { stream_id: u32 },
    StreamIsRecorded { stream_id: u32 },
    PingResponse { timestamp_ms: u32 },
    OnStatus { level: Seq<char>, code: Seq<char>, description: Seq<char> },
    ReconnectRequest { tc_url: Option<Seq<char>>, description: Seq<char> },
    Result { transaction_id: Double, values: Seq<Amf0> },
    ErrorReply { transaction_id: Double, values: Seq<Amf0> },
    Call(CallView),
    Other,
}

impl View for ClientEvent {
    type V = EventView;

    open spec fn view(&self) -> EventView {
        match *self {
            ClientEvent::StreamBegin { stream_id } => EventView::StreamBegin { stream_id },
            ClientEvent::StreamEof { stream_id } => EventView::StreamEof { stream_id },
            ClientEvent::StreamDry { stream_id } => EventView::StreamDry { stream_id },
            ClientEvent::StreamIsRecorded { stream_id } => EventView::StreamIsRecorded {
                stream_id,
            },
            ClientEvent::PingResponse { timestamp_ms } => EventView::PingResponse { timestamp_ms },
            ClientEvent::OnStatus { level, code, description } => EventView::OnStatus {
                level: level@,
                code: code@,
                description: description@,
            },
            ClientEvent::ReconnectRequest { tc_url, description } => EventView::ReconnectRequest {
                tc_url: opt_view(tc_url),
                description: description@,
            },
            ClientEvent::Result { transaction_id, values } => EventView::Result {
                transaction_id,
                values: views(values@),
            },
            ClientEvent::ErrorReply { transaction_id, values } => EventView::ErrorReply {
                transaction_id,
                values: views(values@),
            },
            ClientEvent::Call(c) => EventView::Call(c@),
            ClientEvent::Other => EventView::Other,
        }
    }
}

// ---------------------------------------------------------------------------
// Commands
// ---------------------------------------------------------------------------

/// The name of a command, or nothing.
pub open spec fn command_name(values: Seq<Amf0>) -> Seq<char> {
    if values.len() > 0 && values[0] is String {
        values[0]->String_0
    } else {
        Seq::empty()
    }
}

/// The transaction id of a command, or zero.
pub open spec fn transaction_of(values: Seq<Amf0>) -> Double {
    if values.len() > 1 && values[1] is Number {
        Double { bits: values[1]->Number_0 }
    } else {
        Double { bits: 0 }
    }
}

/// The text called `key`, or nothing.
pub open spec fn text_in(info: Amf0, key: Seq<char>) -> Seq<char> {
    match info.get(key) {
        Some(Amf0::String(s)) => s,
        _ => Seq::empty(),
    }
}

/// What a status says: a request to connect anew needs both its code and the
/// level of a plain status.
pub open spec fn status_event(info: Amf0) -> EventView {
    let level = text_in(info, "level"@);
    let code = text_in(info, "code"@);
    let description = text_in(info, "description"@);
    if code == RECONNECT_REQUEST_CODE@ && level == "status"@ {
        EventView::ReconnectRequest {
            tc_url: match info.get("tcUrl"@) {
                Some(Amf0::String(s)) => Some(s),
                _ => None,
            },
            description,
        }
    } else {
        EventView::OnStatus { level, code, description }
    }
}

/// What a command says. `call` is the remote procedure call that it makes, for a
/// name that is not one of the protocol's own.
pub open spec fn command_event(values: Seq<Amf0>, call: Option<CallView>) -> EventView {
    let name = command_name(values);
    if name == "onStatus"@ {
        if values.len() > 3 {
            status_event(values[3])
        } else {
            EventView::Other
        }
    } else if name == "_result"@ {
        EventView::Result { transaction_id: transaction_of(values), values }
    } else if name == "_error"@ {
        EventView::ErrorReply { transaction_id: transaction_of(values), values }
    } else {
        match call {
            Some(c) => EventView::Call(c),
            None => EventView::Other,
        }
    }
}

pub(crate) fn name_of(values: &Vec<Amf0Value>) -> (name: String)
    ensures
        name@ == command_name(views(values@)),
{
    if values.len() > 0 {
        assert(views(values@)[0] == values@[0]@);
        match &values[0] {
            Amf0Value::String(s) => {
                return s.clone();
            },
            _ => {},
        }
    }
    let none = String::new();
    assert(none@ =~= Seq::empty());
    none
}

fn transaction_id(values: &Vec<Amf0Value>) -> (d: Double)
    ensures
        d == transaction_of(views(values@)),
{
    if values.len() > 1 {
        assert(views(values@)[1] == values@[1]@);
        match &values[1] {
            Amf0Value::Number(d) => {
                return *d;
            },
            _ => {},
        }
    }
    Double { bits: 0 }
}

fn text_named(info: &Amf0Value, key: &str) -> (s: String)
    ensures
        s@ == text_in(info@, key@),
{
    match info.get(key) {
        Some(v) => match v {
            Amf0Value::String(s) => {
                return s.clone();
            },
            _ => {},
        },
        None => {},
    }
    let none = String::new();
    assert(none@ =~= Seq::empty());
    none
}

fn status(info: &Amf0Value) -> (e: ClientEvent)
    ensures
        e@ == status_event(info@),
{
    let level = text_named(info, "level");
    let code = text_named(info, "code");
    let description = text_named(info, "description");
    if same_text(code.as_str(), RECONNECT_REQUEST_CODE) && same_text(level.as_str(), "status") {
        let tc_url: Option<String> = match info.get("tcUrl") {
            Some(v) => match v {
                Amf0Value::String(s) => Some(s.clone()),
                _ => None,
            },
            None => None,
        };
        return ClientEvent::ReconnectRequest { tc_url, description };
    }
    ClientEvent::OnStatus { level, code, description }
}

/// What a command says. `call` is the remote procedure call that it makes, for a
/// name that is not one of the protocol's own.
pub fn classify_command(values: Vec<Amf0Value>, call: Option<CallCommand>) -> (e: ClientEvent)
    ensures
        e@ == command_event(views(values@), opt_view(call)),
{
    let name = name_of(&values);
    if same_text(name.as_str(), "onStatus") {
        if values.len() > 3 {
            assert(views(values@)[3] == values@[3]@);
            return status(&values[3]);
        }
        return ClientEvent::Other;
    }
    if same_text(name.as_str(), "_result") {
        return ClientEvent::Result { transaction_id: transaction_id(&values), values };
    }
    if same_text(name.as_str(), "_error") {
        return ClientEvent::ErrorReply { transaction_id: transaction_id(&values), values };
    }
    match call {
        Some(c) => ClientEvent::Call(c),
        None => ClientEvent::Other,
    }
}

// ---------------------------------------------------------------------------
// User control
// ---------------------------------------------------------------------------

/// Four bytes as a number.
pub open spec fn u32_at_front(s: Seq<u8>) -> core::result::Result<u32, Fault> {
    if s.len() < 4 {
        Err(Fault::ProtocolViolation("need 4 bytes for u32be"@))
    } else {
        Ok(be32(s, 0))
    }
}

/// The first four bytes as a number, highest first.
pub fn read_u32_be(buf: &[u8]) -> (r: Result<u32>)
    ensures
        match r {
            Ok(v) => u32_at_front(buf@) == Ok::<u32, Fault>(v),
            Err(e) => u32_at_front(buf@) == Err::<u32, Fault>(e@),
        },
{
    if buf.len() < 4 {
        return Err(Error::ProtocolViolation("need 4 bytes for u32be".to_owned()));
    }
    Ok(get_be32(buf, 0))
}

/// The event type and data of a user control payload.
pub open spec fn user_control(s: Seq<u8>) -> core::result::Result<(u16, Seq<u8>), Fault> {
    if s.len() < 2 {
        Err(Fault::ProtocolViolation("UserControl: payload < 2 bytes"@))
    } else {
        Ok((be16(s, 0), from(s, 2)))
    }
}

/// The event type and data of a user control payload.
pub fn parse_user_control(buf: &[u8]) -> (r: Result<(u16, &[u8])>)
    ensures
        match r {
            Ok((t, data)) => user_control(buf@) == Ok::<(u16, Seq<u8>), Fault>((t, data@)),
            Err(e) => user_control(buf@) == Err::<(u16, Seq<u8>), Fault>(e@),
        },
{
    if buf.len() < 2 {
        return Err(Error::ProtocolViolation("UserControl: payload < 2 bytes".to_owned()));
    }
    Ok((get_be16(buf, 0), vstd::slice::slice_subrange(buf, 2, buf.len())))
}

/// The stream id that event data holds.
pub open spec fn stream_id_in(data: Seq<u8>) -> core::result::Result<u32, Fault> {
    if data.len() < 4 {
        Err(Fault::ProtocolViolation("UserControl: event data < 4 bytes (need stream id)"@))
    } else {
        Ok(be32(data, 0))
    }
}

/// The stream id that event data holds.
pub fn ucm_stream_id(event_data: &[u8]) -> (r: Result<u32>)
    ensures
        match r {
            Ok(v) => stream_id_in(event_data@) == Ok::<u32, Fault>(v),
            Err(e) => stream_id_in(event_data@) == Err::<u32, Fault>(e@),
        },
{
    if event_data.len() < 4 {
        return Err(
            Error::ProtocolViolation(
                "UserControl: event data < 4 bytes (need stream id)".to_owned(),
            ),
        );
    }
    Ok(get_be32(event_data, 0))
}

/// What a user control message asks for: to tell of an event, or to send a
/// payload back.
pub enum ControlView {
    Tell(EventView),
    Answer(Seq<u8>),
}

/// What a user control message asks for.
pub enum Control {
    Tell(ClientEvent),
    Answer(Vec<u8>),
}

impl View for Control {
    type V = ControlView;

    open spec fn view(&self) -> ControlView {
        match *self {
            Control::Tell(e) => ControlView::Tell(e@),
            Control::Answer(p) => ControlView::Answer(p@),
        }
    }
}

/// An event that names a stream.
pub open spec fn stream_event(event_type: u16, stream_id: u32) -> EventView {
    if event_type == USR_STREAM_BEGIN {
        EventView::StreamBegin { stream_id }
    } else if event_type == USR_STREAM_EOF {
        EventView::StreamEof { stream_id }
    } else if event_type == USR_STREAM_DRY {
        EventView::StreamDry { stream_id }
    } else {
        EventView::StreamIsRecorded { stream_id }
    }
}

/// What a user control message asks for. A ping is answered with the time that it
/// names; one without a time, and an unknown event, ask for nothing.
pub open spec fn control_of(payload: Seq<u8>) -> core::result::Result<ControlView, Fault> {
    match user_control(payload) {
        Err(f) => Err(f),
        Ok((t, data)) => if t == USR_STREAM_BEGIN || t == USR_STREAM_EOF || t == USR_STREAM_DRY
            || t == USR_STREAM_IS_RECORDED {
            match stream_id_in(data) {
                Err(f) => Err(f),
                Ok(id) => Ok(ControlView::Tell(stream_event(t, id))),
            }
        } else if t == USR_SET_BUFFER_LENGTH && data.len() < 8 {
            Err(Fault::ProtocolViolation("UserControl SetBufferLength: event data < 8 bytes"@))
        } else if t == USR_PING_REQUEST && data.len() >= 4 {
            Ok(ControlView::Answer(be16_bytes(USR_PING_RESPONSE) + data.subrange(0, 4)))
        } else if t == USR_PING_RESPONSE {
            if data.len() < 4 {
                Err(Fault::ProtocolViolation("UserControl PingResponse: event data < 4 bytes"@))
            } else {
                Ok(ControlView::Tell(EventView::PingResponse { timestamp_ms: be32(data, 0) }))
            }
        } else {
            Ok(ControlView::Tell(EventView::Other))
        },
    }
}

/// What a user control message asks for.
pub fn classify_user_control(payload: &[u8]) -> (r: Result<Control>)
    ensures
        outcome(r) == control_of(payload@),
{
    let (t, data): (u16, &[u8]) = match parse_user_control(payload) {
        Err(e) => {
            return Err(e);
        },
        Ok(p) => p,
    };
    if t == USR_STREAM_BEGIN || t == USR_STREAM_EOF || t == USR_STREAM_DRY || t
        == USR_STREAM_IS_RECORDED {
        let stream_id: u32 = match ucm_stream_id(data) {
            Err(e) => {
                return Err(e);
            },
            Ok(id) => id,
        };
        let e = if t == USR_STREAM_BEGIN {
            ClientEvent::StreamBegin { stream_id }
        } else if t == USR_STREAM_EOF {
            ClientEvent::StreamEof { stream_id }
        } else if t == USR_STREAM_DRY {
            ClientEvent::StreamDry { stream_id }
        } else {
            ClientEvent::StreamIsRecorded { stream_id }
        };
        return Ok(Control::Tell(e));
    }
    if t == USR_SET_BUFFER_LENGTH && data.len() < 8 {
        return Err(
            Error::ProtocolViolation(
                "UserControl SetBufferLength: event data < 8 bytes".to_owned(),
            ),
        );
    }
    if t == USR_PING_REQUEST && data.len() >= 4 {
        let mut p: Vec<u8> = Vec::new();
        put_be16(&mut p, USR_PING_RESPONSE);
        let time = copy_range(data, 0, 4);
        put_bytes(&mut p, time.as_slice());
        assert(p@ =~= be16_bytes(USR_PING_RESPONSE) + data@.subrange(0, 4));
        return Ok(Control::Answer(p));
    }
    if t == USR_PING_RESPONSE {
        if data.len() < 4 {
            return Err(
                Error::ProtocolViolation(
                    "UserControl PingResponse: event data < 4 bytes".to_owned(),
                ),
            );
        }
        return Ok(Control::Tell(ClientEvent::PingResponse { timestamp_ms: get_be32(data, 0) }));
    }
    Ok(Control::Tell(ClientEvent::Other))
}

// ---------------------------------------------------------------------------
// Capabilities
// ---------------------------------------------------------------------------

/// Whether a block says more than the object encoding, which every server sends.
pub open spec fn says_more(c: CapsView) -> bool {
    c.fourcc_list.len() > 0 || c.video.len() > 0 || c.audio.len() > 0 || c.caps_ex != 0
}

/// The first capability block among values, from the `i`th on.
pub open spec fn caps_among(values: Seq<Amf0>, i: int) -> CapsView
    decreases values.len() - i,
{
    if i >= values.len() {
        CapsView::none()
    } else if says_more(caps_of(values[i])) {
        caps_of(values[i])
    } else {
        caps_among(values, i + 1)
    }
}

fn has_enhanced_rtmp_property(caps: &ConnectCapabilities) -> (b: bool)
    ensures
        b == says_more(caps@),
{
    caps.fourcc_list.len() != 0 || !caps.video_fourcc_info_map.is_empty()
        || !caps.audio_fourcc_info_map.is_empty() || caps.caps_ex != 0
}

/// The capabilities that a server states in its reply to `connect`: the first
/// object or ECMA array that says more than the object encoding.
pub fn extract_server_caps(values: &[Amf0Value]) -> (c: ConnectCapabilities)
    ensures
        c@ == caps_among(views(values@), 0),
{
    let ghost all = views(values@);
    let mut i: usize = 0;
    while i < values.len()
        invariant
            all == views(values@),
            i <= values@.len(),
            caps_among(all, 0) == caps_among(all, i as int),
        decreases values@.len() - i,
    {
        let caps = ConnectCapabilities::from_amf0(&values[i]);
        if has_enhanced_rtmp_property(&caps) {
            return caps;
        }
        i = i + 1;
    }
    ConnectCapabilities::new()
}

// ---------------------------------------------------------------------------
// Laws
// ---------------------------------------------------------------------------

/// A request to connect anew is one only as a plain status; under another level it
/// is told as the status that it is.
pub proof fn law_reconnect_needs_status_level(info: Amf0)
    ensures
        status_event(info) is ReconnectRequest <==> (text_in(info, "code"@)
            == RECONNECT_REQUEST_CODE@ && text_in(info, "level"@) == "status"@),
        status_event(info) is ReconnectRequest || status_event(info) is OnStatus,
{
}

/// An answer to a ping that comes back tells the time that the ping named.
pub proof fn law_ping_comes_back(time: Seq<u8>)
    requires
        time.len() == 4,
    ensures
        control_of(be16_bytes(USR_PING_REQUEST) + time) == Ok::<ControlView, Fault>(
            ControlView::Answer(be16_bytes(USR_PING_RESPONSE) + time),
        ),
        control_of(be16_bytes(USR_PING_RESPONSE) + time) == Ok::<ControlView, Fault>(
            ControlView::Tell(EventView::PingResponse { timestamp_ms: be32(time, 0) }),
        ),
{
    let ask = be16_bytes(USR_PING_REQUEST) + time;
    let reply = be16_bytes(USR_PING_RESPONSE) + time;
    assert(ask.subrange(0, 2) =~= be16_bytes(USR_PING_REQUEST));
    assert(reply.subrange(0, 2) =~= be16_bytes(USR_PING_RESPONSE));
    crate::wire::lemma_be16(ask, 0, USR_PING_REQUEST);
    crate::wire::lemma_be16(reply, 0, USR_PING_RESPONSE);
    assert(from(ask, 2) =~= time);
    assert(from(reply, 2) =~= time);
    assert(time.subrange(0, 4) =~= time);
}

/// The object encoding alone, which every server sends, is no statement of
/// capabilities.
pub proof fn law_object_encoding_alone_says_nothing(values: Seq<Amf0>, i: int)
    requires
        0 <= i <= values.len(),
        forall|k: int|
            i <= k < values.len() ==> caps_of(#[trigger] values[k]) == (CapsView {
                object_encoding: caps_of(values[k]).object_encoding,
                ..CapsView::none()
            }),
    ensures
        caps_among(values, i) == CapsView::none(),
    decreases values.len() - i,
{
    if i < values.len() {
        law_object_encoding_alone_says_nothing(values, i + 1);
    }
}

/// Numbers at the front of a payload are read highest byte first, and a payload that is too
/// short for them is a violation of the protocol; the data of an event follows its type.
pub proof fn law_event_data(
    buf: &[u8],
    a: Result<u32>,
    b: Result<(u16, &[u8])>,
    c: Result<u32>,
)
    requires
        call_ensures(read_u32_be, (buf,), a),
        call_ensures(parse_user_control, (buf,), b),
        call_ensures(ucm_stream_id, (buf,), c),
    ensures
        a is Ok <==> buf@.len() >= 4,
        a matches Ok(v) ==> v == buf@[0] * 0x100_0000 + buf@[1] * 0x1_0000 + buf@[2] * 0x100
            + buf@[3],
        a matches Err(e) ==> e is ProtocolViolation,
        c is Ok <==> buf@.len() >= 4,
        c matches Ok(v) ==> v == buf@[0] * 0x100_0000 + buf@[1] * 0x1_0000 + buf@[2] * 0x100
            + buf@[3],
        c matches Err(e) ==> e is ProtocolViolation,
        b is Ok <==> buf@.len() >= 2,
        b matches Ok((t, data)) ==> t == buf@[0] * 0x100 + buf@[1] && data@ == buf@.subrange(
            2,
            buf@.len() as int,
        ),
        b matches Err(e) ==> e is ProtocolViolation,
{
    crate::wire::law_fields_by_their_bytes(buf@, 0);
}

} // verus!
