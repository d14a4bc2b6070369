//! A publishing client that is connected.
//!
//! The client does no input or output of its own: bytes that have come are handed
//! to it, and bytes that are to go out are taken from it.

use vstd::prelude::*;
use crate::aggregate::{build_aggregate, parse_aggregate};
#[allow(unused_imports)]
use crate::aggregate::{
    aggregate_of, aggregate_parts, law_parts_weigh_less, lemma_weight_append, weight,
};
use crate::amf::{decode_all, Amf0Value};
#[allow(unused_imports)]
use crate::amf::{values_of, Amf0};
use crate::amf3::Amf3Value;
use crate::caps::ConnectCapabilities;
#[allow(unused_imports)]
use crate::caps::CapsView;
use crate::chunk::{ChunkReader, ChunkWriter, Message};
#[allow(unused_imports)]
use crate::chunk::{ack_from, clamped, read_from, with_window, MessageView, ReaderView, WriterView};
#[allow(unused_imports)]
use crate::chunk_laws::law_reading_takes_bytes;
use crate::client::event::{
    classify_command, classify_user_control, name_of, read_u32_be, ClientEvent, Control,
};
#[allow(unused_imports)]
use crate::client::event::{
    command_event, command_name, control_of, u32_at_front, ControlView, EventView,
};
use crate::client::outgoing::{
    build_aac, build_ack, build_avc, build_call, build_clear_data_frame, build_command,
    build_metadata_amf3, build_set_data_frame_named, build_user_control_ping_request,
    build_window_ack_size,
};
#[allow(unused_imports)]
use crate::client::outgoing::{
    aac_tag, amf3_metadata_payload, audio_message, avc_tag, clear_frame_message, command_message,
    control_message, data_frame_message, video_message,
};
use crate::client::url::resolve_tc_url;
#[allow(unused_imports)]
use crate::client::url::resolved;
use crate::error::{Error, Result};
#[allow(unused_imports)]
use crate::error::{outcome, Fault};
use crate::flv::{
    AAC_PACKET_TYPE_RAW, AAC_PACKET_TYPE_SEQUENCE_HEADER, AVC_PACKET_TYPE_NALU,
    AVC_PACKET_TYPE_SEQUENCE_HEADER,
};
use crate::message::{
    CSID_AUDIO, CSID_COMMAND, CSID_DATA, CSID_PROTOCOL_CONTROL, CSID_VIDEO, MSG_ACK, MSG_AGGREGATE,
    MSG_COMMAND_AMF0, MSG_COMMAND_AMF3, MSG_DATA_AMF3, MSG_SET_CHUNK_SIZE, MSG_SET_PEER_BANDWIDTH,
    MSG_SHARED_OBJECT_AMF0, MSG_SHARED_OBJECT_AMF3, MSG_USER_CONTROL, MSG_WINDOW_ACK_SIZE,
    USR_PING_REQUEST,
};
#[allow(unused_imports)]
use crate::model::views;
use crate::number::{Double, LARGEST_EXACT};
#[allow(unused_imports)]
use crate::number::nat_bits;
use crate::text::same_text;
use crate::wire::{copy_range, put_bytes};
#[allow(unused_imports)]
use crate::wire::{be16_bytes, be32_bytes};

verus! {

/// The transaction id of the first command after the stream is published.
pub const FIRST_TRANSACTION: u64 = 10;

/// What a look at the connection came to. `queued` says that a message came out
/// of an aggregate: where nothing is to be told of it, the next one follows.
#[derive(Debug)]
pub enum ClientStep {
    /// There is nothing to tell until more bytes come.
    NeedInput,
    Event(ClientEvent),
    /// The peer limits the bandwidth, with this payload.
    PeerBandwidth { payload: Vec<u8>, queued: bool },
    /// A command that is neither a status nor an answer.
    Command { values: Vec<Amf0Value>, queued: bool },
    /// A command in AMF3, with this payload.
    CommandAmf3 { payload: Vec<u8>, queued: bool },
    /// A shared object message.
    SharedObject(Message),
}

/// The mathematical view of [`ClientStep`].
pub enum StepView {
    NeedInput,
    Event(EventView),
    PeerBandwidth { payload: Seq<u8>, queued: bool },
    Command { values: Seq<Amf0>, queued: bool },
    CommandAmf3 { payload: Seq<u8>, queued: bool },
    SharedObject(MessageView),
}

impl View for ClientStep {
    type V = StepView;

    open spec fn view(&self) -> StepView {
        match *self {
            ClientStep::NeedInput => StepView::NeedInput,
            ClientStep::Event(e) => StepView::Event(e@),
            ClientStep::PeerBandwidth { payload, queued } => StepView::PeerBandwidth {
                payload: payload@,
                queued,
            },
            ClientStep::Command { values, queued } => StepView::Command {
                values: views(values@),
                queued,
            },
            ClientStep::CommandAmf3 { payload, queued } => StepView::CommandAmf3 {
                payload: payload@,
                queued,
            },
            ClientStep::SharedObject(m) => StepView::SharedObject(m@),
        }
    }
}

/// The mathematical view of [`RtmpClient`].
pub struct ClientView {
    pub reader: ReaderView,
    pub writer: WriterView,
    pub stream_id: u32,
    /// The next transaction id.
    pub next_tx: u64,
    /// Whether no more bytes will come.
    pub input_ended: bool,
    /// Whether all that came has been told.
    pub read_eof: bool,
    pub server_caps: CapsView,
    pub tc_url: Seq<char>,
    /// Messages out of aggregates, to be looked at before any other.
    pub pending: Seq<MessageView>,
}

impl ClientView {
    /// Reader and writer are well-formed, and transaction ids are exact.
    pub open spec fn wf(self) -> bool {
        self.reader.wf() && self.writer.wf() && self.next_tx <= LARGEST_EXACT
    }

    /// With one more message put out.
    pub open spec fn sent(self, csid: u32, m: MessageView) -> ClientView {
        ClientView { writer: self.writer.after(csid, m), ..self }
    }

    /// With an acknowledgement put out, if one is due.
    pub open spec fn acked(self) -> ClientView {
        let (due, reader) = ack_from(self.reader);
        let c = ClientView { reader, ..self };
        match due {
            Some(n) => c.sent(CSID_PROTOCOL_CONTROL, control_message(MSG_ACK, be32_bytes(n))),
            None => c,
        }
    }
}

/// Whether a command is a status or an answer.
pub open spec fn is_reply(name: Seq<char>) -> bool {
    name == "onStatus"@ || name == "_result"@ || name == "_error"@
}

/// Nothing to tell.
pub open spec fn nothing() -> core::result::Result<StepView, Fault> {
    Ok(StepView::Event(EventView::Other))
}

/// What a message comes to, and the client afterwards.
pub open spec fn classified(c: ClientView, m: MessageView, queued: bool) -> (
    core::result::Result<StepView, Fault>,
    ClientView,
) {
    let t = m.msg_type_id;
    if t == MSG_SET_CHUNK_SIZE {
        match u32_at_front(m.payload) {
            Err(f) => (Err(f), c),
            Ok(n) => (
                nothing(),
                ClientView {
                    reader: ReaderView {
                        chunk_size: clamped((n % 0x8000_0000) as usize),
                        ..c.reader
                    },
                    ..c
                },
            ),
        }
    } else if t == MSG_WINDOW_ACK_SIZE {
        match u32_at_front(m.payload) {
            Err(f) => (Err(f), c),
            Ok(n) => (nothing(), ClientView { reader: with_window(c.reader, n), ..c }),
        }
    } else if t == MSG_SET_PEER_BANDWIDTH {
        (Ok(StepView::PeerBandwidth { payload: m.payload, queued }), c)
    } else if t == MSG_USER_CONTROL {
        match control_of(m.payload) {
            Err(f) => (Err(f), c),
            Ok(ControlView::Tell(e)) => (Ok(StepView::Event(e)), c),
            Ok(ControlView::Answer(p)) => (
                nothing(),
                c.sent(CSID_PROTOCOL_CONTROL, control_message(MSG_USER_CONTROL, p)),
            ),
        }
    } else if t == MSG_COMMAND_AMF0 {
        match values_of(m.payload) {
            Err(f) => (Err(f), c),
            Ok(values) => if is_reply(command_name(values)) {
                (Ok(StepView::Event(command_event(values, None))), c)
            } else {
                (Ok(StepView::Command { values, queued }), c)
            },
        }
    } else if t == MSG_COMMAND_AMF3 {
        (Ok(StepView::CommandAmf3 { payload: m.payload, queued }), c)
    } else if t == MSG_SHARED_OBJECT_AMF0 || t == MSG_SHARED_OBJECT_AMF3 {
        (Ok(StepView::SharedObject(m)), c)
    } else if t == MSG_AGGREGATE {
        match aggregate_parts(m) {
            Err(f) => (Err(f), c),
            Ok(subs) => (nothing(), ClientView { pending: c.pending + subs, ..c }),
        }
    } else {
        (nothing(), c)
    }
}

/// What a look at the connection comes to, and the client afterwards. Messages out
/// of aggregates come first, in order, and those of which nothing is to be told
/// are passed over; then comes what has arrived, acknowledged where that is due.
pub open spec fn polled(c: ClientView) -> (
    core::result::Result<Option<StepView>, Fault>,
    ClientView,
)
    decreases c.reader.stream.len(), weight(c.pending),
    when c.reader.wf()
    via polled_ends
{
    if c.read_eof {
        (Ok(None), c)
    } else if c.pending.len() > 0 {
        let rest = ClientView { pending: c.pending.subrange(1, c.pending.len() as int), ..c };
        let (r, c2) = classified(rest, c.pending[0], true);
        match r {
            Err(f) => (Err(f), c2),
            Ok(StepView::Event(EventView::Other)) => polled(c2),
            Ok(step) => (Ok(Some(step)), c2),
        }
    } else {
        let (m, reader) = read_from(c.reader);
        let c1 = ClientView { reader, ..c };
        match m {
            Err(Fault::UnexpectedEof) => if c.input_ended {
                (Ok(None), ClientView { read_eof: true, ..c1 })
            } else {
                (Ok(Some(StepView::NeedInput)), c1)
            },
            Err(f) => (Err(f), c1),
            Ok(msg) => {
                let c2 = c1.acked();
                if msg.msg_type_id == MSG_AGGREGATE {
                    match aggregate_parts(msg) {
                        Err(f) => (Err(f), c2),
                        Ok(subs) => polled(ClientView { pending: c2.pending + subs, ..c2 }),
                    }
                } else {
                    let (r, c3) = classified(c2, msg, false);
                    match r {
                        Err(f) => (Err(f), c3),
                        Ok(step) => (Ok(Some(step)), c3),
                    }
                }
            },
        }
    }
}

#[via_fn]
proof fn polled_ends(c: ClientView) {
    if !c.read_eof {
        if c.pending.len() > 0 {
            lemma_pending_lighter(c);
        } else {
            law_reading_takes_bytes(c.reader);
        }
    }
}

/// Looking at a queued message leaves less in the queue.
proof fn lemma_pending_lighter(c: ClientView)
    requires
        c.pending.len() > 0,
    ensures
        ({
            let rest = ClientView { pending: c.pending.subrange(1, c.pending.len() as int), ..c };
            let (r, c2) = classified(rest, c.pending[0], true);
            &&& weight(c2.pending) < weight(c.pending)
            &&& c2.reader.stream == c.reader.stream
        }),
{
    let tail = c.pending.subrange(1, c.pending.len() as int);
    let first = seq![c.pending[0]];
    assert(first + tail =~= c.pending);
    lemma_weight_append(first, tail);
    assert(first.drop_last() =~= Seq::empty());
    assert(weight(first) == 1 + first.last().payload.len() + weight(first.drop_last()));
    if c.pending[0].msg_type_id == MSG_AGGREGATE && aggregate_parts(c.pending[0]) is Ok {
        law_parts_weigh_less(c.pending[0]);
        lemma_weight_append(tail, aggregate_parts(c.pending[0])->Ok_0);
    }
}

/// A publishing client that is connected.
pub struct RtmpClient {
    reader: ChunkReader,
    writer: ChunkWriter,
    stream_id: u32,
    next_tx: u64,
    input_ended: bool,
    read_eof: bool,
    server_caps: ConnectCapabilities,
    tc_url: String,
    pending: Vec<Message>,
}

impl View for RtmpClient {
    type V = ClientView;

    closed spec fn view(&self) -> ClientView {
        ClientView {
            reader: self.reader@,
            writer: self.writer@,
            stream_id: self.stream_id,
            next_tx: self.next_tx,
            input_ended: self.input_ended,
            read_eof: self.read_eof,
            server_caps: self.server_caps@,
            tc_url: self.tc_url@,
            pending: views(self.pending@),
        }
    }
}

impl RtmpClient {
    /// A client on a stream that is published, which goes on with the reader and
    /// the writer of the setup.
    pub fn new(
        reader: ChunkReader,
        writer: ChunkWriter,
        stream_id: u32,
        server_caps: ConnectCapabilities,
        tc_url: String,
    ) -> (c: RtmpClient)
        requires
            reader@.wf(),
            writer@.wf(),
        ensures
            c@.wf(),
            c@ == (ClientView {
                reader: reader@,
                writer: writer@,
                stream_id,
                next_tx: FIRST_TRANSACTION,
                input_ended: false,
                read_eof: false,
                server_caps: server_caps@,
                tc_url: tc_url@,
                pending: Seq::empty(),
            }),
    {
        let c = RtmpClient {
            reader,
            writer,
            stream_id,
            next_tx: FIRST_TRANSACTION,
            input_ended: false,
            read_eof: false,
            server_caps,
            tc_url,
            pending: Vec::new(),
        };
        assert(c@.pending =~= Seq::empty());
        c
    }

    /// What the server said it can do.
    pub fn server_capabilities(&self) -> (c: &ConnectCapabilities)
        ensures
            c@ == self@.server_caps,
    {
        &self.server_caps
    }

    /// The address of the connection.
    pub fn tc_url(&self) -> (s: &str)
        ensures
            s@ == self@.tc_url,
    {
        self.tc_url.as_str()
    }

    /// Where to connect anew: the address that a request names, seen from the
    /// present one, or the present one.
    pub fn resolve_reconnect_url(&self, tc_url: Option<&str>) -> (r: String)
        ensures
            r@ == match tc_url {
                Some(reference) => resolved(self@.tc_url, reference@),
                None => self@.tc_url,
            },
    {
        match tc_url {
            Some(reference) => resolve_tc_url(self.tc_url.as_str(), reference),
            None => self.tc_url.clone(),
        }
    }

    /// Bytes that have come.
    pub fn receive(&mut self, bytes: &[u8])
        requires
            old(self)@.wf(),
        ensures
            final(self)@.wf(),
            final(self)@ == (ClientView {
                reader: ReaderView {
                    stream: old(self)@.reader.stream + bytes@,
                    ..old(self)@.reader
                },
                ..old(self)@
            }),
    {
        let stream = self.reader.inner_mut();
        put_bytes(stream, bytes);
    }

    /// No more bytes will come.
    pub fn end_of_input(&mut self)
        ensures
            final(self)@ == (ClientView { input_ended: true, ..old(self)@ }),
    {
        self.input_ended = true;
    }

    /// The bytes that are to go out.
    pub fn take_output(&mut self) -> (bytes: Vec<u8>)
        requires
            old(self)@.wf(),
        ensures
            final(self)@.wf(),
            bytes@ == old(self)@.writer.stream,
            final(self)@ == (ClientView {
                writer: WriterView { stream: Seq::empty(), ..old(self)@.writer },
                ..old(self)@
            }),
    {
        let stream = self.writer.inner_mut();
        let mut out: Vec<u8> = Vec::new();
        assert(out@ =~= Seq::empty());
        std::mem::swap(&mut out, stream);
        out
    }

    fn send(&mut self, csid: u32, m: &Message) -> (r: Result<()>)
        requires
            old(self)@.wf(),
            2 <= csid <= 65599,
        ensures
            final(self)@.wf(),
            final(self)@ == old(self)@.sent(csid, m@),
            r is Ok,
    {
        let r = self.writer.write_message(csid, m);
        let _flushed = self.writer.flush();
        r
    }

    /// Send the configuration of the H.264 decoder, which comes before any frame.
    pub fn send_video_sequence_header(&mut self, avc_c: &[u8]) -> (r: Result<()>)
        requires
            old(self)@.wf(),
        ensures
            final(self)@.wf(),
            r is Ok,
            final(self)@ == old(self)@.sent(
                CSID_VIDEO,
                video_message(
                    old(self)@.stream_id,
                    0,
                    avc_tag(true, AVC_PACKET_TYPE_SEQUENCE_HEADER, avc_c@),
                ),
            ),
    {
        let m = build_avc(self.stream_id, 0, true, AVC_PACKET_TYPE_SEQUENCE_HEADER, avc_c);
        self.send(CSID_VIDEO, &m)
    }

    /// Send one H.264 access unit.
    pub fn send_video(&mut self, timestamp_ms: u32, is_keyframe: bool, body: &[u8]) -> (r: Result<()>)
        requires
            old(self)@.wf(),
        ensures
            final(self)@.wf(),
            r is Ok,
            final(self)@ == old(self)@.sent(
                CSID_VIDEO,
                video_message(
                    old(self)@.stream_id,
                    timestamp_ms,
                    avc_tag(is_keyframe, AVC_PACKET_TYPE_NALU, body@),
                ),
            ),
    {
        let m = build_avc(self.stream_id, timestamp_ms, is_keyframe, AVC_PACKET_TYPE_NALU, body);
        self.send(CSID_VIDEO, &m)
    }

    /// Send the configuration of the AAC decoder, which comes before any frame.
    pub fn send_audio_sequence_header(&mut self, asc: &[u8]) -> (r: Result<()>)
        requires
            old(self)@.wf(),
        ensures
            final(self)@.wf(),
            r is Ok,
            final(self)@ == old(self)@.sent(
                CSID_AUDIO,
                audio_message(
                    old(self)@.stream_id,
                    0,
                    aac_tag(AAC_PACKET_TYPE_SEQUENCE_HEADER, asc@),
                ),
            ),
    {
        let m = build_aac(self.stream_id, 0, AAC_PACKET_TYPE_SEQUENCE_HEADER, asc);
        self.send(CSID_AUDIO, &m)
    }

    /// Send one AAC frame.
    pub fn send_audio(&mut self, timestamp_ms: u32, aac_frame: &[u8]) -> (r: Result<()>)
        requires
            old(self)@.wf(),
        ensures
            final(self)@.wf(),
            r is Ok,
            final(self)@ == old(self)@.sent(
                CSID_AUDIO,
                audio_message(
                    old(self)@.stream_id,
                    timestamp_ms,
                    aac_tag(AAC_PACKET_TYPE_RAW, aac_frame@),
                ),
            ),
    {
        let m = build_aac(self.stream_id, timestamp_ms, AAC_PACKET_TYPE_RAW, aac_frame);
        self.send(CSID_AUDIO, &m)
    }

    /// Send the metadata of the stream, for the server to keep.
    pub fn send_metadata(&mut self, metadata: Amf0Value) -> (r: Result<()>)
        requires
            old(self)@.wf(),
        ensures
            final(self)@.wf(),
            r is Ok,
            final(self)@ == old(self)@.sent(
                CSID_DATA,
                data_frame_message(old(self)@.stream_id, "onMetaData"@, metadata@),
            ),
    {
        self.send_data_frame("onMetaData", metadata)
    }

    /// Send a value under any name, for the server to keep.
    pub fn send_data_frame(&mut self, handler: &str, value: Amf0Value) -> (r: Result<()>)
        requires
            old(self)@.wf(),
        ensures
            final(self)@.wf(),
            r is Ok,
            final(self)@ == old(self)@.sent(
                CSID_DATA,
                data_frame_message(old(self)@.stream_id, handler@, value@),
            ),
    {
        let m = build_set_data_frame_named(self.stream_id, handler, &value);
        self.send(CSID_DATA, &m)
    }

    /// Take back a value that the server keeps.
    pub fn clear_data_frame(&mut self, handler: &str) -> (r: Result<()>)
        requires
            old(self)@.wf(),
        ensures
            final(self)@.wf(),
            r is Ok,
            final(self)@ == old(self)@.sent(
                CSID_DATA,
                clear_frame_message(old(self)@.stream_id, handler@),
            ),
    {
        let m = build_clear_data_frame(self.stream_id, handler);
        self.send(CSID_DATA, &m)
    }

    /// Take back the metadata of the stream.
    pub fn clear_metadata(&mut self) -> (r: Result<()>)
        requires
            old(self)@.wf(),
        ensures
            final(self)@.wf(),
            r is Ok,
            final(self)@ == old(self)@.sent(
                CSID_DATA,
                clear_frame_message(old(self)@.stream_id, "onMetaData"@),
            ),
    {
        self.clear_data_frame("onMetaData")
    }

    /// Send the metadata of the stream in AMF3.
    pub fn send_metadata_amf3(&mut self, metadata: Amf3Value) -> (r: Result<()>)
        requires
            old(self)@.wf(),
        ensures
            final(self)@.wf(),
            r is Ok,
            final(self)@ == old(self)@.sent(
                CSID_DATA,
                MessageView {
                    msg_type_id: MSG_DATA_AMF3,
                    msg_stream_id: old(self)@.stream_id,
                    timestamp: 0,
                    payload: amf3_metadata_payload(metadata@),
                },
            ),
    {
        let m = build_metadata_amf3(self.stream_id, &metadata);
        self.send(CSID_DATA, &m)
    }

    /// Send messages as one aggregate, on this client's stream whatever streams they
    /// name. Nothing is sent for no messages.
    pub fn send_aggregate(&mut self, subs: &[Message]) -> (r: Result<()>)
        requires
            old(self)@.wf(),
        ensures
            final(self)@.wf(),
            ({
                let id = old(self)@.stream_id;
                let all = on_stream(views(subs@), id);
                if all.len() == 0 {
                    r is Ok && final(self)@ == old(self)@
                } else {
                    match aggregate_of(id, all) {
                        Ok(m) => r is Ok && final(self)@ == old(self)@.sent(CSID_DATA, m),
                        Err(f) => outcome(r) == Err::<(), Fault>(f) && final(self)@ == old(self)@,
                    }
                }
            }),
    {
        if subs.len() == 0 {
            return Ok(());
        }
        let mut all: Vec<Message> = Vec::new();
        let mut i: usize = 0;
        while i < subs.len()
            invariant
                i <= subs@.len(),
                all@.len() == i,
                self@ == old(self)@,
                forall|k: int|
                    0 <= k < i ==> (#[trigger] all@[k])@ == (MessageView {
                        msg_stream_id: old(self)@.stream_id,
                        ..subs@[k]@
                    }),
            decreases subs@.len() - i,
        {
            all.push(
                Message {
                    msg_type_id: subs[i].msg_type_id,
                    msg_stream_id: self.stream_id,
                    timestamp: subs[i].timestamp,
                    payload: vstd::slice::slice_to_vec(subs[i].payload.as_slice()),
                },
            );
            i = i + 1;
        }
        assert(views(all@) =~= on_stream(views(subs@), self@.stream_id));
        match build_aggregate(self.stream_id, all.as_slice()) {
            Err(e) => Err(e),
            Ok(m) => self.send(CSID_DATA, &m),
        }
    }

    /// Send a ping that names a time.
    pub fn send_ping_request(&mut self, timestamp_ms: u32) -> (r: Result<()>)
        requires
            old(self)@.wf(),
        ensures
            final(self)@.wf(),
            r is Ok,
            final(self)@ == old(self)@.sent(
                CSID_PROTOCOL_CONTROL,
                control_message(
                    MSG_USER_CONTROL,
                    be16_bytes(USR_PING_REQUEST) + be32_bytes(timestamp_ms),
                ),
            ),
    {
        let m = build_user_control_ping_request(timestamp_ms);
        self.send(CSID_PROTOCOL_CONTROL, &m)
    }

    /// Send the encoded body of a shared object message in AMF0. Such messages go on the
    /// command chunk stream and belong to no stream.
    pub fn send_shared_object(&mut self, body: &[u8]) -> (r: Result<()>)
        requires
            old(self)@.wf(),
        ensures
            final(self)@.wf(),
            r is Ok,
            final(self)@ == old(self)@.sent(
                CSID_COMMAND,
                control_message(MSG_SHARED_OBJECT_AMF0, body@),
            ),
    {
        let payload = copy_range(body, 0, body.len());
        assert(payload@ =~= body@);
        let m = Message {
            msg_type_id: MSG_SHARED_OBJECT_AMF0,
            msg_stream_id: 0,
            timestamp: 0,
            payload,
        };
        self.send(CSID_COMMAND, &m)
    }

    /// Acknowledge after so many bytes from now on, and tell the peer so.
    pub fn adopt_window(&mut self, size: u32) -> (r: Result<()>)
        requires
            old(self)@.wf(),
        ensures
            final(self)@.wf(),
            r is Ok,
            final(self)@ == (ClientView {
                reader: with_window(old(self)@.reader, size),
                ..old(self)@
            }).sent(
                CSID_PROTOCOL_CONTROL,
                control_message(MSG_WINDOW_ACK_SIZE, be32_bytes(size)),
            ),
    {
        self.reader.set_window_ack_size(size);
        let m = build_window_ack_size(size);
        self.send(CSID_PROTOCOL_CONTROL, &m)
    }

    fn maybe_send_ack(&mut self) -> (r: Result<()>)
        requires
            old(self)@.wf(),
        ensures
            final(self)@.wf(),
            final(self)@ == old(self)@.acked(),
            r is Ok,
    {
        match self.reader.ack_due() {
            Some(n) => {
                let m = build_ack(n);
                self.send(CSID_PROTOCOL_CONTROL, &m)
            },
            None => Ok(()),
        }
    }

    fn classify_message(&mut self, msg: Message, queued: bool) -> (r: Result<ClientStep>)
        requires
            old(self)@.wf(),
        ensures
            final(self)@.wf(),
            outcome(r) == classified(old(self)@, msg@, queued).0,
            final(self)@ == classified(old(self)@, msg@, queued).1,
    {
        let t: u8 = msg.msg_type_id;
        if t == MSG_SET_CHUNK_SIZE {
            return match read_u32_be(msg.payload.as_slice()) {
                Err(e) => Err(e),
                Ok(n) => {
                    self.reader.set_chunk_size((n % 0x8000_0000) as usize);
                    Ok(ClientStep::Event(ClientEvent::Other))
                },
            };
        }
        if t == MSG_WINDOW_ACK_SIZE {
            return match read_u32_be(msg.payload.as_slice()) {
                Err(e) => Err(e),
                Ok(n) => {
                    self.reader.set_window_ack_size(n);
                    Ok(ClientStep::Event(ClientEvent::Other))
                },
            };
        }
        if t == MSG_SET_PEER_BANDWIDTH {
            return Ok(ClientStep::PeerBandwidth { payload: msg.payload, queued });
        }
        if t == MSG_USER_CONTROL {
            return match classify_user_control(msg.payload.as_slice()) {
                Err(e) => Err(e),
                Ok(Control::Tell(e)) => Ok(ClientStep::Event(e)),
                Ok(Control::Answer(payload)) => {
                    let reply = Message {
                        msg_type_id: MSG_USER_CONTROL,
                        msg_stream_id: 0,
                        timestamp: 0,
                        payload,
                    };
                    let _sent = self.send(CSID_PROTOCOL_CONTROL, &reply);
                    Ok(ClientStep::Event(ClientEvent::Other))
                },
            };
        }
        if t == MSG_COMMAND_AMF0 {
            return match decode_all(msg.payload.as_slice()) {
                Err(e) => Err(e),
                Ok(values) => {
                    let name = name_of(&values);
                    if same_text(name.as_str(), "onStatus") || same_text(name.as_str(), "_result")
                        || same_text(name.as_str(), "_error") {
                        Ok(ClientStep::Event(classify_command(values, None)))
                    } else {
                        Ok(ClientStep::Command { values, queued })
                    }
                },
            };
        }
        if t == MSG_COMMAND_AMF3 {
            return Ok(ClientStep::CommandAmf3 { payload: msg.payload, queued });
        }
        if t == MSG_SHARED_OBJECT_AMF0 || t == MSG_SHARED_OBJECT_AMF3 {
            return Ok(ClientStep::SharedObject(msg));
        }
        if t == MSG_AGGREGATE {
            return match parse_aggregate(&msg) {
                Err(e) => Err(e),
                Ok(subs) => {
                    self.queue(subs);
                    Ok(ClientStep::Event(ClientEvent::Other))
                },
            };
        }
        Ok(ClientStep::Event(ClientEvent::Other))
    }

    fn queue(&mut self, subs: Vec<Message>)
        ensures
            final(self)@ == (ClientView {
                pending: old(self)@.pending + views(subs@),
                ..old(self)@
            }),
    {
        let ghost was = views(self.pending@);
        let ghost added = views(subs@);
        let mut subs = subs;
        self.pending.append(&mut subs);
        assert(views(self.pending@) =~= was + added);
    }

    /// Look at the connection once. `Ok(None)` means that the server has ended it and
    /// all that it sent has been told.
    pub fn poll_event(&mut self) -> (r: Result<Option<ClientStep>>)
        requires
            old(self)@.wf(),
        ensures
            final(self)@.wf(),
            match r {
                Ok(Some(step)) => polled(old(self)@).0 == Ok::<Option<StepView>, Fault>(
                    Some(step@),
                ),
                Ok(None) => polled(old(self)@).0 == Ok::<Option<StepView>, Fault>(None),
                Err(e) => polled(old(self)@).0 == Err::<Option<StepView>, Fault>(e@),
            },
            final(self)@ == polled(old(self)@).1,
    {
        loop
            invariant
                self@.wf(),
                polled(self@) == polled(old(self)@),
            decreases self@.reader.stream.len(), weight(self@.pending),
        {
            if self.read_eof {
                return Ok(None);
            }
            let ghost before = self@;
            if self.pending.len() > 0 {
                proof {
                    lemma_pending_lighter(before);
                }
                let sub = self.pending.remove(0);
                proof {
                    assert(before.pending[0] == sub@);
                    assert(views(self.pending@) =~= before.pending.subrange(
                        1,
                        before.pending.len() as int,
                    ));
                }
                match self.classify_message(sub, true) {
                    Err(e) => {
                        return Err(e);
                    },
                    Ok(ClientStep::Event(ClientEvent::Other)) => {},
                    Ok(step) => {
                        return Ok(Some(step));
                    },
                }
            } else {
                proof {
                    assert(before.pending =~= Seq::empty());
                    law_reading_takes_bytes(before.reader);
                }
                let msg = match self.reader.read_message() {
                    Ok(m) => m,
                    Err(Error::UnexpectedEof) => {
                        if self.input_ended {
                            self.read_eof = true;
                            return Ok(None);
                        }
                        return Ok(Some(ClientStep::NeedInput));
                    },
                    Err(e) => {
                        return Err(e);
                    },
                };
                let _acked = self.maybe_send_ack();
                if msg.msg_type_id == MSG_AGGREGATE {
                    match parse_aggregate(&msg) {
                        Err(e) => {
                            return Err(e);
                        },
                        Ok(subs) => {
                            self.queue(subs);
                        },
                    }
                } else {
                    return match self.classify_message(msg, false) {
                        Err(e) => Err(e),
                        Ok(step) => Ok(Some(step)),
                    };
                }
            }
        }
    }

    fn next_transaction(&mut self) -> (d: Double)
        requires
            old(self)@.wf(),
        ensures
            final(self)@.wf(),
            d.bits == nat_bits(old(self)@.next_tx as nat),
            final(self)@ == (ClientView { next_tx: after(old(self)@.next_tx), ..old(self)@ }),
    {
        let d = Double::from_u64(self.next_tx);
        if self.next_tx < LARGEST_EXACT {
            self.next_tx = self.next_tx + 1;
        }
        d
    }

    /// Call a procedure of the server. Where an answer is expected, the transaction id
    /// that it will name is a new one, else it is zero; it is given back.
    pub fn call(
        &mut self,
        procedure: &str,
        command_object: Amf0Value,
        arguments: &[Amf0Value],
        expects_response: bool,
    ) -> (r: Result<Double>)
        requires
            old(self)@.wf(),
        ensures
            final(self)@.wf(),
            ({
                let tx = if expects_response {
                    Double { bits: nat_bits(old(self)@.next_tx as nat) }
                } else {
                    Double { bits: 0 }
                };
                &&& r == Ok::<Double, Error>(tx)
                &&& final(self)@ == (ClientView {
                    next_tx: if expects_response {
                        after(old(self)@.next_tx)
                    } else {
                        old(self)@.next_tx
                    },
                    ..old(self)@
                }).sent(
                    CSID_COMMAND,
                    command_message(0, procedure@, tx, command_object@, views(arguments@)),
                )
            }),
    {
        let tx = if expects_response {
            self.next_transaction()
        } else {
            Double { bits: 0 }
        };
        let m = build_call(procedure, tx, &command_object, arguments);
        let _sent = self.send(CSID_COMMAND, &m);
        Ok(tx)
    }

    fn reply(
        &mut self,
        name: &str,
        transaction_id: Double,
        command_object: Amf0Value,
        response: Amf0Value,
    ) -> (r: Result<()>)
        requires
            old(self)@.wf(),
        ensures
            final(self)@.wf(),
            r is Ok,
            final(self)@ == old(self)@.sent(
                CSID_COMMAND,
                command_message(0, name@, transaction_id, command_object@, seq![response@]),
            ),
    {
        let mut args: Vec<Amf0Value> = Vec::new();
        args.push(response);
        assert(views(args@) =~= seq![response@]);
        let m = build_call(name, transaction_id, &command_object, args.as_slice());
        self.send(CSID_COMMAND, &m)
    }

    /// Answer a call of the server.
    pub fn reply_call_result(
        &mut self,
        transaction_id: Double,
        command_object: Amf0Value,
        response: Amf0Value,
    ) -> (r: Result<()>)
        requires
            old(self)@.wf(),
        ensures
            final(self)@.wf(),
            r is Ok,
            final(self)@ == old(self)@.sent(
                CSID_COMMAND,
                command_message(0, "_result"@, transaction_id, command_object@, seq![response@]),
            ),
    {
        self.reply("_result", transaction_id, command_object, response)
    }

    /// Answer a call of the server that has failed.
    pub fn reply_call_error(
        &mut self,
        transaction_id: Double,
        command_object: Amf0Value,
        response: Amf0Value,
    ) -> (r: Result<()>)
        requires
            old(self)@.wf(),
        ensures
            final(self)@.wf(),
            r is Ok,
            final(self)@ == old(self)@.sent(
                CSID_COMMAND,
                command_message(0, "_error"@, transaction_id, command_object@, seq![response@]),
            ),
    {
        self.reply("_error", transaction_id, command_object, response)
    }

    /// Tell the server that the stream is closed.
    pub fn close(&mut self) -> (r: Result<()>)
        requires
            old(self)@.wf(),
        ensures
            final(self)@.wf(),
            r is Ok,
            final(self)@ == (ClientView {
                next_tx: after(old(self)@.next_tx),
                ..old(self)@
            }).sent(
                CSID_COMMAND,
                command_message(
                    old(self)@.stream_id,
                    "closeStream"@,
                    Double { bits: nat_bits(old(self)@.next_tx as nat) },
                    Amf0::Null,
                    seq![Amf0::Number(nat_bits(old(self)@.stream_id as nat))],
                ),
            ),
    {
        let tx = self.next_transaction();
        let mut args: Vec<Amf0Value> = Vec::new();
        args.push(Amf0Value::Number(Double::from_u32(self.stream_id)));
        assert(views(args@) =~= seq![Amf0::Number(nat_bits(self.stream_id as nat))]);
        let m = build_command(self.stream_id, "closeStream", tx, &Amf0Value::Null, args.as_slice());
        self.send(CSID_COMMAND, &m)
    }
}

/// The transaction id after `n`. Where doubles no longer tell the next number
/// apart, it stays.
pub open spec fn after(n: u64) -> u64 {
    if n < LARGEST_EXACT {
        (n + 1) as u64
    } else {
        n
    }
}

/// Messages, moved to a stream.
pub open spec fn on_stream(subs: Seq<MessageView>, stream_id: u32) -> Seq<MessageView> {
    Seq::new(subs.len(), |i: int| MessageView { msg_stream_id: stream_id, ..subs[i] })
}

// ---------------------------------------------------------------------------
// Laws
// ---------------------------------------------------------------------------

/// Once the connection has ended, a client says so for ever, and nothing changes.
pub proof fn law_end_stays(c: ClientView)
    requires
        c.reader.wf(),
        c.read_eof,
    ensures
        polled(c) == (Ok::<Option<StepView>, Fault>(None), c),
{
}

/// As long as nothing has come, a look at the connection asks for input and
/// changes nothing; once no more can come, it tells the end.
pub proof fn law_empty_input(c: ClientView)
    requires
        c.wf(),
        !c.read_eof,
        c.pending.len() == 0,
        c.reader.stream.len() == 0,
    ensures
        !c.input_ended ==> polled(c) == (
            Ok::<Option<StepView>, Fault>(Some(StepView::NeedInput)),
            c,
        ),
        c.input_ended ==> polled(c) == (
            Ok::<Option<StepView>, Fault>(None),
            ClientView { read_eof: true, ..c },
        ),
{
    reveal(crate::chunk::chunk_step);
    reveal(crate::chunk::chunk_header);
}

/// A look at the connection never takes back or changes bytes that are to go out:
/// it only adds to them.
pub proof fn law_polling_only_adds_output(c: ClientView)
    requires
        c.wf(),
    ensures
        polled(c).1.wf(),
        c.writer.stream.len() <= polled(c).1.writer.stream.len(),
        polled(c).1.writer.stream.subrange(0, c.writer.stream.len() as int) == c.writer.stream,
    decreases c.reader.stream.len(), weight(c.pending),
{
    let all = c.writer.stream;
    assert(all.subrange(0, all.len() as int) =~= all);
    if c.read_eof {
    } else if c.pending.len() > 0 {
        lemma_pending_lighter(c);
        let rest = ClientView { pending: c.pending.subrange(1, c.pending.len() as int), ..c };
        lemma_classified_adds(rest, c.pending[0], true);
        let (r, c2) = classified(rest, c.pending[0], true);
        if r == nothing() {
            law_polling_only_adds_output(c2);
            lemma_front_kept(c.writer.stream, c2.writer.stream, polled(c2).1.writer.stream);
        }
    } else {
        law_reading_takes_bytes(c.reader);
        let (m, reader) = read_from(c.reader);
        let c1 = ClientView { reader, ..c };
        if m is Ok {
            let c2 = c1.acked();
            lemma_sent_adds(c1);
            let msg = m->Ok_0;
            if msg.msg_type_id == MSG_AGGREGATE {
                if let Ok(subs) = aggregate_parts(msg) {
                    let c3 = ClientView { pending: c2.pending + subs, ..c2 };
                    law_polling_only_adds_output(c3);
                    lemma_front_kept(c.writer.stream, c3.writer.stream, polled(c3).1.writer.stream);
                }
            } else {
                lemma_classified_adds(c2, msg, false);
                lemma_front_kept(
                    c.writer.stream,
                    c2.writer.stream,
                    classified(c2, msg, false).1.writer.stream,
                );
            }
        }
    }
}

proof fn lemma_front_kept(a: Seq<u8>, b: Seq<u8>, c: Seq<u8>)
    requires
        a.len() <= b.len() <= c.len(),
        b.subrange(0, a.len() as int) == a,
        c.subrange(0, b.len() as int) == b,
    ensures
        c.subrange(0, a.len() as int) == a,
{
    assert forall|i: int| 0 <= i < a.len() implies c[i] == a[i] by {
        assert(b[i] == b.subrange(0, a.len() as int)[i]);
        assert(c[i] == c.subrange(0, b.len() as int)[i]);
    }
    assert(c.subrange(0, a.len() as int) =~= a);
}

proof fn lemma_sent_adds(c: ClientView)
    requires
        c.wf(),
    ensures
        c.acked().wf(),
        c.acked().reader.stream == c.reader.stream,
        c.acked().pending == c.pending,
        c.writer.stream.len() <= c.acked().writer.stream.len(),
        c.acked().writer.stream.subrange(0, c.writer.stream.len() as int) == c.writer.stream,
{
    assert(c.acked().writer.stream.subrange(0, c.writer.stream.len() as int) =~= c.writer.stream);
}

proof fn lemma_classified_adds(c: ClientView, m: MessageView, queued: bool)
    requires
        c.wf(),
    ensures
        ({
            let c2 = classified(c, m, queued).1;
            &&& c2.wf()
            &&& c.writer.stream.len() <= c2.writer.stream.len()
            &&& c2.writer.stream.subrange(0, c.writer.stream.len() as int) == c.writer.stream
        }),
{
    let c2 = classified(c, m, queued).1;
    assert(c2.writer.stream.subrange(0, c.writer.stream.len() as int) =~= c.writer.stream);
}

} // verus!
