//! The chunk stream: messages cut into chunks, and put together again.
//!
//! Every message travels as one or more chunks. A chunk has a 1..=3 byte basic
//! header carrying `(fmt, csid)`, a 0..=11 byte message header whose shape
//! depends on `fmt`, an optional 4-byte extended timestamp, and payload.
//!
//! * [`ChunkReader`] takes the bytes that arrived and gives whole messages.
//! * [`ChunkWriter`] takes messages and gives the bytes to send, preferring
//!   the densest header that carries what changed since the last message on
//!   the chunk stream.
//!
//! Chunk stream ids by convention: `2` protocol control, `3` commands, `4`
//! audio, `5` video, `6` data.

use std::collections::HashMap;
use vstd::prelude::*;
use vstd::slice::slice_subrange;
use crate::error::{invalid_chunk, outcome, Error, Fault, Result};
use crate::text::{cat3, decimal_text, fixed_hex_text};
#[allow(unused_imports)]
use crate::text::{decimal, fixed_hex};
use crate::wire::{copy_range, get_be24, get_be32, get_le32, put_be24, put_be32, put_bytes, put_le32};
#[allow(unused_imports)]
use crate::wire::{be24, be24_bytes, be32, be32_bytes, from, le32, le32_bytes, lemma_from_fields};

verus! {

broadcast use vstd::std_specs::hash::group_hash_axioms;

/// Largest payload of a chunk until a Set Chunk Size message changes it.
pub const DEFAULT_CHUNK_SIZE: usize = 128;

/// Largest chunk size that can be negotiated.
pub const MAX_CHUNK_SIZE: usize = 0x00FF_FFFF;

/// One whole message, after the chunk headers are gone.
#[derive(Debug, Clone, PartialEq, Eq)]
pub struct Message {
    pub msg_type_id: u8,
    pub msg_stream_id: u32,
    /// Absolute timestamp, in milliseconds.
    pub timestamp: u32,
    pub payload: Vec<u8>,
}

/// The mathematical view of [`Message`].
pub struct MessageView {
    pub msg_type_id: u8,
    pub msg_stream_id: u32,
    pub timestamp: u32,
    pub payload: Seq<u8>,
}

impl View for Message {
    type V = MessageView;

    open spec fn view(&self) -> MessageView {
        MessageView {
            msg_type_id: self.msg_type_id,
            msg_stream_id: self.msg_stream_id,
            timestamp: self.timestamp,
            payload: self.payload@,
        }
    }
}

/// What a message stream id stands for.
#[derive(Debug, Clone, Copy, PartialEq, Eq, Structural)]
pub enum MessageStreamKind {
    /// Id 0: NetConnection commands, protocol control and user control.
    Control,
    /// A NetStream handle, 1..=`0x00FF_FFFF`.
    NetStream(u32),
    /// A bit is set above the 3-byte field.
    Reserved(u32),
}

/// What message stream id `id` stands for.
pub open spec fn stream_kind_of(id: u32) -> MessageStreamKind {
    if id == 0 {
        MessageStreamKind::Control
    } else if id < 0x0100_0000 {
        MessageStreamKind::NetStream(id)
    } else {
        MessageStreamKind::Reserved(id)
    }
}

impl MessageView {
    /// Why this message breaks the rules for stream ids, or that it keeps them:
    /// no bit above the 3-byte field, and id 0 for the types 1..=6.
    pub open spec fn control_invariants(self) -> core::result::Result<(), Fault> {
        if self.msg_stream_id >= 0x0100_0000 {
            Err(
                Fault::ProtocolViolation(
                    "message stream id 0x"@ + fixed_hex(self.msg_stream_id as nat, 8)
                        + " sets reserved high byte (§4.1: 3-byte field)"@,
                ),
            )
        } else if 1 <= self.msg_type_id <= 6 && self.msg_stream_id != 0 {
            Err(
                Fault::ProtocolViolation(
                    "protocol-control message type "@ + decimal(self.msg_type_id as nat) + (
                    " carries non-zero msg_stream_id "@ + decimal(self.msg_stream_id as nat)
                        + " (§5 requires 0)"@),
                ),
            )
        } else {
            Ok(())
        }
    }
}

impl Message {
    /// What this message's stream id stands for.
    pub fn stream_kind(&self) -> (k: MessageStreamKind)
        ensures
            k == stream_kind_of(self.msg_stream_id),
    {
        if self.msg_stream_id == 0 {
            MessageStreamKind::Control
        } else if self.msg_stream_id < 0x0100_0000 {
            MessageStreamKind::NetStream(self.msg_stream_id)
        } else {
            MessageStreamKind::Reserved(self.msg_stream_id)
        }
    }

    /// Whether this message rides the control stream.
    pub fn is_control_stream(&self) -> (b: bool)
        ensures
            b == (self.msg_stream_id == 0),
    {
        matches!(self.stream_kind(), MessageStreamKind::Control)
    }

    /// Check that the stream id stays in its 3-byte field and that a
    /// protocol-control message (types 1..=6) rides the control stream.
    pub fn validate_protocol_control_invariants(&self) -> (r: Result<()>)
        ensures
            outcome(r) == self@.control_invariants(),
    {
        if matches!(self.stream_kind(), MessageStreamKind::Reserved(_)) {
            let id = fixed_hex_text(self.msg_stream_id as u64, 8);
            return Err(
                Error::ProtocolViolation(
                    cat3(
                        "message stream id 0x",
                        id.as_str(),
                        " sets reserved high byte (§4.1: 3-byte field)",
                    ),
                ),
            );
        }
        if self.msg_type_id >= 1 && self.msg_type_id <= 6 && self.msg_stream_id != 0 {
            let ty = decimal_text(self.msg_type_id as u64);
            let id = decimal_text(self.msg_stream_id as u64);
            let tail = cat3(" carries non-zero msg_stream_id ", id.as_str(), " (§5 requires 0)");
            return Err(
                Error::ProtocolViolation(
                    cat3("protocol-control message type ", ty.as_str(), tail.as_str()),
                ),
            );
        }
        Ok(())
    }
}

// ---------------------------------------------------------------------------
// Reading: the model
// ---------------------------------------------------------------------------

/// What a reader remembers of one chunk stream.
pub struct InView {
    pub msg_type_id: u8,
    pub msg_stream_id: u32,
    pub msg_length: u32,
    pub timestamp: u32,
    pub last_delta: u32,
    /// Whether the last chunk of fmt 0, 1 or 2 had an extended timestamp.
    pub last_had_ext_ts: bool,
    /// What has arrived of a message that is not complete.
    pub partial: Seq<u8>,
}

/// What a reader is: the bytes it has not taken yet, and what it remembers.
pub struct ReaderView {
    pub stream: Seq<u8>,
    pub chunk_size: usize,
    pub states: Map<u32, InView>,
    /// Bytes taken so far, modulo 2^32.
    pub received_bytes: u32,
    pub window_ack_size: u32,
    /// `received_bytes` when the last acknowledgement fell due.
    pub last_ack_bytes: u32,
}

/// `a + b` modulo 2^32.
pub open spec fn wrap_add(a: u32, b: int) -> u32 {
    ((a + b) % 0x1_0000_0000) as u32
}

/// `a - b` modulo 2^32.
pub open spec fn wrap_sub(a: u32, b: u32) -> u32 {
    ((a - b) % 0x1_0000_0000) as u32
}

fn add_wrapping(a: u32, b: u32) -> (c: u32)
    ensures
        c == wrap_add(a, b as int),
{
    a.wrapping_add(b)
}

/// The basic header that `s` starts with: its length, the chunk stream id and
/// the fmt; `None` if `s` ends inside it.
pub open spec fn basic_header(s: Seq<u8>) -> Option<(int, u32, u8)> {
    if s.len() < 1 {
        None
    } else {
        let fmt = s[0] / 64;
        let low = s[0] % 64;
        if low == 0 {
            if s.len() < 2 {
                None
            } else {
                Some((2, (s[1] + 64) as u32, fmt))
            }
        } else if low == 1 {
            if s.len() < 3 {
                None
            } else {
                Some((3, (s[1] + s[2] * 256 + 64) as u32, fmt))
            }
        } else {
            Some((1, low as u32, fmt))
        }
    }
}

/// Bytes of a message header of the given fmt, without extended timestamp.
pub open spec fn header_width(fmt: u8) -> int {
    if fmt == 0 {
        11
    } else if fmt == 1 {
        7
    } else if fmt == 2 {
        3
    } else {
        0
    }
}

/// What the header at the front of the input comes to.
pub enum HeaderStep {
    /// The input ends inside the header.
    Short,
    /// The header makes no sense here; it is `used` bytes long.
    Bad { used: int, fault: Fault },
    /// The header is `used` bytes long and leaves the chunk stream so.
    Ready { used: int, csid: u32, state: InView },
}

/// The error for a header that leans on a chunk stream never seen.
pub open spec fn unprimed(fmt: u8) -> Fault {
    if fmt == 1 {
        Fault::InvalidChunk("fmt 1 without prior fmt 0"@)
    } else if fmt == 2 {
        Fault::InvalidChunk("fmt 2 without prior fmt 0/1"@)
    } else {
        Fault::InvalidChunk("fmt 3 without prior fmt 0/1/2"@)
    }
}

/// A fmt-3 header whose basic header is `p` bytes long. It has no fields of its
/// own: it repeats the extended timestamp where the last full header had one,
/// and where it starts a new message the clock moves on by the last delta.
pub open spec fn short_header(s: Seq<u8>, p: int, csid: u32, states: Map<u32, InView>) -> HeaderStep {
    let st = states[csid];
    let used = p + if st.last_had_ext_ts {
        4int
    } else {
        0
    };
    if !states.contains_key(csid) {
        HeaderStep::Bad { used: p, fault: unprimed(3) }
    } else if s.len() < used {
        HeaderStep::Short
    } else if st.partial.len() == 0 {
        HeaderStep::Ready {
            used,
            csid,
            state: InView { timestamp: wrap_add(st.timestamp, st.last_delta as int), ..st },
        }
    } else {
        HeaderStep::Ready { used, csid, state: st }
    }
}

/// The state that a full header (fmt 0, 1 or 2) leaves, given the timestamp or
/// delta that it carries. A new message starts with each.
pub open spec fn full_header_state(
    s: Seq<u8>,
    p: int,
    fmt: u8,
    st: InView,
    value: u32,
    ext: bool,
) -> InView {
    if fmt == 0 {
        InView {
            msg_type_id: s[p + 6],
            msg_stream_id: le32(s, p + 7),
            msg_length: be24(s, p + 3),
            timestamp: value,
            last_delta: value,
            last_had_ext_ts: ext,
            partial: Seq::empty(),
        }
    } else if fmt == 1 {
        InView {
            msg_type_id: s[p + 6],
            msg_length: be24(s, p + 3),
            timestamp: wrap_add(st.timestamp, value as int),
            last_delta: value,
            last_had_ext_ts: ext,
            partial: Seq::empty(),
            ..st
        }
    } else {
        InView {
            timestamp: wrap_add(st.timestamp, value as int),
            last_delta: value,
            last_had_ext_ts: ext,
            partial: Seq::empty(),
            ..st
        }
    }
}

/// A header of fmt 0, 1 or 2 whose basic header is `p` bytes long.
pub open spec fn full_header(
    s: Seq<u8>,
    p: int,
    csid: u32,
    fmt: u8,
    states: Map<u32, InView>,
) -> HeaderStep {
    let q = p + header_width(fmt);
    let ext = be24(s, p) == 0x00FF_FFFF;
    let used = q + if ext {
        4int
    } else {
        0
    };
    let value = if ext {
        be32(s, q)
    } else {
        be24(s, p)
    };
    if s.len() < q || s.len() < used {
        HeaderStep::Short
    } else if fmt != 0 && !states.contains_key(csid) {
        HeaderStep::Bad { used, fault: unprimed(fmt) }
    } else {
        HeaderStep::Ready {
            used,
            csid,
            state: full_header_state(s, p, fmt, states[csid], value, ext),
        }
    }
}

/// The header at the front of `s`.
#[verifier::opaque]
pub open spec fn chunk_header(s: Seq<u8>, states: Map<u32, InView>) -> HeaderStep {
    match basic_header(s) {
        None => HeaderStep::Short,
        Some((p, csid, fmt)) => if fmt == 3 {
            short_header(s, p, csid, states)
        } else {
            full_header(s, p, csid, fmt, states)
        },
    }
}

/// Payload bytes that the next chunk of `st` carries.
pub open spec fn chunk_payload(st: InView, chunk_size: int) -> int {
    let need = st.msg_length - st.partial.len();
    if need < chunk_size {
        need
    } else {
        chunk_size
    }
}

/// What the chunk at the front of the input comes to.
pub enum ChunkStep {
    Short,
    Bad { used: int, fault: Fault },
    More { used: int, states: Map<u32, InView> },
    Done { used: int, states: Map<u32, InView>, message: MessageView },
}

/// The chunk at the front of `s`.
#[verifier::opaque]
pub open spec fn chunk_step(s: Seq<u8>, chunk_size: int, states: Map<u32, InView>) -> ChunkStep {
    match chunk_header(s, states) {
        HeaderStep::Short => ChunkStep::Short,
        HeaderStep::Bad { used, fault } => ChunkStep::Bad { used, fault },
        HeaderStep::Ready { used, csid, state } => {
            let end = used + chunk_payload(state, chunk_size);
            if s.len() < end {
                ChunkStep::Short
            } else {
                let partial = state.partial + s.subrange(used, end);
                if partial.len() >= state.msg_length {
                    ChunkStep::Done {
                        used: end,
                        states: states.insert(csid, InView { partial: Seq::empty(), ..state }),
                        message: MessageView {
                            msg_type_id: state.msg_type_id,
                            msg_stream_id: state.msg_stream_id,
                            timestamp: state.timestamp,
                            payload: partial,
                        },
                    }
                } else {
                    ChunkStep::More {
                        used: end,
                        states: states.insert(csid, InView { partial, ..state }),
                    }
                }
            }
        },
    }
}

impl ReaderView {
    /// The reader after it has taken `used` bytes, remembering `states`.
    pub open spec fn advanced(self, used: int, states: Map<u32, InView>) -> ReaderView {
        ReaderView {
            stream: from(self.stream, used),
            received_bytes: wrap_add(self.received_bytes, used),
            states,
            ..self
        }
    }

    /// No message is longer than it says, and the chunk size is legal.
    pub open spec fn wf(self) -> bool {
        &&& 1 <= self.chunk_size <= MAX_CHUNK_SIZE
        &&& forall|c: u32| #[trigger]
            self.states.contains_key(c) ==> self.states[c].partial.len()
                <= self.states[c].msg_length < 0x0100_0000
    }
}

/// Taking one message: what it is, or the error, and the reader afterwards.
/// Chunks are taken whole; one that has not arrived in full stays in the
/// stream, and the reader reports [`Fault::UnexpectedEof`].
pub open spec fn read_from(m: ReaderView) -> (
    core::result::Result<MessageView, Fault>,
    ReaderView,
)
    decreases m.stream.len(),
{
    match chunk_step(m.stream, m.chunk_size as int, m.states) {
        ChunkStep::Short => (Err(Fault::UnexpectedEof), m),
        ChunkStep::Bad { used, fault } => (Err(fault), m.advanced(used, m.states)),
        ChunkStep::Done { used, states, message } => (Ok(message), m.advanced(used, states)),
        ChunkStep::More { used, states } => if 0 < used <= m.stream.len() {
            read_from(m.advanced(used, states))
        } else {
            (Err(Fault::UnexpectedEof), m)
        },
    }
}

/// Asking for an acknowledgement: the sequence number to send, if a full
/// window has come since the last one, and the reader afterwards.
pub open spec fn ack_from(m: ReaderView) -> (Option<u32>, ReaderView) {
    if m.window_ack_size != 0 && wrap_sub(m.received_bytes, m.last_ack_bytes)
        >= m.window_ack_size {
        (Some(m.received_bytes), ReaderView { last_ack_bytes: m.received_bytes, ..m })
    } else {
        (None, m)
    }
}

/// The reader with a new window, counted from here.
pub open spec fn with_window(m: ReaderView, size: u32) -> ReaderView {
    ReaderView { window_ack_size: size, last_ack_bytes: m.received_bytes, ..m }
}

/// Dropping the incomplete message of a chunk stream: whether there was one,
/// and the reader afterwards. What later headers lean on stays.
pub open spec fn abort_from(m: ReaderView, csid: u32) -> (bool, ReaderView) {
    let st = m.states[csid];
    if m.states.contains_key(csid) && st.partial.len() > 0 {
        (
            true,
            ReaderView {
                states: m.states.insert(csid, InView { partial: Seq::empty(), ..st }),
                ..m
            },
        )
    } else {
        (false, m)
    }
}

// ---------------------------------------------------------------------------
// Reading: the code
// ---------------------------------------------------------------------------

struct InState {
    msg_type_id: u8,
    msg_stream_id: u32,
    msg_length: u32,
    timestamp: u32,
    last_delta: u32,
    last_had_ext_ts: bool,
    partial: Vec<u8>,
}

impl View for InState {
    type V = InView;

    closed spec fn view(&self) -> InView {
        InView {
            msg_type_id: self.msg_type_id,
            msg_stream_id: self.msg_stream_id,
            msg_length: self.msg_length,
            timestamp: self.timestamp,
            last_delta: self.last_delta,
            last_had_ext_ts: self.last_had_ext_ts,
            partial: self.partial@,
        }
    }
}

/// What a header says of its chunk stream, before the payload is taken.
#[derive(Clone, Copy)]
struct Header {
    /// Where the payload starts.
    end: usize,
    csid: u32,
    msg_type_id: u8,
    msg_stream_id: u32,
    msg_length: u32,
    timestamp: u32,
    last_delta: u32,
    last_had_ext_ts: bool,
    /// Whether a new message starts here.
    fresh: bool,
}

impl Header {
    spec fn state(self, partial: Seq<u8>) -> InView {
        InView {
            msg_type_id: self.msg_type_id,
            msg_stream_id: self.msg_stream_id,
            msg_length: self.msg_length,
            timestamp: self.timestamp,
            last_delta: self.last_delta,
            last_had_ext_ts: self.last_had_ext_ts,
            partial: if self.fresh {
                Seq::empty()
            } else {
                partial
            },
        }
    }
}

enum Parsed {
    Short,
    Bad(usize, Error),
    Ready(Header),
}

enum Step {
    Short,
    Bad(usize, Error),
    More(usize),
    Done(usize, Message),
}

/// Puts messages together from the bytes that have arrived.
pub struct ChunkReader {
    stream: Vec<u8>,
    chunk_size: usize,
    states: HashMap<u32, InState>,
    received_bytes: u32,
    window_ack_size: u32,
    last_ack_bytes: u32,
}

spec fn view_states(m: Map<u32, InState>) -> Map<u32, InView> {
    m.map_values(|s: InState| s@)
}

impl View for ChunkReader {
    type V = ReaderView;

    closed spec fn view(&self) -> ReaderView {
        ReaderView {
            stream: self.stream@,
            chunk_size: self.chunk_size,
            states: view_states(self.states@),
            received_bytes: self.received_bytes,
            window_ack_size: self.window_ack_size,
            last_ack_bytes: self.last_ack_bytes,
        }
    }
}

impl ChunkReader {
    /// What this reader is once it has taken the first `pos` bytes.
    spec fn at(&self, pos: int) -> ReaderView {
        ReaderView { stream: from(self.stream@, pos), ..self@ }
    }

    /// A reader of `stream`, the bytes that have arrived so far.
    pub fn new(stream: Vec<u8>) -> (r: ChunkReader)
        ensures
            r@.wf(),
            r@ == (ReaderView {
                stream: stream@,
                chunk_size: DEFAULT_CHUNK_SIZE,
                states: Map::empty(),
                received_bytes: 0,
                window_ack_size: 0,
                last_ack_bytes: 0,
            }),
    {
        let r = ChunkReader {
            stream,
            chunk_size: DEFAULT_CHUNK_SIZE,
            states: HashMap::new(),
            received_bytes: 0,
            window_ack_size: 0,
            last_ack_bytes: 0,
        };
        assert(r@.states =~= Map::empty());
        r
    }

    /// Bytes taken so far: the sequence number of an acknowledgement, modulo
    /// 2^32.
    pub fn received_bytes(&self) -> (n: u32)
        ensures
            n == self@.received_bytes,
    {
        self.received_bytes
    }

    /// The window the peer asked for, or 0.
    pub fn window_ack_size(&self) -> (n: u32)
        ensures
            n == self@.window_ack_size,
    {
        self.window_ack_size
    }

    /// Record the window that the peer asked for, and count anew from here.
    /// 0 switches acknowledgements off.
    pub fn set_window_ack_size(&mut self, size: u32)
        requires
            old(self)@.wf(),
        ensures
            final(self)@.wf(),
            final(self)@ == with_window(old(self)@, size),
    {
        self.window_ack_size = size;
        self.last_ack_bytes = self.received_bytes;
        assert(self@.states == old(self)@.states);
    }

    /// The sequence number to acknowledge, if a full window of bytes has come
    /// since the last one.
    pub fn ack_due(&mut self) -> (r: Option<u32>)
        requires
            old(self)@.wf(),
        ensures
            final(self)@.wf(),
            (r, final(self)@) == ack_from(old(self)@),
    {
        if self.window_ack_size == 0 {
            return None;
        }
        let since: u32 = self.received_bytes.wrapping_sub(self.last_ack_bytes);
        if since >= self.window_ack_size {
            self.last_ack_bytes = self.received_bytes;
            assert(self@.states == old(self)@.states);
            Some(self.received_bytes)
        } else {
            None
        }
    }

    /// Set the largest chunk payload, brought into the legal range. The reader
    /// does not follow Set Chunk Size messages by itself.
    pub fn set_chunk_size(&mut self, size: usize)
        requires
            old(self)@.wf(),
        ensures
            final(self)@.wf(),
            final(self)@ == (ReaderView { chunk_size: clamped(size), ..old(self)@ }),
    {
        self.chunk_size = clamp_chunk_size(size);
    }

    /// The largest chunk payload.
    pub fn chunk_size(&self) -> (n: usize)
        ensures
            n == self@.chunk_size,
    {
        self.chunk_size
    }

    /// Drop the incomplete message on a chunk stream, as an Abort message asks;
    /// what later headers lean on stays. Returns whether there was anything to
    /// drop.
    pub fn abort_partial(&mut self, chunk_stream_id: u32) -> (dropped: bool)
        requires
            old(self)@.wf(),
        ensures
            final(self)@.wf(),
            (dropped, final(self)@) == abort_from(old(self)@, chunk_stream_id),
    {
        match self.states.remove(&chunk_stream_id) {
            Some(mut st) => {
                let dropped = st.partial.len() > 0;
                let ghost was = st@;
                st.partial = Vec::new();
                self.states.insert(chunk_stream_id, st);
                proof {
                    let m = old(self)@;
                    if dropped {
                        assert(self@.states =~= m.states.insert(
                            chunk_stream_id,
                            InView { partial: Seq::empty(), ..m.states[chunk_stream_id] },
                        ));
                    } else {
                        assert(was.partial =~= Seq::empty());
                        assert(self@.states =~= m.states);
                    }
                }
                dropped
            },
            None => {
                assert(self@.states =~= old(self)@.states);
                false
            },
        }
    }

    /// The bytes that have arrived and are not taken yet, to append to.
    pub fn inner_mut(&mut self) -> (stream: &mut Vec<u8>)
        requires
            old(self)@.wf(),
        ensures
            stream@ == old(self)@.stream,
            final(self)@ == (ReaderView { stream: final(stream)@, ..old(self)@ }),
            final(self)@.wf(),
    {
        &mut self.stream
    }

    fn read_basic_header(&self, pos: usize) -> (r: Option<(usize, u32, u8)>)
        requires
            pos <= self.stream@.len(),
        ensures
            ({
                let s = from(self.stream@, pos as int);
                match r {
                    None => basic_header(s) is None,
                    Some((p, csid, fmt)) => p <= self.stream@.len() && p > pos && p <= pos + 3
                        && basic_header(s) == Some((p - pos, csid, fmt)) && fmt <= 3,
                }
            }),
    {
        let n: usize = self.stream.len();
        if n - pos < 1 {
            return None;
        }
        let b: u8 = self.stream[pos];
        let fmt: u8 = b / 64;
        let low: u8 = b % 64;
        if low == 0 {
            if n - pos < 2 {
                return None;
            }
            Some((pos + 2, self.stream[pos + 1] as u32 + 64, fmt))
        } else if low == 1 {
            if n - pos < 3 {
                return None;
            }
            let csid: u32 = self.stream[pos + 1] as u32 + self.stream[pos + 2] as u32 * 256 + 64;
            Some((pos + 3, csid, fmt))
        } else {
            Some((pos + 1, low as u32, fmt))
        }
    }

    spec fn header_matches(&self, pos: int, r: Parsed, expected: HeaderStep) -> bool {
        let states = self@.states;
        match r {
            Parsed::Short => expected is Short,
            Parsed::Bad(end, e) => pos < end <= self.stream@.len() && end <= pos + 18 && expected
                == (HeaderStep::Bad { used: end - pos, fault: e@ }),
            Parsed::Ready(h) => {
                &&& pos < h.end <= self.stream@.len()
                &&& h.end <= pos + 18
                &&& h.msg_length < 0x0100_0000
                &&& !h.fresh ==> states.contains_key(h.csid) && states[h.csid].msg_length
                    == h.msg_length
                &&& expected == (HeaderStep::Ready {
                    used: h.end - pos,
                    csid: h.csid,
                    state: h.state(states[h.csid].partial),
                })
            },
        }
    }

    fn read_fmt3_header(&self, pos: usize, p: usize, csid: u32) -> (r: Parsed)
        requires
            pos < p <= self.stream@.len(),
            p <= pos + 3,
            self@.wf(),
        ensures
            self.header_matches(
                pos as int,
                r,
                short_header(from(self.stream@, pos as int), p - pos, csid, self@.states),
            ),
    {
        let n: usize = self.stream.len();
        let st = match self.states.get(&csid) {
            None => {
                return Parsed::Bad(p, invalid_chunk("fmt 3 without prior fmt 0/1/2"));
            },
            Some(st) => st,
        };
        assert(self@.states.contains_key(csid) && self@.states[csid] == st@);
        let ext: usize = if st.last_had_ext_ts {
            4
        } else {
            0
        };
        if n - p < ext {
            return Parsed::Short;
        }
        let fresh = st.partial.len() == 0;
        let timestamp: u32 = if fresh {
            add_wrapping(st.timestamp, st.last_delta)
        } else {
            st.timestamp
        };
        assert(fresh ==> st.partial@ =~= Seq::empty());
        Parsed::Ready(
            Header {
                end: p + ext,
                csid,
                msg_type_id: st.msg_type_id,
                msg_stream_id: st.msg_stream_id,
                msg_length: st.msg_length,
                timestamp,
                last_delta: st.last_delta,
                last_had_ext_ts: st.last_had_ext_ts,
                fresh,
            },
        )
    }

    fn read_full_header(&self, pos: usize, p: usize, csid: u32, fmt: u8) -> (r: Parsed)
        requires
            pos < p <= self.stream@.len(),
            p <= pos + 3,
            fmt < 3,
            self@.wf(),
        ensures
            self.header_matches(
                pos as int,
                r,
                full_header(from(self.stream@, pos as int), p - pos, csid, fmt, self@.states),
            ),
    {
        let ghost s = from(self.stream@, pos as int);
        let n: usize = self.stream.len();
        let width: usize = if fmt == 0 {
            11
        } else if fmt == 1 {
            7
        } else {
            3
        };
        if n - p < width {
            return Parsed::Short;
        }
        let q: usize = p + width;
        proof {
            lemma_from_fields(self.stream@, pos as int, p - pos);
            lemma_from_fields(self.stream@, pos as int, q - pos);
            lemma_from_fields(self.stream@, pos as int, p - pos + 3);
            lemma_from_fields(self.stream@, pos as int, p - pos + 7);
        }
        let field: u32 = get_be24(self.stream.as_slice(), p);
        let ext = field == 0x00FF_FFFF;
        let end: usize = if ext {
            if n - q < 4 {
                return Parsed::Short;
            }
            q + 4
        } else {
            q
        };
        let value: u32 = if ext {
            get_be32(self.stream.as_slice(), q)
        } else {
            field
        };
        let mut h = Header {
            end,
            csid,
            msg_type_id: 0,
            msg_stream_id: 0,
            msg_length: 0,
            timestamp: value,
            last_delta: value,
            last_had_ext_ts: ext,
            fresh: true,
        };
        if fmt != 0 {
            let st = match self.states.get(&csid) {
                None => {
                    if fmt == 1 {
                        return Parsed::Bad(end, invalid_chunk("fmt 1 without prior fmt 0"));
                    }
                    return Parsed::Bad(end, invalid_chunk("fmt 2 without prior fmt 0/1"));
                },
                Some(st) => st,
            };
            assert(self@.states.contains_key(csid) && self@.states[csid] == st@);
            h.msg_type_id = st.msg_type_id;
            h.msg_stream_id = st.msg_stream_id;
            h.msg_length = st.msg_length;
            h.timestamp = add_wrapping(st.timestamp, value);
        }
        if fmt < 2 {
            h.msg_type_id = self.stream[p + 6];
            h.msg_length = get_be24(self.stream.as_slice(), p + 3);
        }
        if fmt == 0 {
            h.msg_stream_id = get_le32(self.stream.as_slice(), p + 7);
        }
        Parsed::Ready(h)
    }

    /// The header at `pos`.
    fn read_header(&self, pos: usize) -> (r: Parsed)
        requires
            pos <= self.stream@.len(),
            self@.wf(),
        ensures
            self.header_matches(
                pos as int,
                r,
                chunk_header(from(self.stream@, pos as int), self@.states),
            ),
    {
        proof {
            reveal(chunk_header);
        }
        match self.read_basic_header(pos) {
            None => Parsed::Short,
            Some((p, csid, fmt)) => if fmt == 3 {
                self.read_fmt3_header(pos, p, csid)
            } else {
                self.read_full_header(pos, p, csid, fmt)
            },
        }
    }

    /// Take the chunk at `pos`, leaving the bytes where they are.
    fn step(&mut self, pos: usize) -> (r: Step)
        requires
            pos <= old(self).stream@.len(),
            old(self)@.wf(),
        ensures
            final(self)@.wf(),
            final(self).stream@ == old(self).stream@,
            ({
                let before = old(self)@;
                let after = final(self)@;
                let n = old(self).stream@.len();
                let step = chunk_step(
                    from(old(self).stream@, pos as int),
                    before.chunk_size as int,
                    before.states,
                );
                match r {
                    Step::Short => step is Short && after == before,
                    Step::Bad(end, e) => pos < end <= n && step == (ChunkStep::Bad {
                        used: end - pos,
                        fault: e@,
                    }) && after == (ReaderView {
                        received_bytes: wrap_add(before.received_bytes, end - pos),
                        ..before
                    }),
                    Step::More(end) => pos < end <= n && step == (ChunkStep::More {
                        used: end - pos,
                        states: after.states,
                    }) && after == (ReaderView {
                        received_bytes: wrap_add(before.received_bytes, end - pos),
                        states: after.states,
                        ..before
                    }),
                    Step::Done(end, m) => pos < end <= n && step == (ChunkStep::Done {
                        used: end - pos,
                        states: after.states,
                        message: m@,
                    }) && after == (ReaderView {
                        received_bytes: wrap_add(before.received_bytes, end - pos),
                        states: after.states,
                        ..before
                    }),
                }
            }),
    {
        proof {
            reveal(chunk_step);
        }
        let ghost s = from(self.stream@, pos as int);
        let ghost before = self@;
        let n: usize = self.stream.len();
        let h = match self.read_header(pos) {
            Parsed::Short => {
                return Step::Short;
            },
            Parsed::Bad(end, e) => {
                self.received_bytes = add_wrapping(self.received_bytes, (end - pos) as u32);
                return Step::Bad(end, e);
            },
            Parsed::Ready(h) => h,
        };
        let held: usize = if h.fresh {
            0
        } else {
            match self.states.get(&h.csid) {
                Some(st) => st.partial.len(),
                None => 0,
            }
        };
        let ghost state = h.state(before.states[h.csid].partial);
        assert(held == state.partial.len());
        let need: usize = h.msg_length as usize - held;
        let take: usize = if need < self.chunk_size {
            need
        } else {
            self.chunk_size
        };
        if n - h.end < take {
            return Step::Short;
        }
        let end: usize = h.end + take;
        let mut partial: Vec<u8> = match self.states.remove(&h.csid) {
            Some(st) => if h.fresh {
                Vec::new()
            } else {
                st.partial
            },
            None => Vec::new(),
        };
        assert(partial@ == state.partial);
        put_bytes(&mut partial, slice_subrange(self.stream.as_slice(), h.end, end));
        assert(self.stream@.subrange(h.end as int, end as int) =~= s.subrange(
            h.end - pos,
            end - pos,
        ));
        self.received_bytes = add_wrapping(self.received_bytes, (end - pos) as u32);
        let done = partial.len() as u32 >= h.msg_length;
        let (kept, payload) = if done {
            (Vec::new(), partial)
        } else {
            (partial, Vec::new())
        };
        self.states.insert(
            h.csid,
            InState {
                msg_type_id: h.msg_type_id,
                msg_stream_id: h.msg_stream_id,
                msg_length: h.msg_length,
                timestamp: h.timestamp,
                last_delta: h.last_delta,
                last_had_ext_ts: h.last_had_ext_ts,
                partial: kept,
            },
        );
        assert(self@.states =~= before.states.insert(h.csid, InView { partial: kept@, ..state }));
        if done {
            assert(kept@ =~= Seq::empty());
            Step::Done(
                end,
                Message {
                    msg_type_id: h.msg_type_id,
                    msg_stream_id: h.msg_stream_id,
                    timestamp: h.timestamp,
                    payload,
                },
            )
        } else {
            Step::More(end)
        }
    }

    fn discard(&mut self, pos: usize)
        requires
            pos <= old(self).stream@.len(),
            old(self)@.wf(),
        ensures
            final(self)@ == old(self).at(pos as int),
            final(self)@.wf(),
    {
        self.stream = copy_range(self.stream.as_slice(), pos, self.stream.len());
        assert(self@ == old(self).at(pos as int));
        assert(self@.states == old(self)@.states);
    }

    /// Take chunks until a message is complete. What arrives later is appended
    /// through [`ChunkReader::inner_mut`]; as long as the next chunk is not
    /// there in full, the answer is [`Error::UnexpectedEof`].
    pub fn read_message(&mut self) -> (r: Result<Message>)
        requires
            old(self)@.wf(),
        ensures
            final(self)@.wf(),
            outcome(r) == read_from(old(self)@).0,
            final(self)@ == read_from(old(self)@).1,
    {
        let mut pos: usize = 0;
        assert(self.at(0).stream =~= self@.stream);
        loop
            invariant
                pos <= self.stream@.len(),
                self@.wf(),
                read_from(self.at(pos as int)) == read_from(old(self)@),
            decreases self.stream@.len() - pos,
        {
            let ghost before = self.at(pos as int);
            let ghost full = self.stream@;
            match self.step(pos) {
                Step::Short => {
                    self.discard(pos);
                    return Err(Error::UnexpectedEof);
                },
                Step::Bad(end, e) => {
                    assert(from(full, end as int) =~= from(before.stream, end - pos));
                    self.discard(end);
                    return Err(e);
                },
                Step::Done(end, m) => {
                    assert(from(full, end as int) =~= from(before.stream, end - pos));
                    self.discard(end);
                    return Ok(m);
                },
                Step::More(end) => {
                    assert(from(full, end as int) =~= from(before.stream, end - pos));
                    assert(self.at(end as int) == before.advanced(end - pos, self@.states));
                    pos = end;
                },
            }
        }
    }
}

/// `size` brought into the range of legal chunk sizes.
pub open spec fn clamped(size: usize) -> usize {
    if size < 1 {
        1
    } else if size > MAX_CHUNK_SIZE {
        MAX_CHUNK_SIZE
    } else {
        size
    }
}

fn clamp_chunk_size(size: usize) -> (n: usize)
    ensures
        n == clamped(size),
        1 <= n <= MAX_CHUNK_SIZE,
{
    if size < 1 {
        1
    } else if size > MAX_CHUNK_SIZE {
        MAX_CHUNK_SIZE
    } else {
        size
    }
}

// ---------------------------------------------------------------------------
// Writing: the model
// ---------------------------------------------------------------------------

/// What a writer remembers of a chunk stream it has written a message on.
#[derive(Debug, Clone, Copy, PartialEq, Eq, Structural)]
pub struct OutState {
    pub msg_type_id: u8,
    pub msg_stream_id: u32,
    pub msg_length: u32,
    pub timestamp: u32,
    pub last_delta: u32,
    /// Whether the last chunk of fmt 0, 1 or 2 had an extended timestamp.
    pub last_had_ext_ts: bool,
}

/// What a writer is: the bytes it has put out, and what it remembers.
pub struct WriterView {
    pub stream: Seq<u8>,
    pub chunk_size: usize,
    pub states: Map<u32, OutState>,
}

/// The choices made for one message.
#[derive(Debug, Clone, Copy, PartialEq, Eq, Structural)]
pub struct HeaderPlan {
    /// The fmt of the first chunk.
    pub fmt: u8,
    /// The delta registered for the message: its timestamp if fmt is 0.
    pub delta: u32,
    /// Whether its chunks carry an extended timestamp.
    pub ext: bool,
}

/// The densest header for a message of `len` payload bytes after `prev`: fmt 0
/// for the first message, another stream or a clock that ran back; else fmt 1
/// if the type or length changed; else fmt 3 if the delta is the one already
/// registered; else fmt 2. An extended timestamp goes with a value that does
/// not fit 24 bits; fmt 3 inherits it.
pub open spec fn header_plan(prev: Option<OutState>, msg: MessageView, len: u32) -> HeaderPlan {
    match prev {
        None => HeaderPlan { fmt: 0, delta: msg.timestamp, ext: msg.timestamp >= 0x00FF_FFFF },
        Some(st) => {
            let delta = (msg.timestamp - st.timestamp) as u32;
            if st.msg_stream_id != msg.msg_stream_id || msg.timestamp < st.timestamp {
                HeaderPlan { fmt: 0, delta: msg.timestamp, ext: msg.timestamp >= 0x00FF_FFFF }
            } else if st.msg_type_id != msg.msg_type_id || st.msg_length != len {
                HeaderPlan { fmt: 1, delta, ext: delta >= 0x00FF_FFFF }
            } else if delta == st.last_delta {
                HeaderPlan { fmt: 3, delta, ext: st.last_had_ext_ts }
            } else {
                HeaderPlan { fmt: 2, delta, ext: delta >= 0x00FF_FFFF }
            }
        },
    }
}

/// Whether a chunk stream id can be written.
pub open spec fn valid_csid(csid: u32) -> bool {
    2 <= csid <= 65599
}

/// The basic header of a chunk.
pub open spec fn basic_header_bytes(fmt: u8, csid: u32) -> Seq<u8> {
    if csid <= 63 {
        seq![(fmt * 64 + csid) as u8]
    } else if csid <= 319 {
        seq![(fmt * 64) as u8, (csid - 64) as u8]
    } else {
        seq![
            (fmt * 64 + 1) as u8,
            ((csid - 64) as u32 % 256) as u8,
            ((csid - 64) as u32 / 256) as u8,
        ]
    }
}

/// The message header of the first chunk, without extended timestamp.
pub open spec fn header_fields(plan: HeaderPlan, msg: MessageView, len: u32) -> Seq<u8> {
    let field = be24_bytes(
        if plan.ext {
            0x00FF_FFFF
        } else {
            plan.delta
        },
    );
    if plan.fmt == 0 {
        field + be24_bytes(len) + seq![msg.msg_type_id] + le32_bytes(msg.msg_stream_id)
    } else if plan.fmt == 1 {
        field + be24_bytes(len) + seq![msg.msg_type_id]
    } else if plan.fmt == 2 {
        field
    } else {
        Seq::empty()
    }
}

/// The extended timestamp field, where there is one.
pub open spec fn ext_bytes(plan: HeaderPlan) -> Seq<u8> {
    if plan.ext {
        be32_bytes(plan.delta)
    } else {
        Seq::empty()
    }
}

/// The header of the first chunk of a message.
pub open spec fn head_bytes(csid: u32, plan: HeaderPlan, msg: MessageView, len: u32) -> Seq<u8> {
    basic_header_bytes(plan.fmt, csid) + header_fields(plan, msg, len) + ext_bytes(plan)
}

/// The header of every later chunk of a message.
pub open spec fn continuation_bytes(csid: u32, plan: HeaderPlan) -> Seq<u8> {
    basic_header_bytes(3, csid) + ext_bytes(plan)
}

/// `payload` cut into pieces of at most `size` bytes, `head` before the first
/// and `next` before each other.
pub open spec fn chunked(head: Seq<u8>, next: Seq<u8>, payload: Seq<u8>, size: int) -> Seq<u8>
    decreases payload.len(),
{
    if payload.len() <= size || size < 1 {
        head + payload
    } else {
        head + payload.subrange(0, size) + chunked(next, next, from(payload, size), size)
    }
}

impl WriterView {
    /// What this writer remembers of a chunk stream.
    pub open spec fn last(self, csid: u32) -> Option<OutState> {
        if self.states.contains_key(csid) {
            Some(self.states[csid])
        } else {
            None
        }
    }

    /// The bytes of a message.
    pub open spec fn encoded(self, csid: u32, msg: MessageView) -> Seq<u8> {
        let len = msg.payload.len() as u32;
        let plan = header_plan(self.last(csid), msg, len);
        chunked(
            head_bytes(csid, plan, msg, len),
            continuation_bytes(csid, plan),
            msg.payload,
            self.chunk_size as int,
        )
    }

    /// The writer after it has put out a message.
    pub open spec fn after(self, csid: u32, msg: MessageView) -> WriterView {
        let len = msg.payload.len() as u32;
        let plan = header_plan(self.last(csid), msg, len);
        WriterView {
            stream: self.stream + self.encoded(csid, msg),
            states: self.states.insert(
                csid,
                OutState {
                    msg_type_id: msg.msg_type_id,
                    msg_stream_id: msg.msg_stream_id,
                    msg_length: len,
                    timestamp: msg.timestamp,
                    last_delta: plan.delta,
                    last_had_ext_ts: plan.ext,
                },
            ),
            ..self
        }
    }

    /// The chunk size is legal.
    pub open spec fn wf(self) -> bool {
        1 <= self.chunk_size <= MAX_CHUNK_SIZE
    }
}

// ---------------------------------------------------------------------------
// Writing: the code
// ---------------------------------------------------------------------------

/// Cuts messages into chunks.
pub struct ChunkWriter {
    stream: Vec<u8>,
    chunk_size: usize,
    states: HashMap<u32, OutState>,
}

impl View for ChunkWriter {
    type V = WriterView;

    closed spec fn view(&self) -> WriterView {
        WriterView { stream: self.stream@, chunk_size: self.chunk_size, states: self.states@ }
    }
}

impl ChunkWriter {
    /// A writer that appends to `stream`.
    pub fn new(stream: Vec<u8>) -> (w: ChunkWriter)
        ensures
            w@.wf(),
            w@ == (WriterView {
                stream: stream@,
                chunk_size: DEFAULT_CHUNK_SIZE,
                states: Map::empty(),
            }),
    {
        ChunkWriter { stream, chunk_size: DEFAULT_CHUNK_SIZE, states: HashMap::new() }
    }

    /// Set the largest chunk payload, brought into the legal range.
    pub fn set_chunk_size(&mut self, size: usize)
        requires
            old(self)@.wf(),
        ensures
            final(self)@.wf(),
            final(self)@ == (WriterView { chunk_size: clamped(size), ..old(self)@ }),
    {
        self.chunk_size = clamp_chunk_size(size);
    }

    /// The largest chunk payload.
    pub fn chunk_size(&self) -> (n: usize)
        ensures
            n == self@.chunk_size,
    {
        self.chunk_size
    }

    /// The bytes put out so far, for the transport to take.
    pub fn inner_mut(&mut self) -> (stream: &mut Vec<u8>)
        requires
            old(self)@.wf(),
        ensures
            stream@ == old(self)@.stream,
            final(self)@ == (WriterView { stream: final(stream)@, ..old(self)@ }),
            final(self)@.wf(),
    {
        &mut self.stream
    }

    /// Nothing is held back: what was written is in the stream already.
    pub fn flush(&mut self) -> (r: Result<()>)
        requires
            old(self)@.wf(),
        ensures
            final(self)@.wf(),
            final(self)@ == old(self)@,
            r is Ok,
    {
        Ok(())
    }

    fn write_basic_header(&mut self, fmt: u8, csid: u32)
        requires
            fmt <= 3,
            valid_csid(csid),
        ensures
            final(self)@ == (WriterView {
                stream: old(self)@.stream + basic_header_bytes(fmt, csid),
                ..old(self)@
            }),
    {
        if csid <= 63 {
            self.stream.push(fmt * 64 + csid as u8);
        } else if csid <= 319 {
            self.stream.push(fmt * 64);
            self.stream.push((csid - 64) as u8);
        } else {
            self.stream.push(fmt * 64 + 1);
            self.stream.push(((csid - 64) % 256) as u8);
            self.stream.push(((csid - 64) / 256) as u8);
        }
        assert(self.stream@ =~= old(self).stream@ + basic_header_bytes(fmt, csid));
    }

    fn plan(&self, csid: u32, msg: &Message) -> (plan: HeaderPlan)
        ensures
            plan == header_plan(self@.last(csid), msg@, msg.payload@.len() as u32),
    {
        let len: u32 = msg.payload.len() as u32;
        let full = HeaderPlan {
            fmt: 0,
            delta: msg.timestamp,
            ext: msg.timestamp >= 0x00FF_FFFF,
        };
        match self.states.get(&csid) {
            None => full,
            Some(st) => if st.msg_stream_id != msg.msg_stream_id || msg.timestamp < st.timestamp {
                full
            } else {
                let delta: u32 = msg.timestamp - st.timestamp;
                if st.msg_type_id != msg.msg_type_id || st.msg_length != len {
                    HeaderPlan { fmt: 1, delta, ext: delta >= 0x00FF_FFFF }
                } else if delta == st.last_delta {
                    HeaderPlan { fmt: 3, delta, ext: st.last_had_ext_ts }
                } else {
                    HeaderPlan { fmt: 2, delta, ext: delta >= 0x00FF_FFFF }
                }
            },
        }
    }

    fn write_ext(&mut self, plan: HeaderPlan)
        ensures
            final(self)@ == (WriterView {
                stream: old(self)@.stream + ext_bytes(plan),
                ..old(self)@
            }),
    {
        if plan.ext {
            put_be32(&mut self.stream, plan.delta);
        }
        assert(self.stream@ =~= old(self).stream@ + ext_bytes(plan));
    }

    fn write_head(&mut self, csid: u32, plan: HeaderPlan, msg: &Message)
        requires
            plan.fmt <= 3,
            valid_csid(csid),
        ensures
            final(self)@ == (WriterView {
                stream: old(self)@.stream + head_bytes(
                    csid,
                    plan,
                    msg@,
                    msg.payload@.len() as u32,
                ),
                ..old(self)@
            }),
    {
        let len: u32 = msg.payload.len() as u32;
        self.write_basic_header(plan.fmt, csid);
        let ghost start = self.stream@;
        if plan.fmt < 3 {
            put_be24(
                &mut self.stream,
                if plan.ext {
                    0x00FF_FFFF
                } else {
                    plan.delta
                },
            );
        }
        if plan.fmt < 2 {
            put_be24(&mut self.stream, len);
            self.stream.push(msg.msg_type_id);
        }
        if plan.fmt == 0 {
            put_le32(&mut self.stream, msg.msg_stream_id);
        }
        assert(self.stream@ =~= start + header_fields(plan, msg@, len));
        self.write_ext(plan);
        assert(self.stream@ =~= old(self).stream@ + head_bytes(csid, plan, msg@, len));
    }

    /// Put out `msg` on `csid`, cut into chunks. A chunk stream id outside
    /// 2..=65599 is refused and nothing is written.
    pub fn write_message(&mut self, csid: u32, msg: &Message) -> (r: Result<()>)
        requires
            old(self)@.wf(),
        ensures
            final(self)@.wf(),
            valid_csid(csid) ==> r is Ok && final(self)@ == old(self)@.after(csid, msg@),
            !valid_csid(csid) ==> outcome(r) == Err::<(), _>(
                Fault::ProtocolViolation(
                    "chunk stream id "@ + decimal(csid as nat) + " out of range"@,
                ),
            ) && final(self)@ == old(self)@,
    {
        if csid < 2 || csid > 65599 {
            let id = decimal_text(csid as u64);
            return Err(
                Error::ProtocolViolation(cat3("chunk stream id ", id.as_str(), " out of range")),
            );
        }
        let plan = self.plan(csid, msg);
        let len: u32 = msg.payload.len() as u32;
        let total: usize = msg.payload.len();
        let ghost before = self@;
        let ghost size = self.chunk_size as int;
        let ghost next = continuation_bytes(csid, plan);
        self.write_head(csid, plan, msg);
        let mut cursor: usize = 0;
        let ghost head = Seq::<u8>::empty();
        proof {
            let h = head_bytes(csid, plan, msg@, len);
            lemma_chunked_head(h, next, msg.payload@, size);
            assert(from(msg.payload@, 0) =~= msg.payload@);
            assert(self.stream@ + chunked(head, next, from(msg.payload@, 0), size) =~= before.stream
                + before.encoded(csid, msg@));
        }
        while total - cursor > self.chunk_size
            invariant
                cursor <= total,
                total == msg.payload@.len(),
                self.chunk_size == size,
                size >= 1,
                self.states@ == before.states,
                valid_csid(csid),
                next == continuation_bytes(csid, plan),
                head == Seq::<u8>::empty(),
                self.stream@ + chunked(head, next, from(msg.payload@, cursor as int), size)
                    == before.stream + before.encoded(csid, msg@),
            decreases total - cursor,
        {
            let ghost was = self.stream@;
            let ghost rest = from(msg.payload@, cursor as int);
            let end: usize = cursor + self.chunk_size;
            put_bytes(&mut self.stream, slice_subrange(msg.payload.as_slice(), cursor, end));
            self.write_basic_header(3, csid);
            self.write_ext(plan);
            proof {
                assert(msg.payload@.subrange(cursor as int, end as int) =~= rest.subrange(0, size));
                assert(from(rest, size) =~= from(msg.payload@, end as int));
                lemma_chunked_head(next, next, from(rest, size), size);
                assert(self.stream@ + chunked(head, next, from(rest, size), size) =~= was + chunked(
                    head,
                    next,
                    rest,
                    size,
                ));
            }
            cursor = end;
        }
        let ghost was = self.stream@;
        put_bytes(&mut self.stream, slice_subrange(msg.payload.as_slice(), cursor, total));
        assert(self.stream@ =~= was + chunked(
            head,
            next,
            from(msg.payload@, cursor as int),
            size,
        ));
        self.states.insert(
            csid,
            OutState {
                msg_type_id: msg.msg_type_id,
                msg_stream_id: msg.msg_stream_id,
                msg_length: len,
                timestamp: msg.timestamp,
                last_delta: plan.delta,
                last_had_ext_ts: plan.ext,
            },
        );
        Ok(())
    }
}

/// The first header stands in front of everything else.
proof fn lemma_chunked_head(head: Seq<u8>, next: Seq<u8>, payload: Seq<u8>, size: int)
    ensures
        chunked(head, next, payload, size) == head + chunked(Seq::empty(), next, payload, size),
{
    assert(chunked(head, next, payload, size) =~= head + chunked(
        Seq::empty(),
        next,
        payload,
        size,
    ));
}

// ---------------------------------------------------------------------------
// Laws
// ---------------------------------------------------------------------------

/// Every chunk size from 1 to 0x00FF_FFFF is taken as it is, by a reader and by a writer; 0
/// counts as 1, and anything larger as the largest. Nothing else changes.
pub proof fn law_chunk_sizes_are_taken(size: usize, r: &mut ChunkReader, w: &mut ChunkWriter)
    requires
        call_ensures(ChunkReader::set_chunk_size, (r, size), ()),
        call_ensures(ChunkWriter::set_chunk_size, (w, size), ()),
    ensures
        ({
            let n = if size == 0 {
                1
            } else if size <= 0x00FF_FFFF {
                size
            } else {
                0x00FF_FFFF
            };
            &&& final(r)@ == (ReaderView { chunk_size: n, ..old(r)@ })
            &&& final(w)@ == (WriterView { chunk_size: n, ..old(w)@ })
        }),
{
}

/// A reader and a writer start with chunks of 128 bytes and nothing kept, and say what
/// size they have.
pub proof fn law_chunks_start_small(
    bytes: Vec<u8>,
    r: ChunkReader,
    w: ChunkWriter,
    s: &ChunkReader,
    t: &ChunkWriter,
    a: usize,
    b: usize,
)
    requires
        call_ensures(ChunkReader::new, (bytes,), r),
        call_ensures(ChunkWriter::new, (bytes,), w),
        call_ensures(ChunkReader::chunk_size, (s,), a),
        call_ensures(ChunkWriter::chunk_size, (t,), b),
    ensures
        r@ == (ReaderView {
            stream: bytes@,
            chunk_size: 128,
            states: Map::empty(),
            received_bytes: 0,
            window_ack_size: 0,
            last_ack_bytes: 0,
        }),
        w@ == (WriterView { stream: bytes@, chunk_size: 128, states: Map::empty() }),
        a == s@.chunk_size,
        b == t@.chunk_size,
{
}

/// A message is appended to what is to go out, and the state of its chunk stream is kept.
/// A chunk stream id below 2 or above 65599 is refused, and nothing changes.
pub proof fn law_messages_are_appended(
    w: &mut ChunkWriter,
    csid: u32,
    msg: &Message,
    r: Result<()>,
)
    requires
        call_ensures(ChunkWriter::write_message, (w, csid, msg), r),
    ensures
        2 <= csid <= 65599 ==> r is Ok && final(w)@ == old(w)@.after(csid, msg@),
        csid < 2 || csid > 65599 ==> (r matches Err(e) && e@ == Fault::ProtocolViolation(
            "chunk stream id "@ + decimal(csid as nat) + " out of range"@,
        )) && final(w)@ == old(w)@,
        2 <= csid <= 65599 ==> final(w)@.stream == old(w)@.stream + old(w)@.encoded(csid, msg@),
        final(w)@.chunk_size == old(w)@.chunk_size,
{
}

/// A reader gives the next message, and says how many bytes it has taken and what window
/// it keeps.
pub proof fn law_messages_are_read(
    r: &mut ChunkReader,
    m: Result<Message>,
    s: &ChunkReader,
    taken: u32,
    window: u32,
    a: &mut ChunkReader,
    due: Option<u32>,
    b: &mut ChunkReader,
    csid: u32,
    dropped: bool,
)
    requires
        call_ensures(ChunkReader::read_message, (r,), m),
        call_ensures(ChunkReader::received_bytes, (s,), taken),
        call_ensures(ChunkReader::window_ack_size, (s,), window),
        call_ensures(ChunkReader::ack_due, (a,), due),
        call_ensures(ChunkReader::abort_partial, (b, csid), dropped),
    ensures
        outcome(m) == read_from(old(r)@).0,
        final(r)@ == read_from(old(r)@).1,
        taken == s@.received_bytes,
        window == s@.window_ack_size,
        due == ack_from(old(a)@).0,
        final(a)@ == ack_from(old(a)@).1,
        dropped == abort_from(old(b)@, csid).0,
        final(b)@ == abort_from(old(b)@, csid).1,
{
}

/// What a message says of its stream, and when it keeps the rules.
pub proof fn law_streams_of_messages(
    m: &Message,
    kind: MessageStreamKind,
    control: bool,
    r: Result<()>,
)
    requires
        call_ensures(Message::stream_kind, (m,), kind),
        call_ensures(Message::is_control_stream, (m,), control),
        call_ensures(Message::validate_protocol_control_invariants, (m,), r),
    ensures
        kind == (if m.msg_stream_id == 0 {
            MessageStreamKind::Control
        } else if m.msg_stream_id <= 0xFF_FFFF {
            MessageStreamKind::NetStream(m.msg_stream_id)
        } else {
            MessageStreamKind::Reserved(m.msg_stream_id)
        }),
        control <==> m.msg_stream_id == 0,
        r is Ok <==> m.msg_stream_id <= 0xFF_FFFF && (m.msg_type_id == 0 || m.msg_type_id > 6
            || m.msg_stream_id == 0),
        r matches Err(e) ==> e is ProtocolViolation,
{
}

/// A window is counted from the bytes that have come in, and sending what is written changes
/// nothing and does not fail.
pub proof fn law_windows_and_flushes(
    reader: &mut ChunkReader,
    size: u32,
    writer: &mut ChunkWriter,
    r: Result<()>,
)
    requires
        old(reader)@.wf() && old(writer)@.wf(),
        call_ensures(ChunkReader::set_window_ack_size, (reader, size), ()),
        call_ensures(ChunkWriter::flush, (writer,), r),
    ensures
        final(reader)@ == (ReaderView {
            window_ack_size: size,
            last_ack_bytes: old(reader)@.received_bytes,
            ..old(reader)@
        }),
        final(writer)@ == old(writer)@,
        r is Ok,
{
}

} // verus!
