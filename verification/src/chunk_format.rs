//! What chunks are made of, byte by byte, and what a reader and a writer keep.

use vstd::prelude::*;
#[allow(unused_imports)]
use crate::chunk::{
    abort_from, ack_from, basic_header, basic_header_bytes, chunk_header, chunk_payload,
    chunk_step, chunked, clamped, continuation_bytes, ext_bytes, full_header, full_header_state,
    head_bytes, header_fields, header_plan, read_from, short_header, stream_kind_of, valid_csid,
    with_window, wrap_add, ChunkStep, HeaderPlan, HeaderStep, InView, MessageStreamKind,
    MessageView, OutState, ReaderView, WriterView, DEFAULT_CHUNK_SIZE,
};
#[allow(unused_imports)]
use crate::error::Fault;
#[allow(unused_imports)]
use crate::wire::{
    be24, be24_bytes, be32, be32_bytes, from, law_bytes_by_their_value, law_fields_by_their_bytes,
    le32, le32_bytes,
};

verus! {

// ---------------------------------------------------------------------------
// Sizes and ids
// ---------------------------------------------------------------------------

/// Every legal chunk size is taken as it is, up to the largest that 24 bits can say; 0 is
/// taken for 1, and what is too large for the largest.
pub proof fn law_legal_chunk_sizes_are_taken(size: usize)
    ensures
        1 <= size <= 0xFF_FFFF ==> clamped(size) == size,
        size == 0 ==> clamped(size) == 1,
        size > 0xFF_FFFF ==> clamped(size) == 0xFF_FFFF,
        DEFAULT_CHUNK_SIZE == 128,
{
}

/// Message stream 0 is for control, and a stream has any other id that fits three bytes.
pub proof fn law_stream_ids(id: u32)
    ensures
        stream_kind_of(id) == MessageStreamKind::Control <==> id == 0,
        stream_kind_of(id) == MessageStreamKind::NetStream(id) <==> 1 <= id <= 0xFF_FFFF,
        stream_kind_of(id) == MessageStreamKind::Reserved(id) <==> id > 0xFF_FFFF,
{
}

/// A message keeps the rules for stream ids exactly if its id fits three bytes and, for
/// the six types of protocol control, is 0; whatever breaks them is a violation of the
/// protocol.
pub proof fn law_control_messages_ride_stream_0(m: MessageView)
    ensures
        m.control_invariants() is Ok <==> m.msg_stream_id <= 0xFF_FFFF && (m.msg_type_id == 0
            || m.msg_type_id > 6 || m.msg_stream_id == 0),
        m.control_invariants() matches Err(f) ==> f is ProtocolViolation,
{
}

/// The chunk stream ids that can be written: those that the basic header can say, without
/// the two that announce a longer one.
pub proof fn law_chunk_stream_ids(csid: u32)
    ensures
        valid_csid(csid) <==> 2 <= csid <= 64 + 0xFFFF,
{
}

// ---------------------------------------------------------------------------
// Headers
// ---------------------------------------------------------------------------

/// The basic header has the fmt in its two top bits, and the chunk stream id in the
/// shortest of its three forms.
pub proof fn law_basic_header_bytes(fmt: u8, csid: u32)
    requires
        fmt <= 3,
        2 <= csid <= 65599,
    ensures
        ({
            let b = basic_header_bytes(fmt, csid);
            &&& b.len() == (if csid < 64 {
                1
            } else if csid < 320 {
                2int
            } else {
                3
            })
            &&& b[0] / 64 == fmt
            &&& b.len() == 1 ==> b[0] % 64 == csid
            &&& b.len() == 2 ==> b[0] % 64 == 0 && b[1] + 64 == csid
            &&& b.len() == 3 ==> b[0] % 64 == 1 && b[1] + 256 * b[2] + 64 == csid
        }),
{
}

/// A basic header is read in each of its three forms.
pub proof fn law_basic_header_is_read(s: Seq<u8>)
    requires
        s.len() >= 3,
    ensures
        s[0] % 64 >= 2 ==> basic_header(s) == Some((1int, (s[0] % 64) as u32, (s[0] / 64) as u8)),
        s[0] % 64 == 0 ==> basic_header(s) == Some((2int, (64 + s[1]) as u32, (s[0] / 64) as u8)),
        s[0] % 64 == 1 ==> basic_header(s) == Some(
            (3int, (64 + s[1] + 256 * s[2]) as u32, (s[0] / 64) as u8),
        ),
{
}

proof fn lemma_one_chunk(w: WriterView, csid: u32, msg: MessageView)
    requires
        msg.payload.len() <= w.chunk_size,
    ensures
        ({
            let len = msg.payload.len() as u32;
            let plan = header_plan(w.last(csid), msg, len);
            w.encoded(csid, msg) == head_bytes(csid, plan, msg, len) + msg.payload
        }),
{
}

/// A message that is no longer than the chunk size is one header and its whole payload.
pub proof fn law_short_message_is_one_chunk(w: WriterView, csid: u32, msg: MessageView)
    requires
        w.wf(),
        2 <= csid <= 65599,
        msg.payload.len() <= w.chunk_size,
    ensures
        ({
            let b = w.encoded(csid, msg);
            let h = b.len() - msg.payload.len();
            &&& 1 <= h <= 18
            &&& from(b, h) == msg.payload
        }),
{
    let len = msg.payload.len() as u32;
    let plan = header_plan(w.last(csid), msg, len);
    let head = head_bytes(csid, plan, msg, len);
    lemma_one_chunk(w, csid, msg);
    assert(from(head + msg.payload, head.len() as int) =~= msg.payload);
}

/// The first message on a chunk stream has all fields: the time, the length and the type,
/// and the id of its stream with the lowest byte first. A time that does not fit 24 bits
/// stands behind them.
pub proof fn law_first_message_bytes(w: WriterView, csid: u32, msg: MessageView)
    requires
        !w.states.contains_key(csid),
        2 <= csid <= 63,
        msg.payload.len() <= w.chunk_size,
        w.wf(),
    ensures
        ({
            let n = msg.payload.len();
            let t = msg.timestamp;
            let id = msg.msg_stream_id;
            let short = t < 0xFF_FFFF;
            w.encoded(csid, msg) == seq![
                csid as u8,
                if short {
                    (t / 0x1_0000) as u8
                } else {
                    0xFF
                },
                if short {
                    (t / 0x100 % 0x100) as u8
                } else {
                    0xFF
                },
                if short {
                    (t % 0x100) as u8
                } else {
                    0xFF
                },
                (n / 0x1_0000) as u8,
                (n / 0x100 % 0x100) as u8,
                (n % 0x100) as u8,
                msg.msg_type_id,
                (id % 0x100) as u8,
                (id / 0x100 % 0x100) as u8,
                (id / 0x1_0000 % 0x100) as u8,
                (id / 0x100_0000) as u8,
            ] + (if short {
                Seq::empty()
            } else {
                seq![
                    (t / 0x100_0000) as u8,
                    (t / 0x1_0000 % 0x100) as u8,
                    (t / 0x100 % 0x100) as u8,
                    (t % 0x100) as u8,
                ]
            }) + msg.payload
        }),
{
    lemma_one_chunk(w, csid, msg);
    let len = msg.payload.len() as u32;
    let plan = header_plan(w.last(csid), msg, len);
    let head = head_bytes(csid, plan, msg, len);
    assert(plan.fmt == 0);
    assert(be24_bytes(len)[0] == (len / 0x1_0000) as u8);
    assert(w.encoded(csid, msg) =~= head + msg.payload);
}

/// Which of the four headers a message gets: all fields for the first on a chunk stream,
/// for another message stream and for a clock that ran back; none where even the step of
/// the clock is the same; else the step alone, or with the length and the type where one
/// of these changed.
pub proof fn law_header_format(w: WriterView, csid: u32, msg: MessageView)
    requires
        w.wf(),
        2 <= csid <= 65599,
        msg.payload.len() <= 0xFFFF_FFFF,
    ensures
        ({
            let fmt = w.encoded(csid, msg)[0] / 64;
            let st = w.states[csid];
            let fresh = !w.states.contains_key(csid) || st.msg_stream_id != msg.msg_stream_id
                || msg.timestamp < st.timestamp;
            let same = st.msg_type_id == msg.msg_type_id && st.msg_length == msg.payload.len();
            let step = msg.timestamp - st.timestamp;
            &&& fmt == 0 <==> fresh
            &&& fmt == 1 <==> !fresh && !same
            &&& fmt == 2 <==> !fresh && same && step != st.last_delta
            &&& fmt == 3 <==> !fresh && same && step == st.last_delta
        }),
{
    let len = msg.payload.len() as u32;
    let plan = header_plan(w.last(csid), msg, len);
    let head = head_bytes(csid, plan, msg, len);
    law_basic_header_bytes(plan.fmt, csid);
    let b = basic_header_bytes(plan.fmt, csid);
    assert(head[0] == b[0]);
    let next = continuation_bytes(csid, plan);
    let all = w.encoded(csid, msg);
    assert(all == chunked(head, next, msg.payload, w.chunk_size as int));
    assert(all[0] == head[0]);
}

/// What a later message on a chunk stream says of its clock, its length and its type, where
/// its header leaves out what is known.
pub proof fn law_later_message_bytes(w: WriterView, csid: u32, msg: MessageView)
    requires
        w.wf(),
        2 <= csid <= 63,
        w.states.contains_key(csid),
        w.states[csid].msg_stream_id == msg.msg_stream_id,
        w.states[csid].timestamp <= msg.timestamp < w.states[csid].timestamp + 0xFF_FFFF,
        msg.payload.len() <= w.chunk_size,
    ensures
        ({
            let st = w.states[csid];
            let d = msg.timestamp - st.timestamp;
            let n = msg.payload.len();
            let same = st.msg_type_id == msg.msg_type_id && st.msg_length == n;
            let step = seq![(d / 0x1_0000) as u8, (d / 0x100 % 0x100) as u8, (d % 0x100) as u8];
            let shape = seq![
                (n / 0x1_0000) as u8,
                (n / 0x100 % 0x100) as u8,
                (n % 0x100) as u8,
                msg.msg_type_id,
            ];
            let b = w.encoded(csid, msg);
            &&& !same ==> b == seq![(64 + csid) as u8] + step + shape + msg.payload
            &&& same && d != st.last_delta ==> b == seq![(128 + csid) as u8] + step + msg.payload
            &&& same && d == st.last_delta && !st.last_had_ext_ts ==> b == seq![(192 + csid) as u8]
                + msg.payload
        }),
{
    lemma_one_chunk(w, csid, msg);
    let st = w.states[csid];
    let len = msg.payload.len() as u32;
    let plan = header_plan(w.last(csid), msg, len);
    let head = head_bytes(csid, plan, msg, len);
    let d = msg.timestamp - st.timestamp;
    let b = w.encoded(csid, msg);
    let step = seq![(d / 0x1_0000) as u8, (d / 0x100 % 0x100) as u8, (d % 0x100) as u8];
    assert(plan.delta == d);
    assert(be24_bytes(plan.delta) =~= step);
    if plan.fmt == 1 {
        let shape = seq![
            (len / 0x1_0000) as u8,
            (len / 0x100 % 0x100) as u8,
            (len % 0x100) as u8,
            msg.msg_type_id,
        ];
        assert(b =~= seq![(64 + csid) as u8] + step + shape + msg.payload);
    } else if plan.fmt == 2 {
        assert(b =~= seq![(128 + csid) as u8] + step + msg.payload);
    } else if !st.last_had_ext_ts {
        assert(b =~= seq![(192 + csid) as u8] + msg.payload);
    }
}

/// A step of the clock that does not fit 24 bits stands behind the fields, in 32 bits, and
/// so does that of a header without fields whose step it repeats.
pub proof fn law_long_steps_stand_behind(w: WriterView, csid: u32, msg: MessageView)
    requires
        w.wf(),
        2 <= csid <= 63,
        w.states.contains_key(csid),
        w.states[csid].msg_stream_id == msg.msg_stream_id,
        w.states[csid].timestamp + 0xFF_FFFF <= msg.timestamp,
        w.states[csid].msg_type_id == msg.msg_type_id,
        w.states[csid].msg_length == msg.payload.len(),
        msg.payload.len() <= w.chunk_size,
    ensures
        ({
            let st = w.states[csid];
            let d = msg.timestamp - st.timestamp;
            let long = seq![
                (d / 0x100_0000) as u8,
                (d / 0x1_0000 % 0x100) as u8,
                (d / 0x100 % 0x100) as u8,
                (d % 0x100) as u8,
            ];
            let b = w.encoded(csid, msg);
            &&& d != st.last_delta ==> b == seq![(128 + csid) as u8, 0xFF, 0xFF, 0xFF] + long
                + msg.payload
            &&& d == st.last_delta && st.last_had_ext_ts ==> b == seq![(192 + csid) as u8] + long
                + msg.payload
        }),
{
    lemma_one_chunk(w, csid, msg);
    let st = w.states[csid];
    let len = msg.payload.len() as u32;
    let plan = header_plan(w.last(csid), msg, len);
    let d = msg.timestamp - st.timestamp;
    let b = w.encoded(csid, msg);
    let long = seq![
        (d / 0x100_0000) as u8,
        (d / 0x1_0000 % 0x100) as u8,
        (d / 0x100 % 0x100) as u8,
        (d % 0x100) as u8,
    ];
    assert(plan.delta == d);
    assert(be32_bytes(plan.delta) =~= long);
    if plan.fmt == 2 {
        assert(b =~= seq![(128 + csid) as u8, 0xFF, 0xFF, 0xFF] + long + msg.payload);
    } else if st.last_had_ext_ts {
        assert(b =~= seq![(192 + csid) as u8] + long + msg.payload);
    }
}

/// What a writer remembers of a chunk stream is the last message on it; other chunk
/// streams, the chunk size and what was put out before stay.
pub proof fn law_writer_remembers_the_last_message(
    w: WriterView,
    csid: u32,
    msg: MessageView,
    other: u32,
)
    requires
        msg.payload.len() <= 0xFFFF_FFFF,
    ensures
        ({
            let a = w.after(csid, msg);
            let st = a.states[csid];
            &&& a.stream == w.stream + w.encoded(csid, msg)
            &&& a.chunk_size == w.chunk_size
            &&& a.states.contains_key(csid)
            &&& st.msg_type_id == msg.msg_type_id
            &&& st.msg_stream_id == msg.msg_stream_id
            &&& st.msg_length == msg.payload.len()
            &&& st.timestamp == msg.timestamp
            &&& st.last_delta == msg.timestamp || st.last_delta == msg.timestamp
                - w.states[csid].timestamp
            &&& other != csid ==> a.states.contains_key(other) == w.states.contains_key(other)
            &&& other != csid && w.states.contains_key(other) ==> a.states[other]
                == w.states[other]
        }),
{
}

// ---------------------------------------------------------------------------
// Cutting
// ---------------------------------------------------------------------------

/// A long payload is cut into pieces of the chunk size, and the last is what is left:
/// piece `j` stands behind the first header, `j` others and the pieces before it, and each
/// piece but the first has the short header right before it.
pub proof fn law_payload_is_cut_evenly(
    head: Seq<u8>,
    next: Seq<u8>,
    payload: Seq<u8>,
    size: int,
    j: int,
)
    requires
        size >= 1,
        0 <= j,
        j * size < payload.len() || j == 0,
    ensures
        ({
            let b = chunked(head, next, payload, size);
            let at = head.len() + j * next.len() + j * size;
            let n = if payload.len() - j * size < size {
                payload.len() - j * size
            } else {
                size
            };
            &&& b.subrange(0, head.len() as int) == head
            &&& at + n <= b.len()
            &&& b.subrange(at, at + n) == payload.subrange(j * size, j * size + n)
            &&& j > 0 ==> b.subrange(at - next.len(), at) == next
            &&& payload.len() <= j * size + size ==> b.len() == at + n
        }),
    decreases payload.len(),
{
    let b = chunked(head, next, payload, size);
    assert(b.subrange(0, head.len() as int) =~= head);
    if payload.len() <= size {
        if j > 0 {
            assert(j * size >= size) by (nonlinear_arith)
                requires
                    j > 0,
                    size >= 1,
            ;
        }
        assert(0 * next.len() == 0 && 0 * size == 0);
        assert(b.subrange(head.len() as int, (head.len() + payload.len()) as int) =~= payload);
        assert(payload.subrange(0, payload.len() as int) =~= payload);
    } else {
        let tail = from(payload, size);
        let c = chunked(next, next, tail, size);
        assert(b == head + payload.subrange(0, size) + c);
        if j == 0 {
            assert(0 * next.len() == 0 && 0 * size == 0);
            assert(b.subrange(head.len() as int, head.len() + size) =~= payload.subrange(0, size));
        } else {
            let k = j - 1;
            assert(k * size == j * size - size) by (nonlinear_arith)
                requires
                    k == j - 1,
            ;
            assert(k * next.len() == j * next.len() - next.len()) by (nonlinear_arith)
                requires
                    k == j - 1,
            ;
            law_payload_is_cut_evenly(next, next, tail, size, k);
            let at = head.len() + j * next.len() + j * size;
            let there = next.len() + k * next.len() + k * size;
            let n = if payload.len() - j * size < size {
                payload.len() - j * size
            } else {
                size
            };
            assert(k * next.len() >= 0) by (nonlinear_arith)
                requires
                    k >= 0,
            ;
            assert(k * size >= 0) by (nonlinear_arith)
                requires
                    k >= 0,
                    size >= 1,
            ;
            assert(at == head.len() + size + there);
            assert(b.subrange(at, at + n) =~= c.subrange(there, there + n));
            assert(payload.subrange(j * size, j * size + n) =~= tail.subrange(
                k * size,
                k * size + n,
            ));
            assert(b.subrange(at - next.len(), at) =~= c.subrange(there - next.len(), there));
            if k == 0 {
                assert(c.subrange(0, next.len() as int) == next);
            }
        }
    }
}

/// The header of a later chunk of a message has no fields; it repeats the long form of the
/// time where the first one has it.
pub proof fn law_continuation_bytes(csid: u32, plan: HeaderPlan)
    requires
        2 <= csid <= 63,
    ensures
        !plan.ext ==> continuation_bytes(csid, plan) == seq![(192 + csid) as u8],
        plan.ext ==> continuation_bytes(csid, plan) == seq![
            (192 + csid) as u8,
            (plan.delta / 0x100_0000) as u8,
            (plan.delta / 0x1_0000 % 0x100) as u8,
            (plan.delta / 0x100 % 0x100) as u8,
            (plan.delta % 0x100) as u8,
        ],
{
    assert(!plan.ext ==> continuation_bytes(csid, plan) =~= seq![(192 + csid) as u8]);
    assert(plan.ext ==> continuation_bytes(csid, plan) =~= seq![
        (192 + csid) as u8,
        (plan.delta / 0x100_0000) as u8,
        (plan.delta / 0x1_0000 % 0x100) as u8,
        (plan.delta / 0x100 % 0x100) as u8,
        (plan.delta % 0x100) as u8,
    ]);
}

// ---------------------------------------------------------------------------
// Reading
// ---------------------------------------------------------------------------

proof fn lemma_whole_message(
    r: ReaderView,
    used: int,
    csid: u32,
    st: InView,
    payload: Seq<u8>,
    rest: Seq<u8>,
)
    requires
        chunk_header(r.stream, r.states) == (HeaderStep::Ready { used, csid, state: st }),
        0 < used,
        st.partial.len() == 0,
        st.msg_length == payload.len(),
        payload.len() <= r.chunk_size,
        used + payload.len() + rest.len() == r.stream.len(),
        r.stream.subrange(used, used + payload.len()) == payload,
        from(r.stream, (used + payload.len()) as int) == rest,
    ensures
        ({
            let (m, after) = read_from(r);
            &&& m == Ok::<MessageView, Fault>(
                MessageView {
                    msg_type_id: st.msg_type_id,
                    msg_stream_id: st.msg_stream_id,
                    timestamp: st.timestamp,
                    payload,
                },
            )
            &&& after.stream == rest
            &&& after.received_bytes == (r.received_bytes + used + payload.len()) % 0x1_0000_0000
            &&& after.chunk_size == r.chunk_size
            &&& after.window_ack_size == r.window_ack_size
            &&& after.last_ack_bytes == r.last_ack_bytes
            &&& after.states == r.states.insert(csid, st)
        }),
{
    reveal(chunk_step);
    let end = used + payload.len();
    assert(chunk_payload(st, r.chunk_size as int) == payload.len());
    assert(st.partial + r.stream.subrange(used, end as int) =~= payload);
    assert(st.partial =~= Seq::empty());
    assert((InView { partial: Seq::empty(), ..st }) == st);
}

/// A message with all fields is what its bytes say, whatever the reader knew before.
pub proof fn law_reads_a_full_header(
    r: ReaderView,
    h: Seq<u8>,
    payload: Seq<u8>,
    rest: Seq<u8>,
)
    requires
        h.len() == 12,
        2 <= h[0] <= 63,
        !(h[1] == 0xFF && h[2] == 0xFF && h[3] == 0xFF),
        payload.len() == h[4] * 0x1_0000 + h[5] * 0x100 + h[6],
        payload.len() <= r.chunk_size,
        r.stream == h + payload + rest,
    ensures
        read_from(r).0 == Ok::<MessageView, Fault>(
            MessageView {
                msg_type_id: h[7],
                msg_stream_id: (h[8] + h[9] * 0x100 + h[10] * 0x1_0000 + h[11] * 0x100_0000) as u32,
                timestamp: (h[1] * 0x1_0000 + h[2] * 0x100 + h[3]) as u32,
                payload,
            },
        ),
        read_from(r).1.stream == rest,
        read_from(r).1.received_bytes == (r.received_bytes + 12 + payload.len()) % 0x1_0000_0000,
{
    reveal(chunk_header);
    let s = r.stream;
    assert forall|i: int| 0 <= i < 12 implies s[i] == h[i] by {}
    law_fields_by_their_bytes(s, 1);
    law_fields_by_their_bytes(s, 4);
    law_fields_by_their_bytes(s, 8);
    let st = InView {
        msg_type_id: h[7],
        msg_stream_id: le32(s, 8),
        msg_length: be24(s, 4),
        timestamp: be24(s, 1),
        last_delta: be24(s, 1),
        last_had_ext_ts: false,
        partial: Seq::empty(),
    };
    assert(be24(s, 1) != 0xFF_FFFF);
    assert(chunk_header(s, r.states) == (HeaderStep::Ready { used: 12, csid: h[0] as u32, state: st }));
    assert(s.subrange(12, (12 + payload.len()) as int) =~= payload);
    assert(from(s, (12 + payload.len()) as int) =~= rest);
    lemma_whole_message(r, 12, h[0] as u32, st, payload, rest);
}

/// A message whose header has a length and a type takes the message stream from the last
/// one on its chunk stream, and counts its time from that one's.
pub proof fn law_reads_a_header_without_stream(
    r: ReaderView,
    h: Seq<u8>,
    payload: Seq<u8>,
    rest: Seq<u8>,
)
    requires
        h.len() == 8,
        66 <= h[0] <= 127,
        !(h[1] == 0xFF && h[2] == 0xFF && h[3] == 0xFF),
        payload.len() == h[4] * 0x1_0000 + h[5] * 0x100 + h[6],
        payload.len() <= r.chunk_size,
        r.states.contains_key((h[0] - 64) as u32),
        r.stream == h + payload + rest,
    ensures
        ({
            let st = r.states[(h[0] - 64) as u32];
            read_from(r).0 == Ok::<MessageView, Fault>(
                MessageView {
                    msg_type_id: h[7],
                    msg_stream_id: st.msg_stream_id,
                    timestamp: ((st.timestamp + (h[1] * 0x1_0000 + h[2] * 0x100 + h[3]))
                        % 0x1_0000_0000) as u32,
                    payload,
                },
            )
        }),
        read_from(r).1.stream == rest,
{
    reveal(chunk_header);
    let s = r.stream;
    let csid = (h[0] - 64) as u32;
    assert forall|i: int| 0 <= i < 8 implies s[i] == h[i] by {}
    law_fields_by_their_bytes(s, 1);
    law_fields_by_their_bytes(s, 4);
    let old = r.states[csid];
    let st = InView {
        msg_type_id: h[7],
        msg_length: be24(s, 4),
        timestamp: wrap_add(old.timestamp, be24(s, 1) as int),
        last_delta: be24(s, 1),
        last_had_ext_ts: false,
        partial: Seq::empty(),
        ..old
    };
    assert(be24(s, 1) != 0xFF_FFFF);
    assert(chunk_header(s, r.states) == (HeaderStep::Ready { used: 8, csid, state: st }));
    assert(s.subrange(8, (8 + payload.len()) as int) =~= payload);
    assert(from(s, (8 + payload.len()) as int) =~= rest);
    lemma_whole_message(r, 8, csid, st, payload, rest);
}

/// A message whose header has a step of the clock alone, or nothing, is like the last one on
/// its chunk stream in all else; with nothing, the clock makes the same step again.
pub proof fn law_reads_a_header_that_repeats(
    r: ReaderView,
    h: Seq<u8>,
    payload: Seq<u8>,
    rest: Seq<u8>,
)
    requires
        h.len() == 4 && 130 <= h[0] <= 191 && !(h[1] == 0xFF && h[2] == 0xFF && h[3] == 0xFF)
            || h.len() == 1 && 194 <= h[0] && !r.states[(h[0] % 64) as u32].last_had_ext_ts
            && r.states[(h[0] % 64) as u32].partial.len() == 0,
        r.states.contains_key((h[0] % 64) as u32),
        payload.len() == r.states[(h[0] % 64) as u32].msg_length,
        payload.len() <= r.chunk_size,
        r.stream == h + payload + rest,
    ensures
        ({
            let st = r.states[(h[0] % 64) as u32];
            let step = if h.len() == 4 {
                h[1] * 0x1_0000 + h[2] * 0x100 + h[3]
            } else {
                st.last_delta as int
            };
            read_from(r).0 == Ok::<MessageView, Fault>(
                MessageView {
                    msg_type_id: st.msg_type_id,
                    msg_stream_id: st.msg_stream_id,
                    timestamp: ((st.timestamp + step) % 0x1_0000_0000) as u32,
                    payload,
                },
            )
        }),
        read_from(r).1.stream == rest,
{
    reveal(chunk_header);
    let s = r.stream;
    let csid = (h[0] % 64) as u32;
    let n = h.len() as int;
    assert forall|i: int| 0 <= i < n implies s[i] == h[i] by {}
    let old = r.states[csid];
    assert(s.subrange(n, n + payload.len()) =~= payload);
    assert(from(s, n + payload.len()) =~= rest);
    if n == 4 {
        law_fields_by_their_bytes(s, 1);
        let st = InView {
            timestamp: wrap_add(old.timestamp, be24(s, 1) as int),
            last_delta: be24(s, 1),
            last_had_ext_ts: false,
            partial: Seq::empty(),
            ..old
        };
        assert(be24(s, 1) != 0xFF_FFFF);
        assert(chunk_header(s, r.states) == (HeaderStep::Ready { used: 4, csid, state: st }));
        lemma_whole_message(r, 4, csid, st, payload, rest);
    } else {
        let st = InView { timestamp: wrap_add(old.timestamp, old.last_delta as int), ..old };
        assert(chunk_header(s, r.states) == (HeaderStep::Ready { used: 1, csid, state: st }));
        lemma_whole_message(r, 1, csid, st, payload, rest);
    }
}

/// A header that leans on a chunk stream never seen is refused, whatever it says.
pub proof fn law_unknown_chunk_streams_are_refused(r: ReaderView)
    requires
        r.stream.len() >= 16,
        r.stream[0] >= 66,
        r.stream[0] % 64 >= 2,
        !r.states.contains_key((r.stream[0] % 64) as u32),
    ensures
        read_from(r).0 matches Err(f) && f is InvalidChunk,
        read_from(r).1.states == r.states,
{
    reveal(chunk_step);
    reveal(chunk_header);
}

/// Chunks of different chunk streams may come in any order: a chunk changes what is known of
/// its own chunk stream only.
pub proof fn law_chunk_streams_do_not_mix(
    s: Seq<u8>,
    size: int,
    states: Map<u32, InView>,
    other: u32,
)
    requires
        basic_header(s) matches Some((p, csid, fmt)) && csid != other,
    ensures
        chunk_step(s, size, states) matches ChunkStep::More { used, states: after } ==> (
        after.contains_key(other) == states.contains_key(other) && (states.contains_key(other)
            ==> after[other] == states[other])),
        chunk_step(s, size, states) matches ChunkStep::Done { used, states: after, message } ==> (
        after.contains_key(other) == states.contains_key(other) && (states.contains_key(other)
            ==> after[other] == states[other])),
{
    reveal(chunk_step);
    reveal(chunk_header);
}

// ---------------------------------------------------------------------------
// Windows and aborts
// ---------------------------------------------------------------------------

/// An acknowledgement names all bytes taken so far, and changes nothing but from where the
/// next window counts; without a window none is due.
pub proof fn law_ack_names_the_bytes_taken(m: ReaderView)
    ensures
        m.window_ack_size == 0 ==> ack_from(m) == (None::<u32>, m),
        ack_from(m).0 matches Some(n) ==> n == m.received_bytes && ack_from(m).1 == (ReaderView {
            last_ack_bytes: m.received_bytes,
            ..m
        }),
        ack_from(m).0 is None ==> ack_from(m).1 == m,
{
}

/// A window is kept as the peer asked for it, and touches nothing that was read.
pub proof fn law_window_is_kept(m: ReaderView, size: u32)
    ensures
        with_window(m, size).window_ack_size == size,
        with_window(m, size).received_bytes == m.received_bytes,
        with_window(m, size).last_ack_bytes == m.received_bytes,
        with_window(m, size).stream == m.stream,
        with_window(m, size).states == m.states,
        with_window(m, size).chunk_size == m.chunk_size,
{
}

/// An Abort drops what has come of the message in flight on a chunk stream and says whether
/// there was any; what later headers lean on stays.
pub proof fn law_abort_drops_the_message_in_flight(m: ReaderView, csid: u32)
    ensures
        ({
            let (dropped, after) = abort_from(m, csid);
            let st = m.states[csid];
            &&& dropped <==> m.states.contains_key(csid) && st.partial.len() > 0
            &&& after.states.contains_key(csid) == m.states.contains_key(csid)
            &&& m.states.contains_key(csid) ==> after.states[csid].partial.len() == 0
                && after.states[csid].msg_type_id == st.msg_type_id
                && after.states[csid].msg_stream_id == st.msg_stream_id
                && after.states[csid].msg_length == st.msg_length
                && after.states[csid].timestamp == st.timestamp
                && after.states[csid].last_delta == st.last_delta
                && after.states[csid].last_had_ext_ts == st.last_had_ext_ts
            &&& after.stream == m.stream
            &&& after.received_bytes == m.received_bytes
            &&& after.chunk_size == m.chunk_size
        }),
{
}

} // verus!
