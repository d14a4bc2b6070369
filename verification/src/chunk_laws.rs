//! What a reader makes of the chunks that a writer put out.

use vstd::prelude::*;
#[allow(unused_imports)]
use crate::chunk::{
    abort_from, ack_from, with_window, basic_header, basic_header_bytes, chunk_header,
    chunk_payload, chunk_step, chunked, continuation_bytes, ext_bytes, head_bytes, header_fields,
    header_plan, header_width, read_from, valid_csid, wrap_add, ChunkStep, HeaderPlan, HeaderStep,
    InView, MessageView, OutState, ReaderView, WriterView,
};
#[allow(unused_imports)]
use crate::error::Fault;
#[allow(unused_imports)]
use crate::wire::{
    be24, be24_bytes, be32, be32_bytes, from, le32, le32_bytes, lemma_be24, lemma_be32, lemma_le32,
};

verus! {

/// Whether a reader remembers of a chunk stream what the writer does, with no
/// message in flight.
pub open spec fn remembers(out: OutState, st: InView) -> bool {
    &&& st.msg_type_id == out.msg_type_id
    &&& st.msg_stream_id == out.msg_stream_id
    &&& st.msg_length == out.msg_length
    &&& st.timestamp == out.timestamp
    &&& st.last_delta == out.last_delta
    &&& st.last_had_ext_ts == out.last_had_ext_ts
    &&& st.partial == Seq::<u8>::empty()
}

/// Whether a reader follows a writer: same chunk size, and the same memory of
/// every chunk stream that was written on.
pub open spec fn in_sync(w: WriterView, r: ReaderView) -> bool {
    &&& w.chunk_size == r.chunk_size
    &&& forall|c: u32| #[trigger]
        w.states.contains_key(c) ==> r.states.contains_key(c) && remembers(
            w.states[c],
            r.states[c],
        )
}

proof fn lemma_basic_header(fmt: u8, csid: u32, rest: Seq<u8>)
    requires
        fmt <= 3,
        valid_csid(csid),
    ensures
        ({
            let h = basic_header_bytes(fmt, csid);
            basic_header(h + rest) == Some((h.len() as int, csid, fmt))
        }),
{
    let h = basic_header_bytes(fmt, csid);
    let s = h + rest;
    assert(s[0] == h[0]);
    if csid > 63 {
        assert(s[1] == h[1]);
    }
    if csid > 319 {
        assert(s[2] == h[2]);
    }
}

/// The state that the first chunk of a message leaves.
spec fn primed(plan: HeaderPlan, msg: MessageView, partial: Seq<u8>) -> InView {
    InView {
        msg_type_id: msg.msg_type_id,
        msg_stream_id: msg.msg_stream_id,
        msg_length: msg.payload.len() as u32,
        timestamp: msg.timestamp,
        last_delta: plan.delta,
        last_had_ext_ts: plan.ext,
        partial,
    }
}

/// The fields of a full header, read back.
#[verifier::rlimit(30)]
proof fn lemma_full_fields(csid: u32, plan: HeaderPlan, msg: MessageView, len: u32, rest: Seq<u8>)
    requires
        valid_csid(csid),
        plan.fmt < 3,
        plan.ext <==> plan.delta >= 0x00FF_FFFF,
        len <= 0x00FF_FFFF,
    ensures
        ({
            let s = head_bytes(csid, plan, msg, len) + rest;
            let p = basic_header_bytes(plan.fmt, csid).len() as int;
            let q = p + header_width(plan.fmt);
            &&& basic_header(s) == Some((p, csid, plan.fmt))
            &&& be24(s, p) == if plan.ext {
                0x00FF_FFFF
            } else {
                plan.delta
            }
            &&& plan.ext ==> be32(s, q) == plan.delta
            &&& plan.fmt < 2 ==> be24(s, p + 3) == len && s[p + 6] == msg.msg_type_id
            &&& plan.fmt == 0 ==> le32(s, p + 7) == msg.msg_stream_id
            &&& head_bytes(csid, plan, msg, len).len() == q + if plan.ext {
                4int
            } else {
                0
            }
        }),
{
    let b = basic_header_bytes(plan.fmt, csid);
    let f = header_fields(plan, msg, len);
    let e = ext_bytes(plan);
    let s = head_bytes(csid, plan, msg, len) + rest;
    let p = b.len() as int;
    let q = p + header_width(plan.fmt);
    let field: u32 = if plan.ext {
        0x00FF_FFFF
    } else {
        plan.delta
    };
    assert(s =~= b + (f + e + rest));
    lemma_basic_header(plan.fmt, csid, f + e + rest);
    assert(s.subrange(p, p + 3) =~= be24_bytes(field));
    lemma_be24(s, p, field);
    if plan.ext {
        assert(s.subrange(q, q + 4) =~= be32_bytes(plan.delta));
        lemma_be32(s, q, plan.delta);
    }
    if plan.fmt < 2 {
        assert(s.subrange(p + 3, p + 6) =~= be24_bytes(len));
        lemma_be24(s, p + 3, len);
        assert(s[p + 6] == msg.msg_type_id);
    }
    if plan.fmt == 0 {
        assert(s.subrange(p + 7, p + 11) =~= le32_bytes(msg.msg_stream_id));
        lemma_le32(s, p + 7, msg.msg_stream_id);
    }
}

proof fn lemma_full_head(csid: u32, w: WriterView, r: ReaderView, msg: MessageView, rest: Seq<u8>)
    requires
        in_sync(w, r),
        valid_csid(csid),
        msg.payload.len() <= 0x00FF_FFFF,
        header_plan(w.last(csid), msg, msg.payload.len() as u32).fmt != 3,
    ensures
        ({
            let len = msg.payload.len() as u32;
            let plan = header_plan(w.last(csid), msg, len);
            let h = head_bytes(csid, plan, msg, len);
            chunk_header(h + rest, r.states) == (HeaderStep::Ready {
                used: h.len() as int,
                csid,
                state: primed(plan, msg, Seq::empty()),
            })
        }),
{
    reveal(chunk_header);
    let len = msg.payload.len() as u32;
    let plan = header_plan(w.last(csid), msg, len);
    lemma_full_fields(csid, plan, msg, len, rest);
}

proof fn lemma_repeat_head(csid: u32, w: WriterView, r: ReaderView, msg: MessageView, rest: Seq<u8>)
    requires
        in_sync(w, r),
        valid_csid(csid),
        msg.payload.len() <= 0x00FF_FFFF,
        header_plan(w.last(csid), msg, msg.payload.len() as u32).fmt == 3,
    ensures
        ({
            let len = msg.payload.len() as u32;
            let plan = header_plan(w.last(csid), msg, len);
            let h = head_bytes(csid, plan, msg, len);
            chunk_header(h + rest, r.states) == (HeaderStep::Ready {
                used: h.len() as int,
                csid,
                state: primed(plan, msg, Seq::empty()),
            })
        }),
{
    reveal(chunk_header);
    let len = msg.payload.len() as u32;
    let plan = header_plan(w.last(csid), msg, len);
    let b = basic_header_bytes(3, csid);
    let e = ext_bytes(plan);
    let h = head_bytes(csid, plan, msg, len);
    assert(h + rest =~= b + (e + rest));
    lemma_basic_header(3, csid, e + rest);
}

proof fn lemma_continuation(
    csid: u32,
    plan: HeaderPlan,
    msg: MessageView,
    partial: Seq<u8>,
    states: Map<u32, InView>,
    rest: Seq<u8>,
)
    requires
        valid_csid(csid),
        partial.len() > 0,
        states.contains_key(csid),
        states[csid] == primed(plan, msg, partial),
    ensures
        ({
            let h = continuation_bytes(csid, plan);
            chunk_header(h + rest, states) == (HeaderStep::Ready {
                used: h.len() as int,
                csid,
                state: primed(plan, msg, partial),
            })
        }),
{
    reveal(chunk_header);
    let b = basic_header_bytes(3, csid);
    let e = ext_bytes(plan);
    assert(continuation_bytes(csid, plan) + rest =~= b + (e + rest));
    lemma_basic_header(3, csid, e + rest);
}

proof fn lemma_advanced_twice(
    m: ReaderView,
    a: int,
    s1: Map<u32, InView>,
    b: int,
    s2: Map<u32, InView>,
)
    requires
        0 <= a,
        0 <= b,
        a + b <= m.stream.len(),
    ensures
        m.advanced(a, s1).advanced(b, s2) == m.advanced(a + b, s2),
{
    assert(from(from(m.stream, a), b) =~= from(m.stream, a + b));
}

/// The rest of a message, once the first `done.len()` payload bytes are in.
proof fn lemma_chunks(
    m: ReaderView,
    csid: u32,
    plan: HeaderPlan,
    msg: MessageView,
    head: Seq<u8>,
    done: Seq<u8>,
    rest: Seq<u8>,
    tail: Seq<u8>,
)
    requires
        m.wf(),
        valid_csid(csid),
        msg.payload.len() <= 0x00FF_FFFF,
        done + rest == msg.payload,
        m.stream == chunked(head, continuation_bytes(csid, plan), rest, m.chunk_size as int) + tail,
        head.len() > 0,
        chunk_header(m.stream, m.states) == (HeaderStep::Ready {
            used: head.len() as int,
            csid,
            state: primed(plan, msg, done),
        }),
    ensures
        ({
            let bytes = chunked(head, continuation_bytes(csid, plan), rest, m.chunk_size as int);
            read_from(m) == (
                Ok::<MessageView, Fault>(msg),
                m.advanced(
                    bytes.len() as int,
                    m.states.insert(csid, primed(plan, msg, Seq::empty())),
                ),
            )
        }),
    decreases rest.len(),
{
    reveal(chunk_step);
    let size = m.chunk_size as int;
    let next = continuation_bytes(csid, plan);
    let st = primed(plan, msg, done);
    let n = head.len() as int;
    if rest.len() <= size {
        assert(m.stream =~= head + rest + tail);
        assert(m.stream.subrange(n, n + rest.len()) =~= rest);
    } else {
        let piece = rest.subrange(0, size);
        let more = from(rest, size);
        let after = chunked(next, next, more, size);
        assert(m.stream =~= head + piece + after + tail);
        assert(m.stream.subrange(n, n + size) =~= piece);
        let states = m.states.insert(csid, primed(plan, msg, done + piece));
        let m2 = m.advanced(n + size, states);
        assert(chunk_step(m.stream, size, m.states) == (ChunkStep::More {
            used: n + size,
            states,
        }));
        assert(m2.stream =~= after + tail);
        assert(done + piece + more =~= msg.payload);
        assert(next.len() > 0);
        lemma_starts_with(next, next, more, size);
        let behind = from(m2.stream, next.len() as int);
        assert(m2.stream =~= next + behind);
        lemma_continuation(csid, plan, msg, done + piece, states, behind);
        assert(m2.wf());
        lemma_chunks(m2, csid, plan, msg, next, done + piece, more, tail);
        let last = m2.states.insert(csid, primed(plan, msg, Seq::empty()));
        assert(last =~= m.states.insert(csid, primed(plan, msg, Seq::empty())));
        lemma_advanced_twice(m, n + size, states, after.len() as int, last);
    }
}

proof fn lemma_starts_with(head: Seq<u8>, next: Seq<u8>, payload: Seq<u8>, size: int)
    ensures
        chunked(head, next, payload, size).len() >= head.len(),
        chunked(head, next, payload, size).subrange(0, head.len() as int) == head,
{
    assert(chunked(head, next, payload, size).subrange(0, head.len() as int) =~= head);
}

/// A reader that follows a writer gets back each message that the writer puts
/// out, up to the last byte of it and no further, and follows the writer still.
/// Payloads longer than the 24-bit length field are left out.
pub proof fn law_message_reads_back(
    w: WriterView,
    r: ReaderView,
    csid: u32,
    msg: MessageView,
    tail: Seq<u8>,
)
    requires
        w.wf(),
        r.wf(),
        in_sync(w, r),
        valid_csid(csid),
        msg.payload.len() <= 0x00FF_FFFF,
        r.stream == w.encoded(csid, msg) + tail,
    ensures
        read_from(r).0 == Ok::<MessageView, Fault>(msg),
        read_from(r).1.stream == tail,
        read_from(r).1.received_bytes == wrap_add(
            r.received_bytes,
            w.encoded(csid, msg).len() as int,
        ),
        read_from(r).1.wf(),
        in_sync(w.after(csid, msg), read_from(r).1),
{
    let len = msg.payload.len() as u32;
    let plan = header_plan(w.last(csid), msg, len);
    let head = head_bytes(csid, plan, msg, len);
    let next = continuation_bytes(csid, plan);
    let size = w.chunk_size as int;
    lemma_starts_with(head, next, msg.payload, size);
    let behind = from(r.stream, head.len() as int);
    assert(r.stream =~= head + behind);
    if plan.fmt == 3 {
        lemma_repeat_head(csid, w, r, msg, behind);
    } else {
        lemma_full_head(csid, w, r, msg, behind);
    }
    assert(Seq::<u8>::empty() + msg.payload =~= msg.payload);
    lemma_chunks(r, csid, plan, msg, head, Seq::empty(), msg.payload, tail);
    assert(read_from(r).1.stream =~= tail);
}

/// The writer after a run of messages, each on its chunk stream.
pub open spec fn after_all(w: WriterView, sent: Seq<(u32, MessageView)>) -> WriterView
    decreases sent.len(),
{
    if sent.len() == 0 {
        w
    } else {
        after_all(w.after(sent[0].0, sent[0].1), sent.subrange(1, sent.len() as int))
    }
}

/// The bytes of a run of messages.
pub open spec fn encoded_all(w: WriterView, sent: Seq<(u32, MessageView)>) -> Seq<u8>
    decreases sent.len(),
{
    if sent.len() == 0 {
        Seq::empty()
    } else {
        w.encoded(sent[0].0, sent[0].1) + encoded_all(
            w.after(sent[0].0, sent[0].1),
            sent.subrange(1, sent.len() as int),
        )
    }
}

/// The reader after `n` messages.
pub open spec fn read_times(r: ReaderView, n: nat) -> ReaderView
    decreases n,
{
    if n == 0 {
        r
    } else {
        read_times(read_from(r).1, (n - 1) as nat)
    }
}

/// A run of messages on any chunk streams reads back message by message, in
/// order, with nothing lost and nothing left over.
pub proof fn law_messages_read_back(
    w: WriterView,
    r: ReaderView,
    sent: Seq<(u32, MessageView)>,
    tail: Seq<u8>,
)
    requires
        w.wf(),
        r.wf(),
        in_sync(w, r),
        forall|i: int|
            0 <= i < sent.len() ==> valid_csid((#[trigger] sent[i]).0)
                && sent[i].1.payload.len() <= 0x00FF_FFFF,
        r.stream == encoded_all(w, sent) + tail,
    ensures
        forall|i: int|
            0 <= i < sent.len() ==> (#[trigger] read_from(read_times(r, i as nat))).0 == Ok::<
                MessageView,
                Fault,
            >(sent[i].1),
        read_times(r, sent.len()).stream == tail,
        in_sync(after_all(w, sent), read_times(r, sent.len())),
    decreases sent.len(),
{
    if sent.len() == 0 {
        assert(r.stream =~= tail);
    } else {
        let csid = sent[0].0;
        let msg = sent[0].1;
        let w2 = w.after(csid, msg);
        let rest = sent.subrange(1, sent.len() as int);
        let behind = encoded_all(w2, rest) + tail;
        assert(r.stream =~= w.encoded(csid, msg) + behind);
        law_message_reads_back(w, r, csid, msg, behind);
        let r2 = read_from(r).1;
        assert forall|i: int| 0 <= i < rest.len() implies valid_csid((#[trigger] rest[i]).0)
            && rest[i].1.payload.len() <= 0x00FF_FFFF by {
            assert(rest[i] == sent[i + 1]);
        }
        law_messages_read_back(w2, r2, rest, tail);
        assert forall|i: int| 0 <= i < sent.len() implies (#[trigger] read_from(
            read_times(r, i as nat),
        )).0 == Ok::<MessageView, Fault>(sent[i].1) by {
            if i > 0 {
                let j = (i - 1) as nat;
                assert(read_from(read_times(r2, j)).0 == Ok::<MessageView, Fault>(rest[j as int].1));
                assert(read_times(r, i as nat) == read_times(r2, j));
                assert(rest[j as int] == sent[i]);
            }
        }
    }
}

/// Bytes that arrive later change nothing about a message that is complete:
/// they stay in the stream behind it.
pub proof fn law_later_bytes_wait(r: ReaderView, more: Seq<u8>)
    requires
        r.wf(),
        read_from(r).0 is Ok,
    ensures
        read_from(ReaderView { stream: r.stream + more, ..r }).0 == read_from(r).0,
        read_from(ReaderView { stream: r.stream + more, ..r }).1 == (ReaderView {
            stream: read_from(r).1.stream + more,
            ..read_from(r).1
        }),
    decreases r.stream.len(),
{
    let r2 = ReaderView { stream: r.stream + more, ..r };
    lemma_step_prefix(r, more);
    match chunk_step(r.stream, r.chunk_size as int, r.states) {
        ChunkStep::Done { used, states, message } => {
            assert(from(r2.stream, used) =~= from(r.stream, used) + more);
        },
        ChunkStep::More { used, states } => {
            assert(from(r2.stream, used) =~= from(r.stream, used) + more);
            let m = r.advanced(used, states);
            law_later_bytes_wait(m, more);
            assert(r2.advanced(used, states) == (ReaderView { stream: m.stream + more, ..m }));
        },
        _ => {},
    }
}

/// A chunk that is there in full is the same chunk with bytes behind it, and
/// taking it keeps the reader well-formed.
proof fn lemma_step_prefix(r: ReaderView, more: Seq<u8>)
    requires
        r.wf(),
    ensures
        ({
            let step = chunk_step(r.stream, r.chunk_size as int, r.states);
            &&& !(step is Short) ==> chunk_step(r.stream + more, r.chunk_size as int, r.states)
                == step
            &&& match step {
                ChunkStep::Short => true,
                ChunkStep::Bad { used, fault } => 0 < used <= r.stream.len(),
                ChunkStep::Done { used, states, message } => 0 < used <= r.stream.len()
                    && r.advanced(used, states).wf(),
                ChunkStep::More { used, states } => 0 < used <= r.stream.len() && r.advanced(
                    used,
                    states,
                ).wf(),
            }
        }),
{
    reveal(chunk_step);
    reveal(chunk_header);
    let s = r.stream;
    let t = s + more;
    match chunk_header(s, r.states) {
        HeaderStep::Short => {},
        _ => {
            let (p, _, fmt) = basic_header(s).unwrap();
            assert(basic_header(t) == basic_header(s));
            if fmt != 3 {
                reveal(be24);
                reveal(be32);
                reveal(le32);
                let q = p + header_width(fmt);
                assert(be24(t, p) == be24(s, p));
                assert(be24(s, p) == 0x00FF_FFFF ==> be32(t, q) == be32(s, q));
                assert(fmt < 2 ==> be24(t, p + 3) == be24(s, p + 3) && t[p + 6] == s[p + 6]);
                assert(fmt == 0 ==> le32(t, p + 7) == le32(s, p + 7));
            }
            assert(chunk_header(t, r.states) == chunk_header(s, r.states));
            if let HeaderStep::Ready { used, csid, state } = chunk_header(s, r.states) {
                let end = used + chunk_payload(state, r.chunk_size as int);
                if s.len() >= end {
                    assert(t.subrange(used, end) =~= s.subrange(used, end));
                }
            }
        },
    }
}

/// A message takes at least one byte out of the stream, and whatever reading
/// comes to, the reader stays well-formed.
pub proof fn law_reading_takes_bytes(r: ReaderView)
    requires
        r.wf(),
    ensures
        read_from(r).1.wf(),
        read_from(r).1.stream.len() <= r.stream.len(),
        read_from(r).0 is Ok ==> read_from(r).1.stream.len() < r.stream.len(),
    decreases r.stream.len(),
{
    lemma_step_prefix(r, Seq::empty());
    match chunk_step(r.stream, r.chunk_size as int, r.states) {
        ChunkStep::More { used, states } => {
            law_reading_takes_bytes(r.advanced(used, states));
        },
        _ => {},
    }
}

/// An acknowledgement that fell due is not due again until more bytes come.
pub proof fn law_ack_falls_due_once(m: ReaderView)
    requires
        ack_from(m).0 is Some,
    ensures
        ack_from(ack_from(m).1) == (None::<u32>, ack_from(m).1),
{
}

/// After an acknowledgement, the next one is due exactly when a full window of
/// bytes has come, whether or not the counter wrapped in between.
pub proof fn law_ack_falls_due_each_window(m: ReaderView, taken: u32)
    requires
        m.last_ack_bytes == m.received_bytes,
        m.window_ack_size != 0,
    ensures
        ({
            let later = ReaderView {
                received_bytes: wrap_add(m.received_bytes, taken as int),
                ..m
            };
            ack_from(later).0 == if taken >= m.window_ack_size {
                Some(later.received_bytes)
            } else {
                None
            }
        }),
{
}

/// A new window owes nothing for the bytes counted before it.
pub proof fn law_new_window_owes_nothing(m: ReaderView, size: u32)
    ensures
        ack_from(with_window(m, size)).0 is None,
{
}

/// A second Abort on a chunk stream finds nothing to drop.
pub proof fn law_abort_once(m: ReaderView, csid: u32)
    ensures
        abort_from(abort_from(m, csid).1, csid) == (false, abort_from(m, csid).1),
{
}

/// An Abort leaves every other chunk stream alone.
pub proof fn law_abort_spares_others(m: ReaderView, csid: u32, other: u32)
    requires
        other != csid,
    ensures
        abort_from(m, csid).1.states.contains_key(other) == m.states.contains_key(other),
        m.states.contains_key(other) ==> abort_from(m, csid).1.states[other] == m.states[other],
{
}

} // verus!
