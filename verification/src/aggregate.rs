//! Aggregate messages: several messages in the payload of one.
//!
//! The payload is a run of records. Each is an 11-byte header (type, 24-bit
//! length, timestamp as its low 24 bits and then its high 8 bits, 24-bit stream
//! id), the sub-message's payload, and a 4-byte back pointer that repeats the
//! size of header and payload.

use vstd::prelude::*;
use crate::chunk::Message;
#[allow(unused_imports)]
use crate::chunk::MessageView;
use crate::error::{invalid_chunk, Error, Fault, Result};
use crate::message::MSG_AGGREGATE;
#[allow(unused_imports)]
use crate::model::{
    lemma_around_nothing, lemma_associative, lemma_prepend_nothing, lemma_prepend_twice, prepended,
    views,
};
use crate::text::{cat, cat4, cat5, decimal_text};
#[allow(unused_imports)]
use crate::text::decimal;
use crate::wire::{copy_range, get_be24, get_be32, put_be24, put_be32, put_bytes};
#[allow(unused_imports)]
use crate::wire::{be24, be24_bytes, be32, be32_bytes, from, lemma_be24, lemma_be32, lemma_from_fields};

verus! {

/// Bytes of a sub-message header.
pub const SUB_HEADER_SIZE: usize = 11;

/// Bytes of a back pointer.
pub const BACK_POINTER_SIZE: usize = 4;

const UI24_MAX: u32 = 0x00FF_FFFF;

/// The timestamp of the record at the front of `body`.
pub open spec fn sub_timestamp(body: Seq<u8>) -> u32 {
    (body[7] * 0x100_0000 + be24(body, 4)) as u32
}

/// The sub-message at the front of `body`, on the clock and the stream of
/// `outer`, if `base` is the timestamp of the first record.
pub open spec fn sub_message(body: Seq<u8>, outer: MessageView, base: u32) -> MessageView {
    MessageView {
        msg_type_id: body[0],
        msg_stream_id: outer.msg_stream_id,
        timestamp: ((outer.timestamp + sub_timestamp(body) - base) % 0x1_0000_0000) as u32,
        payload: body.subrange(11, 11 + be24(body, 1)),
    }
}

/// The error for a back pointer that says `got`.
pub open spec fn back_pointer_fault(got: u32, expected: u32) -> Fault {
    Fault::InvalidChunk(
        "aggregate: back pointer "@ + decimal(got as nat) + " != 11 + DataSize "@ + decimal(
            expected as nat,
        ) + " (§7.1.6 / §E.3)"@,
    )
}

/// The records of `body`, in order. `first` is the timestamp of the first
/// record of the aggregate, once it is known.
pub open spec fn sub_messages(
    body: Seq<u8>,
    outer: MessageView,
    first: Option<u32>,
) -> core::result::Result<Seq<MessageView>, Fault>
    decreases body.len(),
{
    let size = be24(body, 1) as int;
    if body.len() == 0 {
        Ok(Seq::empty())
    } else if body.len() < 11 || body.len() < 15 + size {
        Err(Fault::UnexpectedEof)
    } else if be32(body, 11 + size) != 11 + size {
        Err(back_pointer_fault(be32(body, 11 + size), (11 + size) as u32))
    } else {
        let base = match first {
            Some(t) => t,
            None => sub_timestamp(body),
        };
        prepended(
            seq![sub_message(body, outer, base)],
            sub_messages(from(body, 15 + size), outer, Some(base)),
        )
    }
}

/// What an aggregate message holds.
pub open spec fn aggregate_parts(msg: MessageView) -> core::result::Result<
    Seq<MessageView>,
    Fault,
> {
    if msg.msg_type_id != MSG_AGGREGATE {
        Err(
            Fault::InvalidChunk(
                "aggregate: expected message type 22, got "@ + decimal(msg.msg_type_id as nat),
            ),
        )
    } else {
        sub_messages(msg.payload, msg, None)
    }
}

fn back_pointer_error(got: u32, expected: u32) -> (e: Error)
    ensures
        e@ == back_pointer_fault(got, expected),
{
    let said = decimal_text(got as u64);
    let want = decimal_text(expected as u64);
    Error::InvalidChunk(
        cat5(
            "aggregate: back pointer ",
            said.as_str(),
            " != 11 + DataSize ",
            want.as_str(),
            " (§7.1.6 / §E.3)",
        ),
    )
}

/// The sub-message at offset `pos`, the timestamp that others are counted from, and
/// where the next record starts.
fn parse_sub(msg: &Message, pos: usize, first: Option<u32>) -> (r: Result<(Message, u32, usize)>)
    requires
        pos < msg.payload@.len(),
    ensures
        match r {
            Ok((sub, base, next)) => pos < next <= msg.payload@.len() && sub_messages(
                from(msg.payload@, pos as int),
                msg@,
                first,
            ) == prepended(
                seq![sub@],
                sub_messages(from(msg.payload@, next as int), msg@, Some(base)),
            ),
            Err(e) => sub_messages(from(msg.payload@, pos as int), msg@, first) == Err::<
                Seq<MessageView>,
                Fault,
            >(e@),
        },
{
    let ghost body = msg.payload@;
    let ghost rest = from(body, pos as int);
    let n: usize = msg.payload.len();
    if n - pos < SUB_HEADER_SIZE {
        return Err(Error::UnexpectedEof);
    }
    proof {
        lemma_from_fields(body, pos as int, 1);
        lemma_from_fields(body, pos as int, 4);
    }
    let size: usize = get_be24(msg.payload.as_slice(), pos + 1) as usize;
    let wire_ts: u32 = msg.payload[pos + 7] as u32 * 0x100_0000 + get_be24(
        msg.payload.as_slice(),
        pos + 4,
    );
    let start: usize = pos + SUB_HEADER_SIZE;
    if n - start < size {
        return Err(Error::UnexpectedEof);
    }
    let end: usize = start + size;
    if n - end < BACK_POINTER_SIZE {
        return Err(Error::UnexpectedEof);
    }
    proof {
        lemma_from_fields(body, pos as int, 11 + size);
    }
    let back: u32 = get_be32(msg.payload.as_slice(), end);
    let expected: u32 = 11 + size as u32;
    if back != expected {
        return Err(back_pointer_error(back, expected));
    }
    let base: u32 = match first {
        Some(t) => t,
        None => wire_ts,
    };
    let timestamp: u32 = msg.timestamp.wrapping_add(wire_ts.wrapping_sub(base));
    let sub = Message {
        msg_type_id: msg.payload[pos],
        msg_stream_id: msg.msg_stream_id,
        timestamp,
        payload: copy_range(msg.payload.as_slice(), start, end),
    };
    proof {
        assert(sub.payload@ =~= rest.subrange(11, 11 + size));
        assert(sub@ == sub_message(rest, msg@, base));
        assert(from(rest, 15 + size) =~= from(body, end + 4));
    }
    Ok((sub, base, end + BACK_POINTER_SIZE))
}

/// Split an aggregate message into its sub-messages.
///
/// The timestamps are shifted so that the first sub-message lands on the
/// aggregate's own timestamp, and the aggregate's stream id takes the place of
/// theirs. A record that is cut short is [`Error::UnexpectedEof`]; a wrong back
/// pointer, and a message of another type, are [`Error::InvalidChunk`].
pub fn parse_aggregate(msg: &Message) -> (r: Result<Vec<Message>>)
    ensures
        match r {
            Ok(subs) => aggregate_parts(msg@) == Ok::<Seq<MessageView>, Fault>(views(subs@)),
            Err(e) => aggregate_parts(msg@) == Err::<Seq<MessageView>, Fault>(e@),
        },
{
    if msg.msg_type_id != MSG_AGGREGATE {
        let got = decimal_text(msg.msg_type_id as u64);
        return Err(
            Error::InvalidChunk(cat("aggregate: expected message type 22, got ", got.as_str())),
        );
    }
    let ghost body = msg.payload@;
    let n: usize = msg.payload.len();
    let mut pos: usize = 0;
    let mut subs: Vec<Message> = Vec::new();
    let mut first: Option<u32> = None;
    proof {
        assert(from(body, 0) =~= body);
        assert(views(subs@) =~= Seq::empty());
        lemma_prepend_nothing(sub_messages(body, msg@, None));
    }
    while pos < n
        invariant
            pos <= n,
            n == msg.payload@.len(),
            body == msg.payload@,
            msg.msg_type_id == MSG_AGGREGATE,
            sub_messages(body, msg@, None) == prepended(
                views(subs@),
                sub_messages(from(body, pos as int), msg@, first),
            ),
        decreases n - pos,
    {
        match parse_sub(msg, pos, first) {
            Err(e) => {
                return Err(e);
            },
            Ok((sub, base, next)) => {
                let ghost before = views(subs@);
                let ghost here = sub@;
                subs.push(sub);
                proof {
                    assert(views(subs@) =~= before + seq![here]);
                    lemma_prepend_twice(
                        before,
                        seq![here],
                        sub_messages(from(body, next as int), msg@, Some(base)),
                    );
                }
                first = Some(base);
                pos = next;
            },
        }
    }
    proof {
        assert(views(subs@) + Seq::empty() =~= views(subs@));
    }
    Ok(subs)
}

/// The record of one sub-message.
#[verifier::opaque]
pub open spec fn sub_bytes(sub: MessageView) -> Seq<u8> {
    let size = sub.payload.len() as u32;
    seq![sub.msg_type_id] + be24_bytes(size) + be24_bytes(sub.timestamp) + seq![
        (sub.timestamp / 0x100_0000) as u8,
        0,
        0,
        0,
    ] + sub.payload + be32_bytes((11 + size) as u32)
}

/// The records of a run of sub-messages, or why they cannot be packed.
pub open spec fn packed(subs: Seq<MessageView>) -> core::result::Result<Seq<u8>, Fault>
    decreases subs.len(),
{
    if subs.len() == 0 {
        Ok(Seq::empty())
    } else {
        match packed(subs.drop_last()) {
            Err(e) => Err(e),
            Ok(body) => if subs.last().payload.len() > 0x00FF_FFFF {
                Err(
                    Fault::InvalidChunk(
                        "aggregate: sub payload "@ + decimal(subs.last().payload.len())
                            + " exceeds UI24 max "@ + decimal(0x00FF_FFFF),
                    ),
                )
            } else if body.len() + 15 + subs.last().payload.len() > u32::MAX {
                Err(Fault::InvalidChunk("aggregate: cumulative body would exceed u32"@))
            } else {
                Ok(body + sub_bytes(subs.last()))
            },
        }
    }
}

/// The aggregate message of a run of sub-messages.
pub open spec fn aggregate_of(
    stream_id: u32,
    subs: Seq<MessageView>,
) -> core::result::Result<MessageView, Fault> {
    match packed(subs) {
        Err(e) => Err(e),
        Ok(payload) => Ok(
            MessageView {
                msg_type_id: MSG_AGGREGATE,
                msg_stream_id: stream_id,
                timestamp: if subs.len() == 0 {
                    0
                } else {
                    subs[0].timestamp
                },
                payload,
            },
        ),
    }
}

proof fn lemma_packed_prefix(subs: Seq<MessageView>, n: int)
    requires
        0 <= n <= subs.len(),
        packed(subs.subrange(0, n)) is Err,
    ensures
        packed(subs) == packed(subs.subrange(0, n)),
    decreases subs.len() - n,
{
    if n < subs.len() {
        assert(subs.subrange(0, n + 1).drop_last() =~= subs.subrange(0, n));
        lemma_packed_prefix(subs, n + 1);
    } else {
        assert(subs.subrange(0, n) =~= subs);
    }
}

/// Pack a run of sub-messages into one aggregate message. Its timestamp is the
/// first sub-message's; the stream ids of the records are 0, the aggregate
/// carries the real one. A payload longer than 24 bits can say, or a body
/// longer than 32 bits can say, is [`Error::InvalidChunk`].
pub fn build_aggregate(stream_id: u32, subs: &[Message]) -> (r: Result<Message>)
    ensures
        match r {
            Ok(m) => aggregate_of(stream_id, views(subs@)) == Ok::<MessageView, Fault>(m@),
            Err(e) => aggregate_of(stream_id, views(subs@)) == Err::<MessageView, Fault>(e@),
        },
{
    let ghost all = views(subs@);
    let timestamp: u32 = if subs.len() == 0 {
        0
    } else {
        subs[0].timestamp
    };
    let mut body: Vec<u8> = Vec::new();
    let mut i: usize = 0;
    while i < subs.len()
        invariant
            i <= subs@.len(),
            all == views(subs@),
            body@.len() <= u32::MAX,
            packed(all.subrange(0, i as int)) == Ok::<Seq<u8>, Fault>(body@),
        decreases subs@.len() - i,
    {
        let sub = &subs[i];
        let ghost was = body@;
        let size: usize = sub.payload.len();
        proof {
            assert(all.subrange(0, i + 1).drop_last() =~= all.subrange(0, i as int));
            assert(all.subrange(0, i + 1).last() == sub@);
        }
        if size > UI24_MAX as usize {
            let got = decimal_text(size as u64);
            let max = decimal_text(UI24_MAX as u64);
            proof {
                lemma_packed_prefix(all, i + 1);
            }
            return Err(
                Error::InvalidChunk(
                    cat4(
                        "aggregate: sub payload ",
                        got.as_str(),
                        " exceeds UI24 max ",
                        max.as_str(),
                    ),
                ),
            );
        }
        if body.len() as u64 + 15 + size as u64 > u32::MAX as u64 {
            proof {
                lemma_packed_prefix(all, i + 1);
            }
            return Err(invalid_chunk("aggregate: cumulative body would exceed u32"));
        }
        body.push(sub.msg_type_id);
        put_be24(&mut body, size as u32);
        put_be24(&mut body, sub.timestamp);
        body.push((sub.timestamp / 0x100_0000) as u8);
        body.push(0);
        body.push(0);
        body.push(0);
        put_bytes(&mut body, sub.payload.as_slice());
        put_be32(&mut body, 11 + size as u32);
        proof {
            reveal(sub_bytes);
            assert(body@ =~= was + sub_bytes(sub@));
        }
        i = i + 1;
    }
    assert(all.subrange(0, i as int) =~= all);
    Ok(Message { msg_type_id: MSG_AGGREGATE, msg_stream_id: stream_id, timestamp, payload: body })
}

// ---------------------------------------------------------------------------
// Laws
// ---------------------------------------------------------------------------

spec fn concatenated(subs: Seq<MessageView>) -> Seq<u8>
    decreases subs.len(),
{
    if subs.len() == 0 {
        Seq::empty()
    } else {
        sub_bytes(subs[0]) + concatenated(subs.subrange(1, subs.len() as int))
    }
}

proof fn lemma_concatenated_last(subs: Seq<MessageView>)
    requires
        subs.len() > 0,
    ensures
        concatenated(subs) == concatenated(subs.drop_last()) + sub_bytes(subs.last()),
    decreases subs.len(),
{
    let tail = subs.subrange(1, subs.len() as int);
    let front = subs.drop_last();
    if subs.len() == 1 {
        assert(concatenated(tail) == Seq::<u8>::empty());
        assert(concatenated(front) == Seq::<u8>::empty());
        lemma_around_nothing(sub_bytes(subs[0]));
    } else {
        lemma_concatenated_last(tail);
        assert(tail.drop_last() =~= front.subrange(1, front.len() as int));
        lemma_associative(
            sub_bytes(subs[0]),
            concatenated(tail.drop_last()),
            sub_bytes(subs.last()),
        );
    }
}

proof fn lemma_packed_concatenated(subs: Seq<MessageView>)
    requires
        packed(subs) is Ok,
    ensures
        packed(subs) == Ok::<Seq<u8>, Fault>(concatenated(subs)),
        forall|i: int| 0 <= i < subs.len() ==> (#[trigger] subs[i]).payload.len() <= 0x00FF_FFFF,
    decreases subs.len(),
{
    if subs.len() > 0 {
        lemma_packed_concatenated(subs.drop_last());
        lemma_concatenated_last(subs);
        assert forall|i: int| 0 <= i < subs.len() implies (#[trigger] subs[i]).payload.len()
            <= 0x00FF_FFFF by {
            if i < subs.len() - 1 {
                assert(subs.drop_last()[i] == subs[i]);
            }
        }
    }
}

/// `sub` as an aggregate on stream `id` hands it on.
pub open spec fn on_stream(sub: MessageView, id: u32) -> MessageView {
    MessageView { msg_stream_id: id, ..sub }
}

#[verifier::rlimit(60)]
proof fn lemma_front_record(sub: MessageView, outer: MessageView, base: u32, rest: Seq<u8>)
    requires
        sub.payload.len() <= 0x00FF_FFFF,
        outer.timestamp == base,
    ensures
        ({
            let body = sub_bytes(sub) + rest;
            &&& be24(body, 1) == sub.payload.len()
            &&& sub_timestamp(body) == sub.timestamp
            &&& be32(body, 11int + sub.payload.len()) == 11 + sub.payload.len()
            &&& sub_message(body, outer, base) == on_stream(sub, outer.msg_stream_id)
            &&& from(body, 15int + sub.payload.len()) == rest
            &&& body.len() >= 15 + sub.payload.len()
        }),
{
    reveal(sub_bytes);
    let body = sub_bytes(sub) + rest;
    let size = sub.payload.len() as u32;
    assert(body.subrange(1, 4) =~= be24_bytes(size));
    lemma_be24(body, 1, size);
    assert(body.subrange(4, 7) =~= be24_bytes(sub.timestamp));
    lemma_be24(body, 4, sub.timestamp);
    assert(body[7] == (sub.timestamp / 0x100_0000) as u8);
    assert(body.subrange(11 + size, 15 + size) =~= be32_bytes((11 + size) as u32));
    lemma_be32(body, 11 + size, (11 + size) as u32);
    assert(body.subrange(11, 11 + size) =~= sub.payload);
    assert(from(body, 15 + size) =~= rest);
}

proof fn lemma_records_parse(subs: Seq<MessageView>, outer: MessageView)
    requires
        forall|i: int| 0 <= i < subs.len() ==> (#[trigger] subs[i]).payload.len() <= 0x00FF_FFFF,
    ensures
        sub_messages(concatenated(subs), outer, Some(outer.timestamp)) == Ok::<
            Seq<MessageView>,
            Fault,
        >(Seq::new(subs.len(), |i: int| on_stream(subs[i], outer.msg_stream_id))),
    decreases subs.len(),
{
    let want = Seq::new(subs.len(), |i: int| on_stream(subs[i], outer.msg_stream_id));
    if subs.len() == 0 {
        assert(want =~= Seq::empty());
    } else {
        let tail = subs.subrange(1, subs.len() as int);
        let rest = concatenated(tail);
        lemma_front_record(subs[0], outer, outer.timestamp, rest);
        assert forall|i: int| 0 <= i < tail.len() implies (#[trigger] tail[i]).payload.len()
            <= 0x00FF_FFFF by {
            assert(tail[i] == subs[i + 1]);
        }
        lemma_records_parse(tail, outer);
        assert(want =~= seq![on_stream(subs[0], outer.msg_stream_id)] + Seq::new(
            tail.len(),
            |i: int| on_stream(tail[i], outer.msg_stream_id),
        ));
    }
}

/// Splitting what was packed gives the sub-messages back, in order, with their
/// types, timestamps and payloads, on the stream of the aggregate.
pub proof fn law_aggregate_round_trip(stream_id: u32, subs: Seq<MessageView>)
    requires
        aggregate_of(stream_id, subs) is Ok,
    ensures
        aggregate_parts(aggregate_of(stream_id, subs)->Ok_0) == Ok::<Seq<MessageView>, Fault>(
            Seq::new(subs.len(), |i: int| on_stream(subs[i], stream_id)),
        ),
{
    let m = aggregate_of(stream_id, subs)->Ok_0;
    lemma_packed_concatenated(subs);
    lemma_records_parse(subs, m);
    if subs.len() > 0 {
        let rest = concatenated(subs.subrange(1, subs.len() as int));
        lemma_front_record(subs[0], m, m.timestamp, rest);
    }
}

/// The first sub-message of any aggregate lands on the aggregate's timestamp,
/// and every sub-message is on the aggregate's stream.
pub proof fn law_sub_messages_follow_the_aggregate(msg: MessageView)
    requires
        aggregate_parts(msg) is Ok,
    ensures
        ({
            let subs = aggregate_parts(msg)->Ok_0;
            &&& subs.len() > 0 ==> subs[0].timestamp == msg.timestamp
            &&& forall|i: int|
                0 <= i < subs.len() ==> (#[trigger] subs[i]).msg_stream_id == msg.msg_stream_id
        }),
{
    lemma_sub_streams(msg.payload, msg, None);
}

proof fn lemma_sub_streams(body: Seq<u8>, outer: MessageView, first: Option<u32>)
    requires
        sub_messages(body, outer, first) is Ok,
    ensures
        ({
            let subs = sub_messages(body, outer, first)->Ok_0;
            forall|i: int|
                0 <= i < subs.len() ==> (#[trigger] subs[i]).msg_stream_id == outer.msg_stream_id
        }),
    decreases body.len(),
{
    if body.len() > 0 {
        let base = match first {
            Some(t) => t,
            None => sub_timestamp(body),
        };
        lemma_sub_streams(from(body, 15 + be24(body, 1)), outer, Some(base));
    }
}

/// What a run of messages weighs: a byte each, and their payloads.
pub open spec fn weight(p: Seq<MessageView>) -> nat
    decreases p.len(),
{
    if p.len() == 0 {
        0
    } else {
        1 + p.last().payload.len() + weight(p.drop_last())
    }
}

/// Two runs weigh what they weigh together.
pub proof fn lemma_weight_append(a: Seq<MessageView>, b: Seq<MessageView>)
    ensures
        weight(a + b) == weight(a) + weight(b),
    decreases b.len(),
{
    if b.len() == 0 {
        assert(a + b =~= a);
    } else {
        assert((a + b).drop_last() =~= a + b.drop_last());
        lemma_weight_append(a, b.drop_last());
    }
}

proof fn lemma_parts_weight(body: Seq<u8>, outer: MessageView, first: Option<u32>)
    requires
        sub_messages(body, outer, first) is Ok,
    ensures
        weight(sub_messages(body, outer, first)->Ok_0) <= body.len(),
    decreases body.len(),
{
    if body.len() > 0 {
        let size = be24(body, 1) as int;
        let base = match first {
            Some(t) => t,
            None => sub_timestamp(body),
        };
        let one = seq![sub_message(body, outer, base)];
        let rest = from(body, 15 + size);
        lemma_parts_weight(rest, outer, Some(base));
        let subs = sub_messages(rest, outer, Some(base))->Ok_0;
        lemma_weight_append(one, subs);
        assert(one.drop_last() =~= Seq::empty());
        assert(weight(one) == 1 + one.last().payload.len() + weight(one.drop_last()));
    }
}

/// The messages that an aggregate holds weigh less than it does, so that taking
/// aggregates apart, however deep they nest, comes to an end.
pub proof fn law_parts_weigh_less(msg: MessageView)
    requires
        aggregate_parts(msg) is Ok,
    ensures
        weight(aggregate_parts(msg)->Ok_0) <= msg.payload.len(),
{
    lemma_parts_weight(msg.payload, msg, None);
}

/// The record of a message in an aggregate: its type, the length of its payload in three
/// bytes, the low three bytes of its time and then the highest, three zero bytes, the
/// payload, and the length of all that in four bytes.
pub open spec fn record(m: MessageView) -> Seq<u8> {
    let n = m.payload.len();
    let t = m.timestamp;
    let back = n + 11;
    seq![
        m.msg_type_id,
        (n / 0x1_0000) as u8,
        (n / 0x100 % 0x100) as u8,
        (n % 0x100) as u8,
        (t / 0x1_0000 % 0x100) as u8,
        (t / 0x100 % 0x100) as u8,
        (t % 0x100) as u8,
        (t / 0x100_0000) as u8,
        0,
        0,
        0,
    ] + m.payload + seq![
        (back / 0x100_0000) as u8,
        (back / 0x1_0000 % 0x100) as u8,
        (back / 0x100 % 0x100) as u8,
        (back % 0x100) as u8,
    ]
}

/// An aggregate is a message of type 22 on the stream that is asked for, at the time of
/// its first message; its payload is the records, one behind the other.
pub proof fn law_aggregate_bytes(stream_id: u32, subs: Seq<MessageView>, m: MessageView)
    requires
        m.payload.len() <= 0xFF_FFFF,
    ensures
        aggregate_of(stream_id, Seq::empty()) matches Ok(a) && a.msg_type_id == 22
            && a.msg_stream_id == stream_id && a.timestamp == 0 && a.payload.len() == 0,
        aggregate_of(stream_id, seq![m]) matches Ok(a) && a.msg_type_id == 22 && a.msg_stream_id
            == stream_id && a.timestamp == m.timestamp && a.payload == record(m),
        aggregate_of(stream_id, subs) matches Ok(a) ==> (if a.payload.len() + 15 + m.payload.len()
            <= 0xFFFF_FFFF {
            aggregate_of(stream_id, subs.push(m)) matches Ok(b) && b.payload == a.payload + record(
                m,
            ) && b.msg_type_id == 22 && b.msg_stream_id == stream_id && (subs.len() > 0
                ==> b.timestamp == subs[0].timestamp)
        } else {
            aggregate_of(stream_id, subs.push(m)) == Err::<MessageView, Fault>(
                Fault::InvalidChunk("aggregate: cumulative body would exceed u32"@),
            )
        }),
{
    lemma_record(m);
    assert(subs.push(m).drop_last() =~= subs);
    assert(seq![m].drop_last() =~= Seq::empty());
    assert(packed(Seq::empty()) == Ok::<Seq<u8>, Fault>(Seq::empty()));
    assert(Seq::<u8>::empty() + sub_bytes(m) =~= sub_bytes(m));
}

proof fn lemma_record(m: MessageView)
    requires
        m.payload.len() <= 0xFF_FFFF,
    ensures
        sub_bytes(m) == record(m),
        sub_bytes(m).len() == 15 + m.payload.len(),
{
    reveal(sub_bytes);
    let n = m.payload.len() as u32;
    crate::wire::law_bytes_by_their_value(0, n, 0);
    crate::wire::law_bytes_by_their_value(0, m.timestamp, 0);
    crate::wire::law_bytes_by_their_value(0, (11 + n) as u32, 0);
    assert(sub_bytes(m) =~= record(m));
}

/// A message with a payload that does not fit three bytes is in no aggregate, and one that
/// cannot be packed spoils those behind it.
pub proof fn law_what_is_not_packed(stream_id: u32, subs: Seq<MessageView>, m: MessageView)
    ensures
        aggregate_of(stream_id, subs) is Ok && m.payload.len() > 0xFF_FFFF ==> aggregate_of(
            stream_id,
            subs.push(m),
        ) == Err::<MessageView, Fault>(
            Fault::InvalidChunk(
                "aggregate: sub payload "@ + decimal(m.payload.len()) + " exceeds UI24 max "@
                    + decimal(0xFF_FFFF),
            ),
        ),
        aggregate_of(stream_id, subs) matches Err(f) ==> aggregate_of(stream_id, subs.push(m))
            == Err::<MessageView, Fault>(f),
{
    assert(subs.push(m).drop_last() =~= subs);
}

/// A record is read whatever stream it names: it belongs to the stream of the aggregate,
/// and lies as long behind the first record as their times are apart. The rest follows.
pub proof fn law_records_are_read(
    outer: MessageView,
    m: MessageView,
    x: u8,
    y: u8,
    z: u8,
    rest: Seq<u8>,
    first: Option<u32>,
)
    requires
        m.payload.len() <= 0xFF_FFFF,
    ensures
        ({
            let body = record(m).update(8, x).update(9, y).update(10, z) + rest;
            let base = match first {
                Some(t) => t,
                None => m.timestamp,
            };
            let here = MessageView {
                msg_type_id: m.msg_type_id,
                msg_stream_id: outer.msg_stream_id,
                timestamp: ((outer.timestamp + m.timestamp - base) % 0x1_0000_0000) as u32,
                payload: m.payload,
            };
            match sub_messages(rest, outer, Some(base)) {
                Err(f) => sub_messages(body, outer, first) == Err::<Seq<MessageView>, Fault>(f),
                Ok(more) => sub_messages(body, outer, first) == Ok::<Seq<MessageView>, Fault>(
                    seq![here] + more,
                ),
            }
        }),
{
    let r = record(m).update(8, x).update(9, y).update(10, z);
    let n = m.payload.len() as int;
    lemma_record_fields(m, x, y, z, rest);
    let body = r + rest;
    assert(r.len() == 15 + n);
    assert(body[0] == m.msg_type_id);
    assert(body.subrange(11, 11 + n) =~= m.payload);
    assert(from(body, 15 + n) =~= rest);
}

proof fn lemma_record_fields(m: MessageView, x: u8, y: u8, z: u8, rest: Seq<u8>)
    requires
        m.payload.len() <= 0xFF_FFFF,
    ensures
        ({
            let body = record(m).update(8, x).update(9, y).update(10, z) + rest;
            let n = m.payload.len() as int;
            &&& be24(body, 1) == n
            &&& sub_timestamp(body) == m.timestamp
            &&& be32(body, 11 + n) == 11 + n
        }),
{
    let body = record(m).update(8, x).update(9, y).update(10, z) + rest;
    let n = m.payload.len() as int;
    let t = m.timestamp;
    let back = (n + 11) as u32;
    crate::wire::law_fields_by_their_bytes(body, 1);
    crate::wire::law_fields_by_their_bytes(body, 4);
    crate::wire::law_fields_by_their_bytes(body, 11 + n);
    lemma_bytes_add_up(n as u32);
    lemma_bytes_add_up(t);
    lemma_bytes_add_up(back);
    assert(body[1] == (n / 0x1_0000) as u8 && body[2] == (n / 0x100 % 0x100) as u8 && body[3] == (n
        % 0x100) as u8);
    assert(body[4] == (t / 0x1_0000 % 0x100) as u8 && body[5] == (t / 0x100 % 0x100) as u8
        && body[6] == (t % 0x100) as u8 && body[7] == (t / 0x100_0000) as u8);
    assert(body[11 + n] == (back / 0x100_0000) as u8 && body[12 + n] == (back / 0x1_0000
        % 0x100) as u8 && body[13 + n] == (back / 0x100 % 0x100) as u8 && body[14 + n] == (back
        % 0x100) as u8);
}

proof fn lemma_bytes_add_up(n: u32)
    ensures
        n / 0x100_0000 * 0x100_0000 + n / 0x1_0000 % 0x100 * 0x1_0000 + n / 0x100 % 0x100 * 0x100
            + n % 0x100 == n,
        n / 0x100_0000 < 0x100,
        n <= 0xFF_FFFF ==> n / 0x1_0000 < 0x100 && n / 0x1_0000 * 0x1_0000 + n / 0x100 % 0x100
            * 0x100 + n % 0x100 == n,
{
    let a = n / 0x100;
    let b = a / 0x100;
    assert(n / 0x1_0000 == b);
    assert(n / 0x100_0000 == b / 0x100);
}

/// Nothing holds no messages; a record that is cut short and one with a wrong length
/// behind it are refused, and so is a message of another type.
pub proof fn law_what_is_no_aggregate(outer: MessageView, body: Seq<u8>, first: Option<u32>)
    ensures
        sub_messages(Seq::empty(), outer, first) == Ok::<Seq<MessageView>, Fault>(Seq::empty()),
        0 < body.len() < 11 ==> sub_messages(body, outer, first) == Err::<Seq<MessageView>, Fault>(
            Fault::UnexpectedEof,
        ),
        body.len() >= 11 ==> {
            let n = body[1] * 0x1_0000 + body[2] * 0x100 + body[3];
            &&& body.len() < 15 + n ==> sub_messages(body, outer, first) == Err::<
                Seq<MessageView>,
                Fault,
            >(Fault::UnexpectedEof)
            &&& body.len() >= 15 + n && be32(body, 11 + n) != 11 + n ==> (sub_messages(
                body,
                outer,
                first,
            ) matches Err(f) && f is InvalidChunk)
        },
        outer.msg_type_id != 22 ==> aggregate_parts(outer) == Err::<Seq<MessageView>, Fault>(
            Fault::InvalidChunk(
                "aggregate: expected message type 22, got "@ + decimal(outer.msg_type_id as nat),
            ),
        ),
        outer.msg_type_id == 22 ==> aggregate_parts(outer) == sub_messages(
            outer.payload,
            outer,
            None,
        ),
{
    if body.len() >= 11 {
        crate::wire::law_fields_by_their_bytes(body, 1);
    }
}

/// Aggregates are built and taken apart as is said here.
pub proof fn law_aggregates(
    stream_id: u32,
    subs: &[Message],
    built: Result<Message>,
    msg: &Message,
    parts: Result<Vec<Message>>,
)
    requires
        call_ensures(build_aggregate, (stream_id, subs), built),
        call_ensures(parse_aggregate, (msg,), parts),
    ensures
        built matches Ok(m) ==> aggregate_of(stream_id, views(subs@)) == Ok::<MessageView, Fault>(
            m@,
        ),
        built matches Err(e) ==> aggregate_of(stream_id, views(subs@)) == Err::<MessageView, Fault>(
            e@,
        ),
        parts matches Ok(v) ==> aggregate_parts(msg@) == Ok::<Seq<MessageView>, Fault>(views(v@)),
        parts matches Err(e) ==> aggregate_parts(msg@) == Err::<Seq<MessageView>, Fault>(e@),
{
}

} // verus!
