//! What a publishing client puts out and what it makes of what comes in, in bytes.

use vstd::prelude::*;
use crate::amf::Amf0Value;
#[allow(unused_imports)]
use crate::amf::{encoded, items_bytes, values_of, Amf0};
use crate::amf3::Amf3Value;
#[allow(unused_imports)]
use crate::amf_fields::present;
use crate::caps::ConnectCapabilities;
#[allow(unused_imports)]
use crate::caps::{caps_of, CapsView};
use crate::chunk::Message;
#[allow(unused_imports)]
use crate::chunk::{ack_from, read_from, with_window, MessageView, ReaderView, WriterView};
#[allow(unused_imports)]
use crate::chunk_laws::law_reading_takes_bytes;
#[allow(unused_imports)]
use crate::chunk_format::law_legal_chunk_sizes_are_taken;
use crate::client::event::{
    classify_command, classify_user_control, extract_server_caps, CallCommand, ClientEvent, Control,
};
#[allow(unused_imports)]
use crate::client::event::{
    caps_among, command_event, command_name, control_of, status_event, text_in, CallView,
    ControlView, EventView,
};
#[allow(unused_imports)]
use crate::client::outgoing::{
    build_ack, build_clear_data_frame, build_connect_with_caps, build_create_stream,
    build_fc_publish, build_publish, build_release_stream, build_set_chunk_size,
    build_set_data_frame_named, build_user_control_ping_request, build_window_ack_size,
};
#[allow(unused_imports)]
use crate::client::outgoing::{
    aac_tag, amf3_metadata_payload, audio_message, avc_tag, command_message, control_message,
    data_message, video_message,
};
use crate::client::session::{ClientStep, RtmpClient};
#[allow(unused_imports)]
use crate::client::session::{classified, on_stream, polled, ClientView, StepView};
use crate::client::setup::{create_stream_id, Connecting, SetupStep};
#[allow(unused_imports)]
use crate::client::setup::{
    advanced, awaited, begun, created_stream, heard, is_start, AwaitedView, Heard, Phase, SetupView,
    SetupStepView,
};
#[allow(unused_imports)]
use crate::client::url::resolved;
use crate::client::url::RtmpUrl;
use crate::error::{Error, Result};
#[allow(unused_imports)]
use crate::error::{outcome, Fault};
#[allow(unused_imports)]
use crate::aggregate::{aggregate_of, aggregate_parts};
#[allow(unused_imports)]
use crate::amf::pair_views;
#[allow(unused_imports)]
use crate::flv::format::{law_plain_audio_is_written, law_plain_video_is_written};
#[allow(unused_imports)]
use crate::model::{opt_view, views};
use crate::number::Double;
#[allow(unused_imports)]
use crate::number::nat_bits;
#[allow(unused_imports)]
use crate::wire::{be32_bytes, from, law_bytes_by_their_value, law_fields_by_their_bytes};

verus! {

/// A client with one more message put out on a chunk stream.
pub open spec fn with_message(
    c: ClientView,
    csid: u32,
    msg_type_id: u8,
    msg_stream_id: u32,
    timestamp: u32,
    payload: Seq<u8>,
) -> ClientView {
    ClientView {
        writer: c.writer.after(
            csid,
            MessageView { msg_type_id, msg_stream_id, timestamp, payload },
        ),
        ..c
    }
}

/// The four bytes of a number, the highest first.
pub open spec fn four_bytes(n: u32) -> Seq<u8> {
    seq![
        (n / 0x100_0000) as u8,
        (n / 0x1_0000 % 0x100) as u8,
        (n / 0x100 % 0x100) as u8,
        (n % 0x100) as u8,
    ]
}

proof fn lemma_four_bytes(n: u32)
    ensures
        be32_bytes(n) == four_bytes(n),
{
    law_bytes_by_their_value(0, n, 0);
    assert(be32_bytes(n) =~= four_bytes(n));
}

// ---------------------------------------------------------------------------
// Media
// ---------------------------------------------------------------------------

/// A video frame goes out as a message of type 9 on chunk stream 5, on the stream of
/// the client and at the time of the frame: 0x17 for a keyframe and 0x27 for any other,
/// 1 for a frame, no composition time, and the frame.
pub proof fn law_video_frame_goes_out(
    c: &mut RtmpClient,
    timestamp_ms: u32,
    is_keyframe: bool,
    body: &[u8],
    r: Result<()>,
)
    requires
        call_ensures(RtmpClient::send_video, (c, timestamp_ms, is_keyframe, body), r),
    ensures
        r is Ok,
        final(c)@ == with_message(
            old(c)@,
            5,
            9,
            old(c)@.stream_id,
            timestamp_ms,
            seq![
                if is_keyframe {
                    0x17u8
                } else {
                    0x27u8
                },
                1,
                0,
                0,
                0,
            ] + body@,
        ),
{
    law_avc_message(old(c)@.stream_id, timestamp_ms, is_keyframe, 1, body@);
}

/// The configuration of the H.264 decoder goes out in the same way, as a keyframe at
/// time 0, with 0 in place of 1.
pub proof fn law_video_configuration_goes_out(c: &mut RtmpClient, avc_c: &[u8], r: Result<()>)
    requires
        call_ensures(RtmpClient::send_video_sequence_header, (c, avc_c), r),
    ensures
        r is Ok,
        final(c)@ == with_message(
            old(c)@,
            5,
            9,
            old(c)@.stream_id,
            0,
            seq![0x17u8, 0, 0, 0, 0] + avc_c@,
        ),
{
    law_avc_message(old(c)@.stream_id, 0, true, 0, avc_c@);
}

/// A message with an H.264 tag is one of type 9: the first byte tells keyframes, 0x17,
/// from other frames, 0x27, whatever the packet type is; the packet type, three zero
/// bytes and the body follow.
pub proof fn law_avc_message(
    stream_id: u32,
    timestamp: u32,
    keyframe: bool,
    packet_type: u8,
    body: Seq<u8>,
)
    ensures
        video_message(stream_id, timestamp, avc_tag(keyframe, packet_type, body)) == (MessageView {
            msg_type_id: 9,
            msg_stream_id: stream_id,
            timestamp,
            payload: seq![
                if keyframe {
                    0x17u8
                } else {
                    0x27u8
                },
                packet_type,
                0,
                0,
                0,
            ] + body,
        }),
{
    law_plain_video_is_written(avc_tag(keyframe, packet_type, body));
}

/// A message with an AAC tag is one of type 8: 0xAF, the packet type and the body.
pub proof fn law_aac_message(stream_id: u32, timestamp: u32, packet_type: u8, body: Seq<u8>)
    ensures
        audio_message(stream_id, timestamp, aac_tag(packet_type, body)) == (MessageView {
            msg_type_id: 8,
            msg_stream_id: stream_id,
            timestamp,
            payload: seq![0xAFu8, packet_type] + body,
        }),
{
    let t = aac_tag(packet_type, body);
    law_plain_audio_is_written(t);
    let b = t.encoded();
    assert(b[0] == 0xAF);
    assert forall|i: int| 0 <= i < body.len() implies b[i + 2] == body[i] by {
        assert(from(b, 2)[i] == b[i + 2]);
    }
    assert(b =~= seq![0xAFu8, packet_type] + body);
}

/// An AAC frame goes out as a message of type 8 on chunk stream 4, on the stream of the
/// client and at the time of the frame: 0xAF, 1 and the frame.
pub proof fn law_audio_frame_goes_out(
    c: &mut RtmpClient,
    timestamp_ms: u32,
    aac_frame: &[u8],
    r: Result<()>,
)
    requires
        call_ensures(RtmpClient::send_audio, (c, timestamp_ms, aac_frame), r),
    ensures
        r is Ok,
        final(c)@ == with_message(
            old(c)@,
            4,
            8,
            old(c)@.stream_id,
            timestamp_ms,
            seq![0xAFu8, 1] + aac_frame@,
        ),
{
    law_aac_message(old(c)@.stream_id, timestamp_ms, 1, aac_frame@);
}

/// The configuration of the AAC decoder goes out in the same way, at time 0, with 0 in
/// place of 1.
pub proof fn law_audio_configuration_goes_out(c: &mut RtmpClient, asc: &[u8], r: Result<()>)
    requires
        call_ensures(RtmpClient::send_audio_sequence_header, (c, asc), r),
    ensures
        r is Ok,
        final(c)@ == with_message(
            old(c)@,
            4,
            8,
            old(c)@.stream_id,
            0,
            seq![0xAFu8, 0] + asc@,
        ),
{
    law_aac_message(old(c)@.stream_id, 0, 0, asc@);
}

// ---------------------------------------------------------------------------
// Data
// ---------------------------------------------------------------------------

proof fn lemma_items(a: Seq<Amf0>)
    ensures
        a.len() == 1 ==> items_bytes(a) == encoded(a[0]),
        a.len() == 2 ==> items_bytes(a) == encoded(a[0]) + encoded(a[1]),
        a.len() == 3 ==> items_bytes(a) == encoded(a[0]) + encoded(a[1]) + encoded(a[2]),
{
    if 0 < a.len() <= 3 {
        let one = a.subrange(1, a.len() as int);
        assert(items_bytes(a) == encoded(a[0]) + items_bytes(one));
        if one.len() == 0 {
            assert(items_bytes(a) =~= encoded(a[0]));
        } else {
            let two = one.subrange(1, one.len() as int);
            assert(items_bytes(one) == encoded(one[0]) + items_bytes(two));
            if two.len() == 0 {
                assert(items_bytes(one) =~= encoded(a[1]));
            } else {
                let three = two.subrange(1, two.len() as int);
                assert(items_bytes(two) == encoded(two[0]) + items_bytes(three));
                assert(items_bytes(two) =~= encoded(a[2]));
                assert(items_bytes(a) =~= encoded(a[0]) + encoded(a[1]) + encoded(a[2]));
            }
        }
    }
}

/// A value for the server to keep goes out as a message of type 18 on chunk stream 6,
/// on the stream of the client: the texts `@setDataFrame` and the name, then the value.
pub proof fn law_data_frame_goes_out(
    c: &mut RtmpClient,
    handler: &str,
    value: Amf0Value,
    r: Result<()>,
)
    requires
        call_ensures(RtmpClient::send_data_frame, (c, handler, value), r),
    ensures
        r is Ok,
        final(c)@ == with_message(
            old(c)@,
            6,
            18,
            old(c)@.stream_id,
            0,
            encoded(Amf0::String("@setDataFrame"@)) + encoded(Amf0::String(handler@)) + encoded(
                value@,
            ),
        ),
{
    lemma_items(seq![Amf0::String("@setDataFrame"@), Amf0::String(handler@), value@]);
}

/// Metadata goes out as such a value, under the name `onMetaData`.
pub proof fn law_metadata_goes_out(c: &mut RtmpClient, metadata: Amf0Value, r: Result<()>)
    requires
        call_ensures(RtmpClient::send_metadata, (c, metadata), r),
    ensures
        r is Ok,
        final(c)@ == with_message(
            old(c)@,
            6,
            18,
            old(c)@.stream_id,
            0,
            encoded(Amf0::String("@setDataFrame"@)) + encoded(Amf0::String("onMetaData"@))
                + encoded(metadata@),
        ),
{
    lemma_items(seq![Amf0::String("@setDataFrame"@), Amf0::String("onMetaData"@), metadata@]);
}

/// A kept value is taken back by a message of the same kind: the texts
/// `@clearDataFrame` and the name.
pub proof fn law_data_frame_is_taken_back(c: &mut RtmpClient, handler: &str, r: Result<()>)
    requires
        call_ensures(RtmpClient::clear_data_frame, (c, handler), r),
    ensures
        r is Ok,
        final(c)@ == with_message(
            old(c)@,
            6,
            18,
            old(c)@.stream_id,
            0,
            encoded(Amf0::String("@clearDataFrame"@)) + encoded(Amf0::String(handler@)),
        ),
{
    lemma_items(seq![Amf0::String("@clearDataFrame"@), Amf0::String(handler@)]);
}

/// Metadata is taken back under the name `onMetaData`.
pub proof fn law_metadata_is_taken_back(c: &mut RtmpClient, r: Result<()>)
    requires
        call_ensures(RtmpClient::clear_metadata, (c,), r),
    ensures
        r is Ok,
        final(c)@ == with_message(
            old(c)@,
            6,
            18,
            old(c)@.stream_id,
            0,
            encoded(Amf0::String("@clearDataFrame"@)) + encoded(Amf0::String("onMetaData"@)),
        ),
{
    lemma_items(seq![Amf0::String("@clearDataFrame"@), Amf0::String("onMetaData"@)]);
}

/// Metadata in AMF3 goes out as a message of type 15 on chunk stream 6: a zero byte,
/// then the name and the metadata in AMF3, each behind 0x11.
pub proof fn law_amf3_metadata_goes_out(c: &mut RtmpClient, metadata: Amf3Value, r: Result<()>)
    requires
        call_ensures(RtmpClient::send_metadata_amf3, (c, metadata), r),
    ensures
        r is Ok,
        final(c)@ == with_message(
            old(c)@,
            6,
            15,
            old(c)@.stream_id,
            0,
            seq![0u8, 0x11] + crate::amf3::encode::encoded(
                crate::amf3::value::Amf3::String("onMetaData"@),
            ) + seq![0x11u8] + crate::amf3::encode::encoded(metadata@),
        ),
{
}

/// Messages that go out as an aggregate are moved to the stream of the client and put
/// out on chunk stream 6; where there are none, nothing goes out.
pub proof fn law_aggregate_goes_out(c: &mut RtmpClient, subs: &[Message], r: Result<()>)
    requires
        call_ensures(RtmpClient::send_aggregate, (c, subs), r),
    ensures
        subs@.len() == 0 ==> r is Ok && final(c)@ == old(c)@,
        subs@.len() > 0 ==> {
            let id = old(c)@.stream_id;
            let moved = Seq::new(
                subs@.len(),
                |i: int|
                    MessageView {
                        msg_type_id: subs@[i].msg_type_id,
                        msg_stream_id: id,
                        timestamp: subs@[i].timestamp,
                        payload: subs@[i].payload@,
                    },
            );
            match aggregate_of(id, moved) {
                Ok(m) => r is Ok && final(c)@ == (ClientView {
                    writer: old(c)@.writer.after(6, m),
                    ..old(c)@
                }),
                Err(f) => outcome(r) == Err::<(), Fault>(f) && final(c)@ == old(c)@,
            }
        },
{
    let id = old(c)@.stream_id;
    let moved = Seq::new(
        subs@.len(),
        |i: int|
            MessageView {
                msg_type_id: subs@[i].msg_type_id,
                msg_stream_id: id,
                timestamp: subs@[i].timestamp,
                payload: subs@[i].payload@,
            },
    );
    assert(on_stream(views(subs@), id) =~= moved);
}

// ---------------------------------------------------------------------------
// Control
// ---------------------------------------------------------------------------

/// A ping goes out as a message of type 4 on chunk stream 2: 6, as two bytes, and the
/// time.
pub proof fn law_ping_goes_out(c: &mut RtmpClient, timestamp_ms: u32, r: Result<()>)
    requires
        call_ensures(RtmpClient::send_ping_request, (c, timestamp_ms), r),
    ensures
        r is Ok,
        final(c)@ == with_message(
            old(c)@,
            2,
            4,
            0,
            0,
            seq![0u8, 6] + four_bytes(timestamp_ms),
        ),
{
    lemma_four_bytes(timestamp_ms);
    law_bytes_by_their_value(6, 0, 0);
    assert(crate::wire::be16_bytes(6) =~= seq![0u8, 6]);
}

/// A shared object goes out as a message of type 19 on chunk stream 3, with its body as
/// it is.
pub proof fn law_shared_object_goes_out(c: &mut RtmpClient, body: &[u8], r: Result<()>)
    requires
        call_ensures(RtmpClient::send_shared_object, (c, body), r),
    ensures
        r is Ok,
        final(c)@ == with_message(old(c)@, 3, 19, 0, 0, body@),
{
}

/// A window is taken over by the reader, and told to the peer by a message of type 5
/// on chunk stream 2.
pub proof fn law_window_is_adopted(c: &mut RtmpClient, size: u32, r: Result<()>)
    requires
        call_ensures(RtmpClient::adopt_window, (c, size), r),
    ensures
        r is Ok,
        final(c)@ == with_message(
            ClientView { reader: with_window(old(c)@.reader, size), ..old(c)@ },
            2,
            5,
            0,
            0,
            four_bytes(size),
        ),
{
    lemma_four_bytes(size);
}

/// What comes in is added behind what has come, what goes out is handed over whole and
/// once, and the end of the input is kept in mind.
pub proof fn law_bytes_in_and_out(
    c: &mut RtmpClient,
    d: &mut RtmpClient,
    e: &mut RtmpClient,
    bytes: &[u8],
    out: Vec<u8>,
)
    requires
        call_ensures(RtmpClient::receive, (c, bytes), ()),
        call_ensures(RtmpClient::take_output, (d,), out),
        call_ensures(RtmpClient::end_of_input, (e,), ()),
    ensures
        final(c)@.reader.stream == old(c)@.reader.stream + bytes@,
        final(c)@ == (ClientView {
            reader: ReaderView { stream: final(c)@.reader.stream, ..old(c)@.reader },
            ..old(c)@
        }),
        out@ == old(d)@.writer.stream,
        final(d)@.writer.stream.len() == 0,
        final(d)@ == (ClientView {
            writer: WriterView { stream: final(d)@.writer.stream, ..old(d)@.writer },
            ..old(d)@
        }),
        final(e)@.input_ended,
        final(e)@ == (ClientView { input_ended: true, ..old(e)@ }),
{
}

// ---------------------------------------------------------------------------
// Commands
// ---------------------------------------------------------------------------

/// The payload of a command: its name, transaction id and command object, and the bytes
/// of its arguments.
pub open spec fn command_payload(name: Seq<char>, tx: u64, object: Amf0, args: Seq<u8>) -> Seq<u8> {
    encoded(Amf0::String(name)) + encoded(Amf0::Number(tx)) + encoded(object) + args
}

proof fn lemma_command(name: Seq<char>, tx: u64, object: Amf0, args: Seq<Amf0>)
    ensures
        crate::amf::command_bytes(name, tx, object, args) == command_payload(
            name,
            tx,
            object,
            items_bytes(args),
        ),
{
    let a = Amf0::String(name);
    let b = Amf0::Number(tx);
    let all = seq![a, b, object] + args;
    let one = all.subrange(1, all.len() as int);
    let two = one.subrange(1, one.len() as int);
    assert(two.subrange(1, two.len() as int) =~= args);
    assert(items_bytes(two) == encoded(object) + items_bytes(args));
    assert(items_bytes(one) == encoded(b) + items_bytes(two));
    assert(items_bytes(all) == encoded(a) + items_bytes(one));
    assert(items_bytes(all) =~= command_payload(name, tx, object, items_bytes(args)));
}

/// A call goes out as a command, type 20, on chunk stream 3 and stream 0. Where an
/// answer is expected, it has the next transaction id, and the one after that is next;
/// else it has zero, and nothing is counted. The id is given back.
pub proof fn law_call_goes_out(
    c: &mut RtmpClient,
    procedure: &str,
    command_object: Amf0Value,
    arguments: &[Amf0Value],
    expects_response: bool,
    r: Result<Double>,
)
    requires
        call_ensures(
            RtmpClient::call,
            (c, procedure, command_object, arguments, expects_response),
            r,
        ),
    ensures
        ({
            let tx = if expects_response {
                nat_bits(old(c)@.next_tx as nat)
            } else {
                0
            };
            &&& r matches Ok(d) && d.bits == tx
            &&& final(c)@ == with_message(
                ClientView { next_tx: final(c)@.next_tx, ..old(c)@ },
                3,
                20,
                0,
                0,
                command_payload(procedure@, tx, command_object@, items_bytes(views(arguments@))),
            )
            &&& !expects_response ==> final(c)@.next_tx == old(c)@.next_tx
            &&& expects_response && old(c)@.next_tx < 0x20_0000_0000_0000 ==> final(c)@.next_tx
                == old(c)@.next_tx + 1
        }),
{
    let tx = if expects_response {
        nat_bits(old(c)@.next_tx as nat)
    } else {
        0
    };
    lemma_command(procedure@, tx, command_object@, views(arguments@));
}

/// The two answers to a call of the server name its transaction id and hold the
/// command object and one value: `_result` and `_error`.
pub proof fn law_answers_go_out(
    c: &mut RtmpClient,
    d: &mut RtmpClient,
    tx: Double,
    object: Amf0Value,
    response: Amf0Value,
    r: Result<()>,
    e: Result<()>,
)
    requires
        call_ensures(RtmpClient::reply_call_result, (c, tx, object, response), r),
        call_ensures(RtmpClient::reply_call_error, (d, tx, object, response), e),
    ensures
        r is Ok && e is Ok,
        final(c)@ == with_message(
            old(c)@,
            3,
            20,
            0,
            0,
            command_payload("_result"@, tx.bits, object@, encoded(response@)),
        ),
        final(d)@ == with_message(
            old(d)@,
            3,
            20,
            0,
            0,
            command_payload("_error"@, tx.bits, object@, encoded(response@)),
        ),
{
    lemma_items(seq![response@]);
    lemma_command("_result"@, tx.bits, object@, seq![response@]);
    lemma_command("_error"@, tx.bits, object@, seq![response@]);
}

/// Closing puts out `closeStream` on the stream of the client and chunk stream 3, with
/// the next transaction id, no command object, and the stream id for its argument.
pub proof fn law_close_goes_out(c: &mut RtmpClient, r: Result<()>)
    requires
        call_ensures(RtmpClient::close, (c,), r),
    ensures
        r is Ok,
        final(c)@ == with_message(
            ClientView { next_tx: final(c)@.next_tx, ..old(c)@ },
            3,
            20,
            old(c)@.stream_id,
            0,
            command_payload(
                "closeStream"@,
                nat_bits(old(c)@.next_tx as nat),
                Amf0::Null,
                encoded(Amf0::Number(nat_bits(old(c)@.stream_id as nat))),
            ),
        ),
        old(c)@.next_tx < 0x20_0000_0000_0000 ==> final(c)@.next_tx == old(c)@.next_tx + 1,
{
    let id = Amf0::Number(nat_bits(old(c)@.stream_id as nat));
    lemma_items(seq![id]);
    lemma_command("closeStream"@, nat_bits(old(c)@.next_tx as nat), Amf0::Null, seq![id]);
}

/// The messages of the connection itself: type 1 sets the chunk size, type 3
/// acknowledges, type 5 sets the window, and type 4 with 6 is a ping; each holds one
/// number of four bytes, on stream 0 and at time 0.
pub proof fn law_control_messages(n: u32, a: Message, b: Message, c: Message, d: Message)
    requires
        call_ensures(build_set_chunk_size, (n,), a),
        call_ensures(build_ack, (n,), b),
        call_ensures(build_window_ack_size, (n,), c),
        call_ensures(build_user_control_ping_request, (n,), d),
    ensures
        a@ == (MessageView {
            msg_type_id: 1,
            msg_stream_id: 0,
            timestamp: 0,
            payload: four_bytes(n),
        }),
        b@ == (MessageView {
            msg_type_id: 3,
            msg_stream_id: 0,
            timestamp: 0,
            payload: four_bytes(n),
        }),
        c@ == (MessageView {
            msg_type_id: 5,
            msg_stream_id: 0,
            timestamp: 0,
            payload: four_bytes(n),
        }),
        d@ == (MessageView {
            msg_type_id: 4,
            msg_stream_id: 0,
            timestamp: 0,
            payload: seq![0u8, 6] + four_bytes(n),
        }),
{
    lemma_four_bytes(n);
    law_bytes_by_their_value(6, 0, 0);
    assert(crate::wire::be16_bytes(6) =~= seq![0u8, 6]);
}

/// A command as a message: type 20, at time 0.
pub open spec fn command_on(stream_id: u32, payload: Seq<u8>) -> MessageView {
    MessageView { msg_type_id: 20, msg_stream_id: stream_id, timestamp: 0, payload }
}

/// The commands of the setup: `releaseStream` and `FCPublish` name the stream,
/// `createStream` has no argument, and `publish`, on its stream, names the stream and
/// then the kind of publishing. None has a command object.
pub proof fn law_setup_commands(
    tx: Double,
    stream_id: u32,
    stream_name: &str,
    publish_type: &str,
    a: Message,
    b: Message,
    c: Message,
    d: Message,
)
    requires
        call_ensures(build_release_stream, (tx, stream_name), a),
        call_ensures(build_fc_publish, (tx, stream_name), b),
        call_ensures(build_create_stream, (tx,), c),
        call_ensures(build_publish, (tx, stream_id, stream_name, publish_type), d),
    ensures
        ({
            let name = encoded(Amf0::String(stream_name@));
            let kind = encoded(Amf0::String(publish_type@));
            let none = Seq::<u8>::empty();
            &&& a@ == command_on(0, command_payload("releaseStream"@, tx.bits, Amf0::Null, name))
            &&& b@ == command_on(0, command_payload("FCPublish"@, tx.bits, Amf0::Null, name))
            &&& c@ == command_on(0, command_payload("createStream"@, tx.bits, Amf0::Null, none))
            &&& d@ == command_on(
                stream_id,
                command_payload("publish"@, tx.bits, Amf0::Null, name + kind),
            )
        }),
{
    let one = seq![Amf0::String(stream_name@)];
    let two = seq![Amf0::String(stream_name@), Amf0::String(publish_type@)];
    lemma_items(one);
    lemma_items(two);
    lemma_command("releaseStream"@, tx.bits, Amf0::Null, one);
    lemma_command("FCPublish"@, tx.bits, Amf0::Null, one);
    lemma_command("createStream"@, tx.bits, Amf0::Null, Seq::empty());
    lemma_command("publish"@, tx.bits, Amf0::Null, two);
}

/// `connect` has one object: the properties that the application states, and behind
/// them the capabilities.
pub proof fn law_connect_command(
    tx: Double,
    properties: Vec<(String, Amf0Value)>,
    caps: &ConnectCapabilities,
    m: Message,
)
    requires
        call_ensures(build_connect_with_caps, (tx, properties, caps), m),
    ensures
        m@ == command_on(
            0,
            command_payload(
                "connect"@,
                tx.bits,
                Amf0::Object(pair_views(properties@) + present(caps@.fields())),
                Seq::empty(),
            ),
        ),
{
    let object = Amf0::Object(pair_views(properties@) + present(caps@.fields()));
    lemma_command("connect"@, tx.bits, object, Seq::empty());
}

/// The data messages: a value to be kept, and one to be taken back.
pub proof fn law_data_messages(
    stream_id: u32,
    handler: &str,
    value: &Amf0Value,
    a: Message,
    b: Message,
)
    requires
        call_ensures(build_set_data_frame_named, (stream_id, handler, value), a),
        call_ensures(build_clear_data_frame, (stream_id, handler), b),
    ensures
        a@ == (MessageView {
            msg_type_id: 18,
            msg_stream_id: stream_id,
            timestamp: 0,
            payload: encoded(Amf0::String("@setDataFrame"@)) + encoded(Amf0::String(handler@))
                + encoded(value@),
        }),
        b@ == (MessageView {
            msg_type_id: 18,
            msg_stream_id: stream_id,
            timestamp: 0,
            payload: encoded(Amf0::String("@clearDataFrame"@)) + encoded(Amf0::String(handler@)),
        }),
{
    lemma_items(seq![Amf0::String("@setDataFrame"@), Amf0::String(handler@), value@]);
    lemma_items(seq![Amf0::String("@clearDataFrame"@), Amf0::String(handler@)]);
}

// ---------------------------------------------------------------------------
// What comes in
// ---------------------------------------------------------------------------

/// A number of four bytes, the highest first.
pub open spec fn value32(a: u8, b: u8, c: u8, d: u8) -> u32 {
    (a * 0x100_0000 + b * 0x1_0000 + c * 0x100 + d) as u32
}

/// User control messages start with two bytes. With 0, 1, 2 and 4 they tell that the
/// stream of the next four bytes begins, has ended, is dry or is recorded. 6 is a ping,
/// which is sent back with 7 and its own time, and 7 tells of such an answer.
pub proof fn law_user_control_bytes(a: u8, b: u8, c: u8, d: u8, rest: Seq<u8>)
    ensures
        ({
            let id = value32(a, b, c, d);
            let tail = seq![a, b, c, d] + rest;
            &&& control_of(seq![0u8, 0] + tail) == Ok::<ControlView, Fault>(
                ControlView::Tell(EventView::StreamBegin { stream_id: id }),
            )
            &&& control_of(seq![0u8, 1] + tail) == Ok::<ControlView, Fault>(
                ControlView::Tell(EventView::StreamEof { stream_id: id }),
            )
            &&& control_of(seq![0u8, 2] + tail) == Ok::<ControlView, Fault>(
                ControlView::Tell(EventView::StreamDry { stream_id: id }),
            )
            &&& control_of(seq![0u8, 4] + tail) == Ok::<ControlView, Fault>(
                ControlView::Tell(EventView::StreamIsRecorded { stream_id: id }),
            )
            &&& control_of(seq![0u8, 6] + tail) == Ok::<ControlView, Fault>(
                ControlView::Answer(seq![0u8, 7, a, b, c, d]),
            )
            &&& control_of(seq![0u8, 7] + tail) == Ok::<ControlView, Fault>(
                ControlView::Tell(EventView::PingResponse { timestamp_ms: id }),
            )
        }),
{
    let tail = seq![a, b, c, d] + rest;
    lemma_control_parts(0, tail);
    lemma_control_parts(1, tail);
    lemma_control_parts(2, tail);
    lemma_control_parts(4, tail);
    lemma_control_parts(6, tail);
    lemma_control_parts(7, tail);
    law_fields_by_their_bytes(tail, 0);
    law_bytes_by_their_value(7, 0, 0);
    assert(crate::wire::be16_bytes(7) + tail.subrange(0, 4) =~= seq![0u8, 7, a, b, c, d]);
}

proof fn lemma_control_parts(kind: u8, data: Seq<u8>)
    ensures
        crate::client::event::user_control(seq![0u8, kind] + data) == Ok::<
            (u16, Seq<u8>),
            Fault,
        >((kind as u16, data)),
{
    let s = seq![0u8, kind] + data;
    law_fields_by_their_bytes(s, 0);
    assert(from(s, 2) =~= data);
}

/// Of user control messages that are too short, all but a ping are refused; one that
/// sets a buffer length needs eight bytes. Of any other kind nothing is told, and
/// nothing of a buffer length.
pub proof fn law_short_user_control(kind: u8, high: u8, low: u8, data: Seq<u8>, s: Seq<u8>)
    requires
        s.len() < 2,
    ensures
        control_of(s) == Err::<ControlView, Fault>(
            Fault::ProtocolViolation("UserControl: payload < 2 bytes"@),
        ),
        data.len() < 4 && (kind == 0 || kind == 1 || kind == 2 || kind == 4) ==> control_of(
            seq![0u8, kind] + data,
        ) == Err::<ControlView, Fault>(
            Fault::ProtocolViolation("UserControl: event data < 4 bytes (need stream id)"@),
        ),
        kind == 3 && data.len() < 8 ==> control_of(seq![0u8, kind] + data) == Err::<
            ControlView,
            Fault,
        >(Fault::ProtocolViolation("UserControl SetBufferLength: event data < 8 bytes"@)),
        kind == 7 && data.len() < 4 ==> control_of(seq![0u8, kind] + data) == Err::<
            ControlView,
            Fault,
        >(Fault::ProtocolViolation("UserControl PingResponse: event data < 4 bytes"@)),
        (kind == 3 && data.len() >= 8) || (kind == 6 && data.len() < 4) || kind == 5 || kind > 7
            ==> control_of(seq![0u8, kind] + data) == Ok::<ControlView, Fault>(
            ControlView::Tell(EventView::Other),
        ),
        high > 0 ==> control_of(seq![high, low] + data) == Ok::<ControlView, Fault>(
            ControlView::Tell(EventView::Other),
        ),
{
    lemma_control_parts(kind, data);
    let t = seq![high, low] + data;
    law_fields_by_their_bytes(t, 0);
    assert(t[0] == high && t[1] == low);
}

/// A field of a status is the first text of its name, and empty where that is no text.
pub proof fn law_status_texts(info: Amf0, key: Seq<char>)
    ensures
        text_in(info, key) == (match info.get(key) {
            Some(Amf0::String(s)) => s,
            _ => Seq::empty(),
        }),
{
}

/// A status tells its level, code and description. Under the level `status` and the
/// code of a request to connect anew it is that request, to the address `tcUrl` if it
/// names one.
pub proof fn law_status_tells(info: Amf0)
    ensures
        ({
            let again = text_in(info, "code"@) == "NetConnection.Connect.ReconnectRequest"@
                && text_in(info, "level"@) == "status"@;
            &&& !again ==> status_event(info) == (EventView::OnStatus {
                level: text_in(info, "level"@),
                code: text_in(info, "code"@),
                description: text_in(info, "description"@),
            })
            &&& again ==> status_event(info) == (EventView::ReconnectRequest {
                tc_url: match info.get("tcUrl"@) {
                    Some(Amf0::String(s)) => Some(s),
                    _ => None,
                },
                description: text_in(info, "description"@),
            })
        }),
{
}

/// What a command tells: `onStatus` the status in its fourth value, `_result` and
/// `_error` all their values under their transaction id; any other name the call that
/// it makes, if it makes one.
pub proof fn law_command_tells(values: Vec<Amf0Value>, call: Option<CallCommand>, e: ClientEvent)
    requires
        call_ensures(classify_command, (values, call), e),
    ensures
        ({
            let v = views(values@);
            let name = if v.len() > 0 {
                v[0]
            } else {
                Amf0::Null
            };
            let tx = if v.len() > 1 && v[1] is Number {
                v[1]->Number_0
            } else {
                0
            };
            let own = name == Amf0::String("onStatus"@) || name == Amf0::String("_result"@) || name
                == Amf0::String("_error"@);
            &&& name == Amf0::String("onStatus"@) && v.len() > 3 ==> e@ == status_event(v[3])
            &&& name == Amf0::String("onStatus"@) && v.len() <= 3 ==> e@ is Other
            &&& name == Amf0::String("_result"@) ==> e@ == (EventView::Result {
                transaction_id: Double { bits: tx },
                values: v,
            })
            &&& name == Amf0::String("_error"@) ==> e@ == (EventView::ErrorReply {
                transaction_id: Double { bits: tx },
                values: v,
            })
            &&& !own && call is Some ==> e@ == EventView::Call(call->0@)
            &&& !own && call is None ==> e@ is Other
        }),
{
    reveal_strlit("onStatus");
    reveal_strlit("_result");
    reveal_strlit("_error");
    let s = "onStatus"@;
    let r = "_result"@;
    let x = "_error"@;
    assert(s.len() == 8 && r.len() == 7 && x.len() == 6);
}

/// The capabilities of a server are those of the first value of its reply that states
/// any beside the object encoding; where none does, there are none.
pub proof fn law_server_capabilities(values: &[Amf0Value], i: int, c: ConnectCapabilities)
    requires
        call_ensures(extract_server_caps, (values,), c),
        forall|k: int|
            0 <= k < i && k < values@.len() ==> {
                let said = caps_of((#[trigger] values@[k])@);
                said.fourcc_list.len() == 0 && said.video.len() == 0 && said.audio.len() == 0
                    && said.caps_ex == 0
            },
        0 <= i < values@.len() ==> {
            let said = caps_of(values@[i]@);
            said.fourcc_list.len() > 0 || said.video.len() > 0 || said.audio.len() > 0
                || said.caps_ex != 0
        },
    ensures
        0 <= i < values@.len() ==> c@ == caps_of(values@[i]@),
        i >= values@.len() ==> c@.fourcc_list.len() == 0 && c@.video.len() == 0
            && c@.audio.len() == 0 && c@.caps_ex == 0 && c@.object_encoding is None,
{
    if i >= 0 {
        lemma_caps_from(views(values@), 0, i);
    }
}

proof fn lemma_caps_from(v: Seq<Amf0>, k: int, i: int)
    requires
        0 <= k <= i,
        forall|j: int|
            k <= j < i && j < v.len() ==> {
                let said = caps_of(#[trigger] v[j]);
                said.fourcc_list.len() == 0 && said.video.len() == 0 && said.audio.len() == 0
                    && said.caps_ex == 0
            },
        i < v.len() ==> {
            let said = caps_of(v[i]);
            said.fourcc_list.len() > 0 || said.video.len() > 0 || said.audio.len() > 0
                || said.caps_ex != 0
        },
    ensures
        i < v.len() ==> caps_among(v, k) == caps_of(v[i]),
        i >= v.len() ==> caps_among(v, k) == CapsView::none(),
    decreases i - k,
{
    if k < i && k < v.len() {
        lemma_caps_from(v, k + 1, i);
    }
}

/// What a message comes to, by its type. Type 1 sets the size of the chunks that come,
/// of which the highest bit does not count; type 5 sets the window; type 6 is handed
/// on with its payload, type 17 too; types 16 and 19 are shared objects.
pub proof fn law_message_comes_to(
    c: ClientView,
    m: MessageView,
    queued: bool,
    a: u8,
    b: u8,
    d: u8,
    e: u8,
    rest: Seq<u8>,
)
    requires
        m.payload == seq![a, b, d, e] + rest,
    ensures
        ({
            let n = value32(a, b, d, e);
            let (r, c2) = classified(c, m, queued);
            let other = Ok::<StepView, Fault>(StepView::Event(EventView::Other));
            &&& m.msg_type_id == 1 && 1 <= n % 0x8000_0000 <= 0xFF_FFFF ==> r == other && c2 == (
            ClientView {
                reader: ReaderView { chunk_size: (n % 0x8000_0000) as usize, ..c.reader },
                ..c
            })
            &&& m.msg_type_id == 5 ==> r == other && c2 == (ClientView {
                reader: ReaderView {
                    window_ack_size: n,
                    last_ack_bytes: c.reader.received_bytes,
                    ..c.reader
                },
                ..c
            })
            &&& m.msg_type_id == 6 ==> r == Ok::<StepView, Fault>(
                StepView::PeerBandwidth { payload: m.payload, queued },
            ) && c2 == c
            &&& m.msg_type_id == 17 ==> r == Ok::<StepView, Fault>(
                StepView::CommandAmf3 { payload: m.payload, queued },
            ) && c2 == c
            &&& m.msg_type_id == 16 || m.msg_type_id == 19 ==> r == Ok::<StepView, Fault>(
                StepView::SharedObject(m),
            ) && c2 == c
        }),
{
    law_fields_by_their_bytes(m.payload, 0);
    assert(m.payload[0] == a && m.payload[1] == b && m.payload[2] == d && m.payload[3] == e);
    let n = value32(a, b, d, e);
    law_legal_chunk_sizes_are_taken((n % 0x8000_0000) as usize);
}

/// Type 4 tells what the user control message says, or is answered on chunk stream 2;
/// type 20 is an answer or a status where its name is `onStatus`, `_result` or
/// `_error`, else a call; the parts of type 22 are queued behind those that are. Of
/// types 2, 3, 8, 9, 15, 18 and any that has no meaning nothing is told, and nothing
/// changes.
pub proof fn law_message_tells(c: ClientView, m: MessageView, queued: bool)
    ensures
        ({
            let (r, c2) = classified(c, m, queued);
            let other = Ok::<StepView, Fault>(StepView::Event(EventView::Other));
            let known = m.msg_type_id == 1 || m.msg_type_id == 4 || m.msg_type_id == 5
                || m.msg_type_id == 6 || m.msg_type_id == 16 || m.msg_type_id == 17 || m.msg_type_id
                == 19 || m.msg_type_id == 20 || m.msg_type_id == 22;
            &&& m.msg_type_id == 4 ==> (match control_of(m.payload) {
                Err(f) => r == Err::<StepView, Fault>(f) && c2 == c,
                Ok(ControlView::Tell(e)) => r == Ok::<StepView, Fault>(StepView::Event(e)) && c2
                    == c,
                Ok(ControlView::Answer(p)) => r == other && c2 == with_message(c, 2, 4, 0, 0, p),
            })
            &&& m.msg_type_id == 20 ==> c2 == c && (match values_of(m.payload) {
                Err(f) => r == Err::<StepView, Fault>(f),
                Ok(v) => {
                    let reply = command_name(v) == "onStatus"@ || command_name(v) == "_result"@
                        || command_name(v) == "_error"@;
                    &&& reply ==> r == Ok::<StepView, Fault>(
                        StepView::Event(command_event(v, None)),
                    )
                    &&& !reply ==> r == Ok::<StepView, Fault>(
                        StepView::Command { values: v, queued },
                    )
                },
            })
            &&& m.msg_type_id == 22 ==> (match aggregate_parts(m) {
                Err(f) => r == Err::<StepView, Fault>(f) && c2 == c,
                Ok(subs) => r == other && c2 == (ClientView { pending: c.pending + subs, ..c }),
            })
            &&& !known ==> r == other && c2 == c
            &&& (m.msg_type_id == 1 || m.msg_type_id == 5) && m.payload.len() < 4 ==> r == Err::<
                StepView,
                Fault,
            >(Fault::ProtocolViolation("need 4 bytes for u32be"@)) && c2 == c
        }),
{
}

/// A message of an aggregate that was queued is looked at before anything that comes;
/// one of which there is nothing to tell is passed over.
pub proof fn law_queue_goes_first(c: ClientView)
    requires
        c.reader.wf(),
        !c.read_eof,
        c.pending.len() > 0,
    ensures
        ({
            let rest = ClientView { pending: c.pending.subrange(1, c.pending.len() as int), ..c };
            let (r, c2) = classified(rest, c.pending[0], true);
            match r {
                Err(f) => polled(c) == (Err::<Option<StepView>, Fault>(f), c2),
                Ok(step) => if step == StepView::Event(EventView::Other) {
                    polled(c) == polled(c2)
                } else {
                    polled(c) == (Ok::<Option<StepView>, Fault>(Some(step)), c2)
                },
            }
        }),
{
}

/// A message that comes is acknowledged first, where that is due: by a message of type 3
/// on chunk stream 2 that counts the bytes. Then it is told, also where there is nothing
/// to tell; an aggregate is queued, and its parts are looked at.
pub proof fn law_message_is_acknowledged_and_told(c: ClientView, m: MessageView)
    requires
        c.reader.wf(),
        !c.read_eof,
        c.pending.len() == 0,
        read_from(c.reader).0 == Ok::<MessageView, Fault>(m),
    ensures
        ({
            let (due, reader) = ack_from(read_from(c.reader).1);
            let read = ClientView { reader, ..c };
            let ready = match due {
                Some(n) => with_message(read, 2, 3, 0, 0, four_bytes(n)),
                None => read,
            };
            &&& m.msg_type_id != 22 ==> (match classified(ready, m, false) {
                (Err(f), c2) => polled(c) == (Err::<Option<StepView>, Fault>(f), c2),
                (Ok(step), c2) => polled(c) == (Ok::<Option<StepView>, Fault>(Some(step)), c2),
            })
            &&& m.msg_type_id == 22 ==> (match aggregate_parts(m) {
                Err(f) => polled(c) == (Err::<Option<StepView>, Fault>(f), ready),
                Ok(subs) => polled(c) == polled(ClientView { pending: subs, ..ready }),
            })
        }),
{
    law_reading_takes_bytes(c.reader);
    let (due, reader) = ack_from(read_from(c.reader).1);
    let read = ClientView { reader, ..c };
    let acked = (ClientView { reader: read_from(c.reader).1, ..c }).acked();
    if let Some(n) = due {
        lemma_four_bytes(n);
        assert(acked == with_message(read, 2, 3, 0, 0, four_bytes(n)));
    } else {
        assert(acked == read);
    }
    if m.msg_type_id == 22 {
        if let Ok(subs) = aggregate_parts(m) {
            assert(c.pending + subs =~= subs);
            assert(polled(c) == polled(ClientView { pending: acked.pending + subs, ..acked }));
        }
    }
}

/// Looking at a connection does what is said here of it, and looking at a setup too.
pub proof fn law_looking(
    c: &mut RtmpClient,
    r: Result<Option<ClientStep>>,
    s: &mut Connecting,
    t: Result<SetupStep>,
)
    requires
        call_ensures(RtmpClient::poll_event, (c,), r),
        call_ensures(Connecting::advance, (s,), t),
    ensures
        final(c)@ == polled(old(c)@).1,
        r matches Ok(Some(step)) ==> polled(old(c)@).0 == Ok::<Option<StepView>, Fault>(Some(step@)),
        r matches Ok(None) ==> polled(old(c)@).0 == Ok::<Option<StepView>, Fault>(None),
        r matches Err(e) ==> polled(old(c)@).0 == Err::<Option<StepView>, Fault>(e@),
        final(s)@ == advanced(old(s)@).1,
        t matches Ok(step) ==> advanced(old(s)@).0 == Ok::<SetupStepView, Fault>(step@),
        t matches Err(e) ==> advanced(old(s)@).0 == Err::<SetupStepView, Fault>(e@),
{
}

// ---------------------------------------------------------------------------
// The setup
// ---------------------------------------------------------------------------

/// A setup starts by announcing chunks of 4096 bytes, type 1 on chunk stream 2, and
/// writes with that size from then on; then `connect`, with transaction id 1, goes out
/// on chunk stream 3. What comes is read with the default size, 128.
pub proof fn law_setup_starts(
    url: &RtmpUrl,
    publish_type: &str,
    properties: Vec<(String, Amf0Value)>,
    caps: &ConnectCapabilities,
    s: Connecting,
)
    requires
        call_ensures(Connecting::start, (url, publish_type, properties, caps), s),
    ensures
        s@.writer.chunk_size == 4096,
        ({
            let first = MessageView {
                msg_type_id: 1,
                msg_stream_id: 0,
                timestamp: 0,
                payload: seq![0u8, 0, 0x10, 0],
            };
            let fresh = WriterView {
                stream: Seq::empty(),
                chunk_size: 128,
                states: Map::empty(),
            };
            let announced = WriterView { chunk_size: 4096, ..fresh.after(2, first) };
            let object = Amf0::Object(pair_views(properties@) + present(caps@.fields()));
            s@.writer == announced.after(
                3,
                command_on(0, command_payload("connect"@, nat_bits(1), object, Seq::empty())),
            )
        }),
        s@.reader.chunk_size == 128,
        s@.reader.stream.len() == 0,
        s@.reader.window_ack_size == 0,
        s@.url == url@,
        s@.publish_type == publish_type@,
        s@.phase is Connect,
{
    law_legal_chunk_sizes_are_taken(4096);
    lemma_four_bytes(4096);
    assert(four_bytes(4096) =~= seq![0u8, 0, 0x10, 0]);
    let object = Amf0::Object(pair_views(properties@) + present(caps@.fields()));
    lemma_command("connect"@, nat_bits(1), object, Seq::empty());
}

/// A client that waits for a result takes it where its name is `_result` and its
/// transaction id is the one it waits for, and an `_error` whatever its id is. Types 1,
/// 5 and 6 set chunk size and window meanwhile, and everything else is passed over.
pub proof fn law_waiting_hears(m: MessageView, tx: u32)
    requires
        tx > 0,
    ensures
        m.msg_type_id == 20 ==> (match values_of(m.payload) {
            Err(f) => heard(m, tx) == Heard::Bad(f),
            Ok(v) => {
                let named = command_name(v) == "_result"@ && v.len() > 1 && v[1]
                    == Amf0::Number(nat_bits(tx as nat));
                let refused = command_name(v) == "_error"@;
                &&& named ==> heard(m, tx) == Heard::Done(AwaitedView::Result(v))
                &&& refused && v.len() > 3 ==> heard(m, tx) == Heard::Done(
                    AwaitedView::Refused(Some(v[3])),
                )
                &&& refused && v.len() <= 3 ==> heard(m, tx) == Heard::Done(
                    AwaitedView::Refused(None),
                )
                &&& command_name(v) != "_result"@ && !refused ==> heard(m, tx) is Nothing
                &&& command_name(v) == "_result"@ && (v.len() < 2 || !(v[1] is Number))
                    ==> heard(m, tx) is Nothing
            },
        }),
        m.msg_type_id != 1 && m.msg_type_id != 5 && m.msg_type_id != 6 && m.msg_type_id != 20
            ==> heard(m, tx) is Nothing,
        m.payload.len() < 4 && (m.msg_type_id == 1 || m.msg_type_id == 5) ==> heard(m, tx)
            == Heard::Bad(Fault::ProtocolViolation("need 4 bytes for u32be"@)),
        m.payload.len() < 4 && m.msg_type_id == 6 ==> heard(m, tx) is Nothing,
        m.payload.len() >= 4 ==> {
            let n = value32(m.payload[0], m.payload[1], m.payload[2], m.payload[3]);
            &&& m.msg_type_id == 1 ==> heard(m, tx) == Heard::ChunkSize((n % 0x8000_0000) as u32)
            &&& m.msg_type_id == 5 || m.msg_type_id == 6 ==> heard(m, tx) == Heard::Window(n)
        },
{
    reveal_strlit("_result");
    reveal_strlit("_error");
    assert("_result"@.len() == 7 && "_error"@.len() == 6);
    crate::number::lemma_nat_bits(tx as nat);
    law_fields_by_their_bytes(m.payload, 0);
}

/// A result that names another transaction is passed over.
pub proof fn law_results_of_others_are_passed_over(m: MessageView, tx: u32, other: nat)
    requires
        m.msg_type_id == 20,
        values_of(m.payload) matches Ok(v) && command_name(v) == "_result"@ && v.len() > 1 && v[1]
            == Amf0::Number(nat_bits(other)),
        other <= u32::MAX,
        other != tx,
    ensures
        heard(m, tx) is Nothing,
{
    reveal_strlit("_result");
    reveal_strlit("_error");
    assert("_result"@.len() == 7 && "_error"@.len() == 6);
    crate::number::lemma_nat_bits(other);
}

/// Waiting goes on until there is a result, an error, or nothing more has come; chunk
/// sizes and windows are followed on the way.
pub proof fn law_waiting_goes_on(r: ReaderView, tx: u32)
    requires
        r.wf(),
    ensures
        ({
            let (m, after) = read_from(r);
            match m {
                Err(f) => if f is UnexpectedEof {
                    awaited(r, tx) == (
                        Ok::<AwaitedView, Fault>(AwaitedView::NeedInput),
                        after,
                    )
                } else {
                    awaited(r, tx) == (Err::<AwaitedView, Fault>(f), after)
                },
                Ok(msg) => match heard(msg, tx) {
                    Heard::Bad(f) => awaited(r, tx) == (Err::<AwaitedView, Fault>(f), after),
                    Heard::Done(v) => awaited(r, tx) == (Ok::<AwaitedView, Fault>(v), after),
                    Heard::Nothing => awaited(r, tx) == awaited(after, tx),
                    Heard::Window(n) => awaited(r, tx) == awaited(
                        ReaderView {
                            window_ack_size: n,
                            last_ack_bytes: after.received_bytes,
                            ..after
                        },
                        tx,
                    ),
                    Heard::ChunkSize(n) => 1 <= n <= 0xFF_FFFF ==> awaited(r, tx) == awaited(
                        ReaderView { chunk_size: n as usize, ..after },
                        tx,
                    ),
                },
            }
        }),
{
    law_reading_takes_bytes(r);
    let (m, after) = read_from(r);
    if let Ok(msg) = m {
        if let Heard::ChunkSize(n) = heard(msg, tx) {
            law_legal_chunk_sizes_are_taken(n as usize);
        }
    }
}

/// The stream id is the last number of the result, cut to 32 bits; a result without a
/// number is none.
pub proof fn law_stream_id_is_the_last_number(v: Seq<Amf0>, i: int, n: nat)
    ensures
        0 <= i < v.len() && v[i] == Amf0::Number(nat_bits(n)) && n <= u32::MAX && (forall|j: int|
            i < j < v.len() ==> !((#[trigger] v[j]) is Number)) ==> created_stream(v) == Ok::<
            u32,
            Fault,
        >(n as u32),
        (forall|j: int| 0 <= j < v.len() ==> !((#[trigger] v[j]) is Number)) ==> created_stream(v)
            == Err::<u32, Fault>(Fault::InvalidCommand("createStream result has no stream id"@)),
{
    if 0 <= i < v.len() && v[i] == Amf0::Number(nat_bits(n)) && n <= u32::MAX && (forall|j: int|
        i < j < v.len() ==> !((#[trigger] v[j]) is Number)) {
        lemma_last_number(v, i, v.len() as int);
        crate::number::lemma_nat_bits(n);
    }
    if forall|j: int| 0 <= j < v.len() ==> !((#[trigger] v[j]) is Number) {
        lemma_last_number(v, -1, v.len() as int);
    }
}

proof fn lemma_last_number(v: Seq<Amf0>, i: int, n: int)
    requires
        -1 <= i < n <= v.len() || (i == -1 && n == 0),
        0 <= i ==> v[i] is Number,
        forall|j: int| i < j < n ==> !((#[trigger] v[j]) is Number),
    ensures
        crate::client::setup::last_number(v, n) == if i < 0 {
            None
        } else {
            Some(v[i]->Number_0)
        },
    decreases n,
{
    if n > i + 1 && n > 0 {
        lemma_last_number(v, i, n - 1);
    }
}

/// A stream has begun with a user control message, type 4, and with a status or a
/// result, type 20; other messages do not count.
pub proof fn law_stream_begins(m: MessageView)
    ensures
        m.msg_type_id == 4 ==> is_start(m) == Ok::<bool, Fault>(true),
        m.msg_type_id == 20 ==> (match values_of(m.payload) {
            Err(f) => is_start(m) == Err::<bool, Fault>(f),
            Ok(v) => is_start(m) == Ok::<bool, Fault>(
                command_name(v) == "onStatus"@ || command_name(v) == "_result"@,
            ),
        }),
        m.msg_type_id != 4 && m.msg_type_id != 20 ==> is_start(m) == Ok::<bool, Fault>(false),
{
}

/// Waiting for the stream to begin ends with the first such message, or when so many
/// messages have come as are waited for.
pub proof fn law_patience_runs_out(r: ReaderView, left: nat)
    ensures
        begun(r, 0) == (Ok::<Option<nat>, Fault>(None), r),
        left > 0 ==> {
            let (m, after) = read_from(r);
            match m {
                Err(f) => if f is UnexpectedEof {
                    begun(r, left) == (Ok::<Option<nat>, Fault>(Some(left)), after)
                } else {
                    begun(r, left) == (Err::<Option<nat>, Fault>(f), after)
                },
                Ok(msg) => match is_start(msg) {
                    Err(f) => begun(r, left) == (Err::<Option<nat>, Fault>(f), after),
                    Ok(true) => begun(r, left) == (Ok::<Option<nat>, Fault>(None), after),
                    Ok(false) => begun(r, left) == begun(after, (left - 1) as nat),
                },
            }
        },
{
}

/// Once connected, a setup keeps what the server can do, and puts out three commands on
/// chunk stream 3: `releaseStream`, `FCPublish` and `createStream`, with transaction ids
/// 2, 3 and 4.
pub proof fn law_connected_asks_for_a_stream(s: SetupView, v: Seq<Amf0>)
    requires
        s.phase is Connect,
        awaited(s.reader, 1).0 == Ok::<AwaitedView, Fault>(AwaitedView::Result(v)),
    ensures
        ({
            let name = encoded(Amf0::String(s.url.stream_name));
            let a = command_on(
                0,
                command_payload("releaseStream"@, nat_bits(2), Amf0::Null, name),
            );
            let b = command_on(0, command_payload("FCPublish"@, nat_bits(3), Amf0::Null, name));
            let c = command_on(
                0,
                command_payload("createStream"@, nat_bits(4), Amf0::Null, Seq::empty()),
            );
            let next = SetupView {
                reader: awaited(s.reader, 1).1,
                server_caps: caps_among(v, 0),
                writer: s.writer.after(3, a).after(3, b).after(3, c),
                phase: Phase::Stream,
                ..s
            };
            advanced(s) == advanced(next)
        }),
{
    let one = seq![Amf0::String(s.url.stream_name)];
    lemma_items(one);
    lemma_command("releaseStream"@, nat_bits(2), Amf0::Null, one);
    lemma_command("FCPublish"@, nat_bits(3), Amf0::Null, one);
    lemma_command("createStream"@, nat_bits(4), Amf0::Null, Seq::empty());
}

/// With a stream, a setup puts out `publish` on it, with transaction id 5, the name of
/// the stream and the kind of publishing, and then waits for the stream to begin, for 20
/// messages at most.
pub proof fn law_stream_is_published(s: SetupView, v: Seq<Amf0>, id: u32)
    requires
        s.phase is Stream,
        awaited(s.reader, 4).0 == Ok::<AwaitedView, Fault>(AwaitedView::Result(v)),
        created_stream(v) == Ok::<u32, Fault>(id),
    ensures
        ({
            let args = encoded(Amf0::String(s.url.stream_name)) + encoded(
                Amf0::String(s.publish_type),
            );
            let m = command_on(id, command_payload("publish"@, nat_bits(5), Amf0::Null, args));
            let next = SetupView {
                reader: awaited(s.reader, 4).1,
                stream_id: id,
                writer: s.writer.after(3, m),
                phase: Phase::Publish(20),
                ..s
            };
            advanced(s) == advanced(next)
        }),
{
    let two = seq![Amf0::String(s.url.stream_name), Amf0::String(s.publish_type)];
    lemma_items(two);
    lemma_command("publish"@, nat_bits(5), Amf0::Null, two);
}

/// A setup that waits, that is refused or that fails keeps all but its reader, and says
/// so.
pub proof fn law_setup_waits(s: SetupView)
    requires
        s.phase is Connect || s.phase is Stream,
    ensures
        ({
            let tx: u32 = if s.phase is Connect {
                1
            } else {
                4
            };
            let (r, reader) = awaited(s.reader, tx);
            let same = SetupView { reader, ..s };
            &&& r matches Err(f) ==> advanced(s) == (Err::<SetupStepView, Fault>(f), same)
            &&& r == Ok::<AwaitedView, Fault>(AwaitedView::NeedInput) ==> advanced(s) == (
                Ok::<SetupStepView, Fault>(SetupStepView::NeedInput),
                same,
            )
            &&& r matches Ok(AwaitedView::Refused(v)) ==> advanced(s) == (
                Ok::<SetupStepView, Fault>(SetupStepView::Refused(v)),
                same,
            )
            &&& (s.phase is Stream && r matches Ok(AwaitedView::Result(v))) && created_stream(
                r->Ok_0->Result_0,
            ) is Err ==> advanced(s) == (
                Err::<SetupStepView, Fault>(created_stream(r->Ok_0->Result_0)->Err_0),
                same,
            )
        }),
{
}

/// Once `publish` is out, a setup waits for the stream to begin; then it is ready, and
/// stays so.
pub proof fn law_setup_gets_ready(s: SetupView, left: u8)
    ensures
        s.phase == Phase::Publish(left) ==> {
            let (r, reader) = begun(s.reader, left as nat);
            match r {
                Err(f) => advanced(s) == (
                    Err::<SetupStepView, Fault>(f),
                    SetupView { reader, ..s },
                ),
                Ok(Some(n)) => advanced(s) == (
                    Ok::<SetupStepView, Fault>(SetupStepView::NeedInput),
                    SetupView { reader, phase: Phase::Publish(n as u8), ..s },
                ),
                Ok(None) => advanced(s) == (
                    Ok::<SetupStepView, Fault>(SetupStepView::Ready),
                    SetupView { reader, phase: Phase::Ready, ..s },
                ),
            }
        },
        s.phase is Ready ==> advanced(s) == (
            Ok::<SetupStepView, Fault>(SetupStepView::Ready),
            s,
        ),
{
}

/// A setup that is ready becomes a client on its stream, which goes on with the reader
/// and the writer of the setup and counts its transactions from 10. No other setup
/// becomes one. Waiting can be given up only once `publish` is out.
pub proof fn law_setup_becomes_a_client(
    s: Connecting,
    r: Option<RtmpClient>,
    t: &mut Connecting,
    given_up: bool,
)
    requires
        call_ensures(Connecting::into_client, (s,), r),
        call_ensures(Connecting::stop_waiting, (t,), given_up),
    ensures
        r is Some <==> s@.phase is Ready,
        r matches Some(c) ==> c@.reader == s@.reader && c@.writer == s@.writer && c@.stream_id
            == s@.stream_id && c@.next_tx == 10 && !c@.input_ended && !c@.read_eof
            && c@.server_caps == s@.server_caps && c@.tc_url == s@.url.tc_url && c@.pending.len()
            == 0,
        given_up <==> old(t)@.phase is Publish || old(t)@.phase is Ready,
        given_up ==> final(t)@ == (SetupView { phase: Phase::Ready, ..old(t)@ }),
        !given_up ==> final(t)@ == old(t)@,
{
}

/// A client takes user control messages as they are said to be here.
pub proof fn law_user_control_is_classified(payload: &[u8], r: Result<Control>)
    requires
        call_ensures(classify_user_control, (payload,), r),
    ensures
        outcome(r) == control_of(payload@),
{
}

/// A client that is told to reconnect goes to the address that it is given, as seen from its
/// own, and to its own where it is given none.
pub proof fn law_reconnecting(
    c: &RtmpClient,
    reference: &str,
    given: String,
    own: String,
    said: &str,
)
    requires
        call_ensures(RtmpClient::resolve_reconnect_url, (c, Some(reference)), given),
        call_ensures(RtmpClient::resolve_reconnect_url, (c, None), own),
        call_ensures(RtmpClient::tc_url, (c,), said),
    ensures
        given@ == resolved(said@, reference@),
        own@ == said@,
        said@ == c@.tc_url,
{
}

/// The stream that a server has made is the last number of its answer, as 32 bits; an answer
/// without a number is refused.
pub proof fn law_stream_is_read(values: &Vec<Amf0Value>, i: int, n: nat, r: Result<u32>)
    requires
        call_ensures(create_stream_id, (values,), r),
        n <= u32::MAX,
    ensures
        0 <= i < values@.len() && values@[i]@ == Amf0::Number(nat_bits(n)) && (forall|j: int|
            i < j < values@.len() ==> !((#[trigger] values@[j])@ is Number)) ==> r == Ok::<
            u32,
            Error,
        >(n as u32),
        (forall|j: int| 0 <= j < values@.len() ==> !((#[trigger] values@[j])@ is Number)) ==> (
        r matches Err(e) && e is InvalidCommand),
{
    let v = views(values@);
    assert forall|j: int| 0 <= j < v.len() implies #[trigger] v[j] == values@[j]@ by {}
    law_stream_id_is_the_last_number(v, i, n);
}

} // verus!
