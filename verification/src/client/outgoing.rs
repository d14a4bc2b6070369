//! The messages that a publishing client sends.

use vstd::prelude::*;
use crate::amf::{encode, encode_command, Amf0Value};
#[allow(unused_imports)]
use crate::amf::{
    command_bytes, decode_at, encoded, items_bytes, lemma_container_views, no_text, pair_views,
    values_at, values_of, Amf0, Decoded, Failure,
};
use crate::amf3;
#[allow(unused_imports)]
use crate::amf3::bridge::{bridged, law_plain_keys_need_no_text, plain_keys};
#[allow(unused_imports)]
use crate::amf3::value::Amf3;
#[allow(unused_imports)]
use crate::amf_fields::present;
#[allow(unused_imports)]
use crate::amf_laws::law_switched_value_reads_as_amf0;
use crate::caps::ConnectCapabilities;
use crate::chunk::Message;
#[allow(unused_imports)]
use crate::chunk::MessageView;
#[allow(unused_imports)]
use crate::error::Fault;
use crate::flv::audio::{build_audio, AudioTag};
#[allow(unused_imports)]
use crate::flv::audio::AudioView;
use crate::flv::mod_ex::ModEx;
#[allow(unused_imports)]
use crate::flv::mod_ex::ModExView;
use crate::flv::video::{build_video, VideoTag};
#[allow(unused_imports)]
use crate::flv::video::VideoView;
use crate::flv::{AUDIO_FORMAT_AAC, VIDEO_CODEC_AVC, VIDEO_FRAME_INTER, VIDEO_FRAME_KEYFRAME};
use crate::message::{
    MSG_ACK, MSG_AUDIO, MSG_COMMAND_AMF0, MSG_DATA_AMF0, MSG_DATA_AMF3, MSG_SET_CHUNK_SIZE,
    MSG_USER_CONTROL, MSG_VIDEO, MSG_WINDOW_ACK_SIZE, USR_PING_REQUEST,
};
#[allow(unused_imports)]
use crate::model::views;
use crate::number::Double;
use crate::wire::{put_be16, put_be32};
#[allow(unused_imports)]
use crate::wire::{be16_bytes, be32_bytes, from};

verus! {

/// The byte in front of an AMF3 data message: the values that follow are AMF0
/// ones, each of which may switch to AMF3.
pub const FORMAT_SELECTOR_AMF0: u8 = 0;

// ---------------------------------------------------------------------------
// The model
// ---------------------------------------------------------------------------

/// A message of the connection itself.
pub open spec fn control_message(msg_type_id: u8, payload: Seq<u8>) -> MessageView {
    MessageView { msg_type_id, msg_stream_id: 0, timestamp: 0, payload }
}

/// A command on a message stream.
pub open spec fn command_message(
    stream_id: u32,
    name: Seq<char>,
    transaction_id: Double,
    object: Amf0,
    args: Seq<Amf0>,
) -> MessageView {
    MessageView {
        msg_type_id: MSG_COMMAND_AMF0,
        msg_stream_id: stream_id,
        timestamp: 0,
        payload: command_bytes(name, transaction_id.bits, object, args),
    }
}

/// A data message.
pub open spec fn data_message(stream_id: u32, values: Seq<Amf0>) -> MessageView {
    MessageView {
        msg_type_id: MSG_DATA_AMF0,
        msg_stream_id: stream_id,
        timestamp: 0,
        payload: items_bytes(values),
    }
}

/// A data message that asks the server to keep a value for later subscribers.
pub open spec fn data_frame_message(stream_id: u32, handler: Seq<char>, value: Amf0) -> MessageView {
    data_message(stream_id, seq![Amf0::String("@setDataFrame"@), Amf0::String(handler), value])
}

/// A data message that takes such a value back.
pub open spec fn clear_frame_message(stream_id: u32, handler: Seq<char>) -> MessageView {
    data_message(stream_id, seq![Amf0::String("@clearDataFrame"@), Amf0::String(handler)])
}

/// Metadata as an AMF3 data message.
pub open spec fn amf3_metadata_payload(metadata: Amf3) -> Seq<u8> {
    seq![FORMAT_SELECTOR_AMF0, amf3::AVMPLUS_OBJECT_MARKER] + amf3::encode::encoded(
        Amf3::String("onMetaData"@),
    ) + seq![amf3::AVMPLUS_OBJECT_MARKER] + amf3::encode::encoded(metadata)
}

/// An H.264 tag.
pub open spec fn avc_tag(keyframe: bool, packet_type: u8, body: Seq<u8>) -> VideoView {
    VideoView {
        frame_type: if keyframe {
            VIDEO_FRAME_KEYFRAME
        } else {
            VIDEO_FRAME_INTER
        },
        codec_id: VIDEO_CODEC_AVC,
        avc_packet_type: Some(packet_type),
        composition_time: 0,
        body,
        ex_packet_type: None,
        fourcc: None,
        mod_ex: Seq::empty(),
        multitrack: None,
    }
}

/// An AAC tag.
pub open spec fn aac_tag(packet_type: u8, body: Seq<u8>) -> AudioView {
    AudioView {
        sound_format: AUDIO_FORMAT_AAC,
        sound_rate: 3,
        sound_size_16bit: true,
        stereo: true,
        aac_packet_type: Some(packet_type),
        ex_packet_type: None,
        audio_fourcc: None,
        body,
        mod_ex: Seq::empty(),
        multitrack: None,
    }
}

/// A message with one video tag.
pub open spec fn video_message(stream_id: u32, timestamp: u32, tag: VideoView) -> MessageView {
    MessageView {
        msg_type_id: MSG_VIDEO,
        msg_stream_id: stream_id,
        timestamp,
        payload: tag.encoded(),
    }
}

/// A message with one audio tag.
pub open spec fn audio_message(stream_id: u32, timestamp: u32, tag: AudioView) -> MessageView {
    MessageView {
        msg_type_id: MSG_AUDIO,
        msg_stream_id: stream_id,
        timestamp,
        payload: tag.encoded(),
    }
}

// ---------------------------------------------------------------------------
// The code
// ---------------------------------------------------------------------------

fn number_message(msg_type_id: u8, n: u32) -> (m: Message)
    ensures
        m@ == control_message(msg_type_id, be32_bytes(n)),
{
    let mut payload: Vec<u8> = Vec::new();
    put_be32(&mut payload, n);
    assert(payload@ =~= be32_bytes(n));
    Message { msg_type_id, msg_stream_id: 0, timestamp: 0, payload }
}

/// From now on chunks hold up to `size` bytes.
pub fn build_set_chunk_size(size: u32) -> (m: Message)
    ensures
        m@ == control_message(MSG_SET_CHUNK_SIZE, be32_bytes(size)),
{
    number_message(MSG_SET_CHUNK_SIZE, size)
}

/// So many bytes have come.
pub fn build_ack(sequence: u32) -> (m: Message)
    ensures
        m@ == control_message(MSG_ACK, be32_bytes(sequence)),
{
    number_message(MSG_ACK, sequence)
}

/// Acknowledge after so many bytes.
pub fn build_window_ack_size(size: u32) -> (m: Message)
    ensures
        m@ == control_message(MSG_WINDOW_ACK_SIZE, be32_bytes(size)),
{
    number_message(MSG_WINDOW_ACK_SIZE, size)
}

/// A ping that names a time.
pub fn build_user_control_ping_request(timestamp_ms: u32) -> (m: Message)
    ensures
        m@ == control_message(
            MSG_USER_CONTROL,
            be16_bytes(USR_PING_REQUEST) + be32_bytes(timestamp_ms),
        ),
{
    let mut payload: Vec<u8> = Vec::new();
    put_be16(&mut payload, USR_PING_REQUEST);
    put_be32(&mut payload, timestamp_ms);
    assert(payload@ =~= be16_bytes(USR_PING_REQUEST) + be32_bytes(timestamp_ms));
    Message { msg_type_id: MSG_USER_CONTROL, msg_stream_id: 0, timestamp: 0, payload }
}

/// A command on a message stream.
pub(crate) fn build_command(
    stream_id: u32,
    name: &str,
    transaction_id: Double,
    object: &Amf0Value,
    args: &[Amf0Value],
) -> (m: Message)
    ensures
        m@ == command_message(stream_id, name@, transaction_id, object@, views(args@)),
{
    Message {
        msg_type_id: MSG_COMMAND_AMF0,
        msg_stream_id: stream_id,
        timestamp: 0,
        payload: encode_command(name, transaction_id, object.clone(), args),
    }
}

/// The `connect` command. `properties` are those that the application states;
/// the capability block follows them.
pub fn build_connect_with_caps(
    transaction_id: Double,
    properties: Vec<(String, Amf0Value)>,
    caps: &ConnectCapabilities,
) -> (m: Message)
    ensures
        m@ == command_message(
            0,
            "connect"@,
            transaction_id,
            Amf0::Object(pair_views(properties@) + present(caps@.fields())),
            Seq::empty(),
        ),
{
    let mut pairs = properties;
    caps.encode_into(&mut pairs);
    let object = Amf0Value::Object(pairs);
    proof {
        lemma_container_views(object);
    }
    let none: Vec<Amf0Value> = Vec::new();
    assert(views(none@) =~= Seq::empty());
    build_command(0, "connect", transaction_id, &object, none.as_slice())
}

fn build_stream_command(name: &str, transaction_id: Double, stream_name: &str) -> (m: Message)
    ensures
        m@ == command_message(
            0,
            name@,
            transaction_id,
            Amf0::Null,
            seq![Amf0::String(stream_name@)],
        ),
{
    let mut args: Vec<Amf0Value> = Vec::new();
    args.push(Amf0Value::String(stream_name.to_owned()));
    assert(views(args@) =~= seq![Amf0::String(stream_name@)]);
    build_command(0, name, transaction_id, &Amf0Value::Null, args.as_slice())
}

/// The `releaseStream` command.
pub fn build_release_stream(transaction_id: Double, stream_name: &str) -> (m: Message)
    ensures
        m@ == command_message(
            0,
            "releaseStream"@,
            transaction_id,
            Amf0::Null,
            seq![Amf0::String(stream_name@)],
        ),
{
    build_stream_command("releaseStream", transaction_id, stream_name)
}

/// The `FCPublish` command.
pub fn build_fc_publish(transaction_id: Double, stream_name: &str) -> (m: Message)
    ensures
        m@ == command_message(
            0,
            "FCPublish"@,
            transaction_id,
            Amf0::Null,
            seq![Amf0::String(stream_name@)],
        ),
{
    build_stream_command("FCPublish", transaction_id, stream_name)
}

/// The `createStream` command.
pub fn build_create_stream(transaction_id: Double) -> (m: Message)
    ensures
        m@ == command_message(0, "createStream"@, transaction_id, Amf0::Null, Seq::empty()),
{
    let none: Vec<Amf0Value> = Vec::new();
    assert(views(none@) =~= Seq::empty());
    build_command(0, "createStream", transaction_id, &Amf0Value::Null, none.as_slice())
}

/// The `publish` command.
pub fn build_publish(
    transaction_id: Double,
    stream_id: u32,
    stream_name: &str,
    publish_type: &str,
) -> (m: Message)
    ensures
        m@ == command_message(
            stream_id,
            "publish"@,
            transaction_id,
            Amf0::Null,
            seq![Amf0::String(stream_name@), Amf0::String(publish_type@)],
        ),
{
    let mut args: Vec<Amf0Value> = Vec::new();
    args.push(Amf0Value::String(stream_name.to_owned()));
    args.push(Amf0Value::String(publish_type.to_owned()));
    assert(views(args@) =~= seq![Amf0::String(stream_name@), Amf0::String(publish_type@)]);
    build_command(stream_id, "publish", transaction_id, &Amf0Value::Null, args.as_slice())
}

/// A remote procedure call, or an answer to one.
pub(crate) fn build_call(
    name: &str,
    transaction_id: Double,
    object: &Amf0Value,
    args: &[Amf0Value],
) -> (m: Message)
    ensures
        m@ == command_message(0, name@, transaction_id, object@, views(args@)),
{
    build_command(0, name, transaction_id, object, args)
}

/// A data message that asks the server to keep a value.
pub fn build_set_data_frame_named(stream_id: u32, handler: &str, value: &Amf0Value) -> (m: Message)
    ensures
        m@ == data_frame_message(stream_id, handler@, value@),
{
    let mut payload: Vec<u8> = Vec::new();
    encode(&mut payload, &Amf0Value::String("@setDataFrame".to_owned()));
    encode(&mut payload, &Amf0Value::String(handler.to_owned()));
    encode(&mut payload, value);
    proof {
        let a = Amf0::String("@setDataFrame"@);
        let b = Amf0::String(handler@);
        let c = value@;
        let all = seq![a, b, c];
        let one = all.subrange(1, 3);
        let two = one.subrange(1, 2);
        assert(two.subrange(1, 1) =~= Seq::empty());
        assert(items_bytes(two.subrange(1, 1)) =~= Seq::empty());
        assert(items_bytes(two) =~= encoded(c));
        assert(items_bytes(one) =~= encoded(b) + encoded(c));
        assert(payload@ =~= items_bytes(all));
    }
    Message { msg_type_id: MSG_DATA_AMF0, msg_stream_id: stream_id, timestamp: 0, payload }
}

/// A data message that takes a kept value back.
pub fn build_clear_data_frame(stream_id: u32, handler: &str) -> (m: Message)
    ensures
        m@ == clear_frame_message(stream_id, handler@),
{
    let mut payload: Vec<u8> = Vec::new();
    encode(&mut payload, &Amf0Value::String("@clearDataFrame".to_owned()));
    encode(&mut payload, &Amf0Value::String(handler.to_owned()));
    proof {
        let a = Amf0::String("@clearDataFrame"@);
        let b = Amf0::String(handler@);
        let all = seq![a, b];
        let one = all.subrange(1, 2);
        assert(one.subrange(1, 1) =~= Seq::empty());
        assert(items_bytes(one.subrange(1, 1)) =~= Seq::empty());
        assert(items_bytes(one) =~= encoded(b));
        assert(payload@ =~= items_bytes(all));
    }
    Message { msg_type_id: MSG_DATA_AMF0, msg_stream_id: stream_id, timestamp: 0, payload }
}

/// Metadata as an AMF3 data message.
pub(crate) fn build_metadata_amf3(stream_id: u32, metadata: &amf3::Amf3Value) -> (m: Message)
    ensures
        m@ == (MessageView {
            msg_type_id: MSG_DATA_AMF3,
            msg_stream_id: stream_id,
            timestamp: 0,
            payload: amf3_metadata_payload(metadata@),
        }),
{
    let mut payload: Vec<u8> = Vec::new();
    payload.push(FORMAT_SELECTOR_AMF0);
    payload.push(amf3::AVMPLUS_OBJECT_MARKER);
    amf3::encode(&mut payload, &amf3::Amf3Value::String("onMetaData".to_owned()));
    payload.push(amf3::AVMPLUS_OBJECT_MARKER);
    amf3::encode(&mut payload, metadata);
    assert(payload@ =~= amf3_metadata_payload(metadata@));
    Message { msg_type_id: MSG_DATA_AMF3, msg_stream_id: stream_id, timestamp: 0, payload }
}

/// A message with one H.264 tag.
pub(crate) fn build_avc(
    stream_id: u32,
    timestamp: u32,
    keyframe: bool,
    packet_type: u8,
    body: &[u8],
) -> (m: Message)
    ensures
        m@ == video_message(stream_id, timestamp, avc_tag(keyframe, packet_type, body@)),
{
    let mod_ex: Vec<ModEx> = Vec::new();
    assert(views(mod_ex@) =~= Seq::<ModExView>::empty());
    let tag = VideoTag {
        frame_type: if keyframe {
            VIDEO_FRAME_KEYFRAME
        } else {
            VIDEO_FRAME_INTER
        },
        codec_id: VIDEO_CODEC_AVC,
        avc_packet_type: Some(packet_type),
        composition_time: 0,
        body: vstd::slice::slice_to_vec(body),
        ex_packet_type: None,
        fourcc: None,
        mod_ex,
        multitrack: None,
    };
    assert(tag@ == avc_tag(keyframe, packet_type, body@));
    Message {
        msg_type_id: MSG_VIDEO,
        msg_stream_id: stream_id,
        timestamp,
        payload: build_video(&tag),
    }
}

/// A message with one AAC tag.
pub(crate) fn build_aac(stream_id: u32, timestamp: u32, packet_type: u8, body: &[u8]) -> (m: Message)
    ensures
        m@ == audio_message(stream_id, timestamp, aac_tag(packet_type, body@)),
{
    let mod_ex: Vec<ModEx> = Vec::new();
    assert(views(mod_ex@) =~= Seq::<ModExView>::empty());
    let tag = AudioTag {
        sound_format: AUDIO_FORMAT_AAC,
        sound_rate: 3,
        sound_size_16bit: true,
        stereo: true,
        aac_packet_type: Some(packet_type),
        ex_packet_type: None,
        audio_fourcc: None,
        body: vstd::slice::slice_to_vec(body),
        mod_ex,
        multitrack: None,
    };
    assert(tag@ == aac_tag(packet_type, body@));
    Message {
        msg_type_id: MSG_AUDIO,
        msg_stream_id: stream_id,
        timestamp,
        payload: build_audio(&tag),
    }
}

// ---------------------------------------------------------------------------
// Laws
// ---------------------------------------------------------------------------

/// Behind the selector, metadata in AMF3 reads as AMF0: first the name of the handler,
/// then the AMF0 form of the metadata, whatever the text of a double is. Dictionaries
/// with a double for a key are left out, as is metadata that does not come back in AMF3.
pub proof fn law_amf3_metadata_reads_as_amf0(metadata: Amf3, text: spec_fn(u64) -> Seq<char>)
    requires
        amf3::laws::fits(metadata, 64, Seq::empty()),
        plain_keys(metadata),
        amf3_metadata_payload(metadata).len() <= usize::MAX,
    ensures
        amf3_metadata_payload(metadata)[0] == FORMAT_SELECTOR_AMF0,
        values_of(from(amf3_metadata_payload(metadata), 1)) == Ok::<Seq<Amf0>, Fault>(
            seq![Amf0::String("onMetaData"@), bridged(metadata, text)],
        ),
{
    let name = Amf3::String("onMetaData"@);
    let switch = seq![amf3::AVMPLUS_OBJECT_MARKER];
    let first = amf3::encode::encoded(name);
    let second = amf3::encode::encoded(metadata);
    let s = from(amf3_metadata_payload(metadata), 1);
    let front = switch + first;
    assert(s =~= Seq::<u8>::empty() + switch + first + (switch + second));
    assert(s =~= front + switch + second + Seq::<u8>::empty());
    lemma_handler_fits();
    law_switched_value_reads_as_amf0(Seq::empty(), name, switch + second, 0, Seq::empty());
    law_switched_value_reads_as_amf0(front, metadata, Seq::empty(), 0, Seq::empty());
    law_plain_keys_need_no_text(metadata, text, no_text());
    lemma_two_values(
        s,
        front.len() as int,
        Amf0::String("onMetaData"@),
        bridged(metadata, text),
    );
}

proof fn lemma_two_values(s: Seq<u8>, middle: int, one: Amf0, two: Amf0)
    requires
        0 < middle < s.len(),
        decode_at(s, 0, 0, Seq::empty(), None) == Ok::<Decoded, Failure>(
            Decoded { value: one, pos: middle, refs: Seq::empty() },
        ),
        decode_at(s, middle, 0, Seq::empty(), None) == Ok::<Decoded, Failure>(
            Decoded { value: two, pos: s.len() as int, refs: Seq::empty() },
        ),
    ensures
        values_of(s) == Ok::<Seq<Amf0>, Fault>(seq![one, two]),
{
    let none = Seq::<Amf0>::empty();
    assert(values_at(s, s.len() as int, none, None)->Ok_0.items == none);
    assert(seq![two] + none =~= seq![two]);
    assert(values_at(s, middle, none, None)->Ok_0.items == seq![two]);
    assert(seq![one] + seq![two] =~= seq![one, two]);
}

proof fn lemma_handler_fits()
    ensures
        amf3::laws::fits(Amf3::String("onMetaData"@), 64, Seq::empty()),
{
    reveal_strlit("onMetaData");
    vstd::utf8::is_ascii_chars_encode_utf8("onMetaData"@);
}

} // verus!
