//! What packets and streams say of the tags they come from.

use vstd::prelude::*;
#[allow(unused_imports)]
use oxideav_core::{CodecId, CodecParameters, MediaType, Packet, TimeBase};
#[allow(unused_imports)]
use crate::adapter::codec::{
    audio_codec_id, audio_codec_id_for_tag, audio_codec_params, audio_fourcc_codec_id, video_codec_id,
    video_codec_id_for_tag, video_codec_params, video_fourcc_codec_id,
};
#[allow(unused_imports)]
use crate::adapter::codec::{
    audio_codec_name, audio_fourcc_name, audio_params, audio_tag_codec, video_codec_name,
    video_fourcc_name, video_params, video_tag_codec,
};
#[allow(unused_imports)]
use crate::adapter::core_types::{
    bare_params, params_view, time_base_view, PacketView, ParamsView, StreamView,
};
#[allow(unused_imports)]
use crate::adapter::feed::{
    answer, event_fits, flattened, fresh_feed, has_stream, is_pause, observed, polled, probed,
    scalar_pairs, scalar_text, scalars_of, wants, EventView, FeedStepView, FeedView, ProbeView,
    PROBE_LIMIT,
};
#[allow(unused_imports)]
use crate::adapter::feed::{ends_probe, FeedStep, MediaSourceEvent, PacketFeed, Probe};
#[allow(unused_imports)]
use crate::adapter::packet::{
    audio_times_fit, audio_to_packet, rtmp_time_base, video_times_fit, video_to_packet,
};
#[allow(unused_imports)]
use crate::adapter::packet::{audio_fits, audio_packet, video_fits, video_packet};
#[allow(unused_imports)]
use crate::adapter::timeline::{placed, TimestampUnwrapper};
#[allow(unused_imports)]
use crate::amf::Amf0;
#[allow(unused_imports)]
use crate::error::{Error, Fault, IoErrorKind};
#[allow(unused_imports)]
use crate::flv::audio::AudioView;
#[allow(unused_imports)]
use crate::flv::format::law_fourccs;
#[allow(unused_imports)]
use crate::flv::mod_ex::nano_total;
#[allow(unused_imports)]
use crate::flv::{AudioTag, VideoTag};
#[allow(unused_imports)]
use crate::model::views;
#[allow(unused_imports)]
use crate::flv::video::VideoView;

verus! {

// ---------------------------------------------------------------------------
// Times
// ---------------------------------------------------------------------------

/// A video packet is decoded at the timestamp of its message. It is presented later
/// by the composition time of the tag, in milliseconds and with its sign, and by the
/// nanosecond offsets of the tag, whatever kind of frame it holds. This is so for
/// H.264 and for every codec that has a FourCC; a tag of any other codec is presented
/// when it is decoded but for its nanosecond offsets.
pub proof fn law_presentation_follows_decoding(timestamp_ms: int, t: VideoView)
    requires
        -9_000_000_000_000 <= timestamp_ms <= 9_000_000_000_000,
    ensures
        ({
            let p = video_packet(timestamp_ms, t);
            &&& p.dts matches Some(dts) && dts == timestamp_ms * 1_000_000
            &&& t.codec_id == 7 || t.fourcc is Some ==> (p.pts matches Some(pts) && pts
                - timestamp_ms * 1_000_000 == t.composition_time * 1_000_000 + nano_total(
                t.mod_ex,
            ))
            &&& t.codec_id != 7 && t.fourcc is None ==> (p.pts matches Some(pts) && pts
                - timestamp_ms * 1_000_000 == nano_total(t.mod_ex))
        }),
{
}

/// The times of a tag have a place on the timeline just where each of them is a
/// number of 64 bits: the timestamp, with the composition time where the codec has
/// one, and with the nanosecond offsets, all in nanoseconds.
pub proof fn law_times_that_fit(timestamp_ms: int, v: VideoView, a: AudioView)
    ensures
        ({
            let base = timestamp_ms * 1_000_000;
            let late = if v.codec_id == 7 || v.fourcc is Some {
                base + v.composition_time * 1_000_000
            } else {
                base
            };
            let last = late + nano_total(v.mod_ex);
            &&& video_fits(timestamp_ms, v) <==> -0x8000_0000_0000_0000 <= base
                <= 0x7FFF_FFFF_FFFF_FFFF && -0x8000_0000_0000_0000 <= late
                <= 0x7FFF_FFFF_FFFF_FFFF && -0x8000_0000_0000_0000 <= last
                <= 0x7FFF_FFFF_FFFF_FFFF
            &&& video_fits(timestamp_ms, v) ==> video_packet(timestamp_ms, v).pts == Some(
                last as i64,
            ) && video_packet(timestamp_ms, v).dts == Some(base as i64)
        }),
        ({
            let base = timestamp_ms * 1_000_000;
            let last = base + nano_total(a.mod_ex);
            &&& audio_fits(timestamp_ms, a) <==> -0x8000_0000_0000_0000 <= base
                <= 0x7FFF_FFFF_FFFF_FFFF && -0x8000_0000_0000_0000 <= last
                <= 0x7FFF_FFFF_FFFF_FFFF
            &&& audio_fits(timestamp_ms, a) ==> audio_packet(timestamp_ms, a).pts == Some(
                last as i64,
            ) && audio_packet(timestamp_ms, a).dts == Some(last as i64)
        }),
{
}

/// Timestamps of 32 bits are laid out by the shorter way from the one before: forward
/// where that is less than half the way round, else back. The first one lies at its
/// own value.
pub proof fn law_timestamps_are_laid_out(prev: u32, place: i64, raw: u32)
    ensures
        placed(None, raw) == raw,
        ({
            let next = placed(Some((prev, place)), raw);
            &&& 0 <= raw - prev < 0x8000_0000 ==> next == place + (raw - prev)
            &&& raw - prev >= 0x8000_0000 ==> next == place + (raw - prev) - 0x1_0000_0000
            &&& -0x8000_0000 <= raw - prev < 0 ==> next == place + (raw - prev)
            &&& raw - prev < -0x8000_0000 ==> next == place + (raw - prev) + 0x1_0000_0000
        }),
{
}

// ---------------------------------------------------------------------------
// Packets
// ---------------------------------------------------------------------------

/// A video packet belongs to stream 1, counts nanoseconds, and holds the body of the
/// tag. It is a keyframe where the frame type is 1 or 4, unless it is metadata (packet
/// type 4 under a FourCC); it is a header where it is metadata, the configuration of
/// H.264 (packet type 0) or that of a FourCC (packet type 0).
pub proof fn law_video_packet_of_a_tag(timestamp_ms: int, t: VideoView)
    ensures
        ({
            let p = video_packet(timestamp_ms, t);
            let metadata = t.fourcc is Some && t.ex_packet_type == Some(4u8);
            &&& p.stream_index == 1
            &&& p.time_base == (1i64, 1_000_000_000i64)
            &&& p.duration is None
            &&& p.data == t.body
            &&& p.keyframe <==> (t.frame_type == 1 || t.frame_type == 4) && !metadata
            &&& p.header <==> metadata || (t.codec_id == 7 && t.avc_packet_type == Some(0u8)) || (
            t.fourcc is Some && t.ex_packet_type == Some(0u8))
            &&& !p.corrupt && !p.discard && !p.unit_boundary
        }),
{
}

/// An audio packet belongs to stream 0, counts nanoseconds, and is never a keyframe.
/// It holds the body of the tag. For AAC without a FourCC a byte stands before it: the
/// packet type, or 1 where there is none. It is a header where it is the configuration
/// of AAC (packet type 0), or under a FourCC the start or the end of a sequence (packet
/// types 0 and 2).
pub proof fn law_audio_packet_of_a_tag(timestamp_ms: int, t: AudioView)
    ensures
        ({
            let p = audio_packet(timestamp_ms, t);
            let plain_aac = t.audio_fourcc is None && t.sound_format == 10;
            &&& p.stream_index == 0
            &&& p.time_base == (1i64, 1_000_000_000i64)
            &&& p.duration is None
            &&& plain_aac && t.aac_packet_type is Some ==> p.data == seq![t.aac_packet_type->0]
                + t.body
            &&& plain_aac && t.aac_packet_type is None ==> p.data == seq![1u8] + t.body
            &&& !plain_aac ==> p.data == t.body
            &&& !p.keyframe
            &&& p.header <==> (plain_aac && t.aac_packet_type == Some(0u8)) || (
            t.audio_fourcc is Some && (t.ex_packet_type == Some(0u8) || t.ex_packet_type == Some(
                2u8,
            )))
            &&& !p.corrupt && !p.discard && !p.unit_boundary
        }),
{
}

// ---------------------------------------------------------------------------
// Codecs
// ---------------------------------------------------------------------------

/// The codec of each sound format and of each video codec id.
pub proof fn law_codec_names(id: u8)
    ensures
        id == 0 ==> audio_codec_name(id) == "pcm_s16le"@,
        id == 1 ==> audio_codec_name(id) == "adpcm_swf"@,
        id == 2 ==> audio_codec_name(id) == "mp3"@,
        id == 3 ==> audio_codec_name(id) == "pcm_u8"@,
        4 <= id <= 6 ==> audio_codec_name(id) == "nellymoser"@,
        id == 7 ==> audio_codec_name(id) == "pcm_alaw"@,
        id == 8 ==> audio_codec_name(id) == "pcm_mulaw"@,
        id == 10 ==> audio_codec_name(id) == "aac"@,
        id == 11 ==> audio_codec_name(id) == "speex"@,
        id == 9 || id > 11 ==> audio_codec_name(id) == "unknown"@,
        id == 2 ==> video_codec_name(id) == "h263"@,
        id == 3 ==> video_codec_name(id) == "flashsv"@,
        id == 4 ==> video_codec_name(id) == "vp6f"@,
        id == 5 ==> video_codec_name(id) == "vp6a"@,
        id == 6 ==> video_codec_name(id) == "flashsv2"@,
        id == 7 ==> video_codec_name(id) == "h264"@,
        id < 2 || id > 7 ==> video_codec_name(id) == "unknown"@,
{
}

/// The four bytes of a FourCC as one number, the first byte in front.
pub open spec fn fourcc_number(f: Seq<u8>) -> int {
    f[0] * 0x100_0000 + f[1] * 0x1_0000 + f[2] * 0x100 + f[3]
}

proof fn lemma_same_fourcc(f: Seq<u8>, g: Seq<u8>)
    requires
        f.len() == 4,
        g.len() == 4,
    ensures
        f == g <==> fourcc_number(f) == fourcc_number(g),
{
    if fourcc_number(f) == fourcc_number(g) {
        assert(f =~= g);
    }
}

/// The codec of each FourCC: `Opus`, `fLaC`, `ac-3`, `ec-3`, `.mp3` and `mp4a` for
/// sound; `av01`, `vp09`, `hvc1`, `vp08`, `avc1` and `vvc1` for pictures.
pub proof fn law_fourcc_names(f: Seq<u8>)
    requires
        f.len() == 4,
    ensures
        ({
            let n = fourcc_number(f);
            let a = audio_fourcc_name(f);
            let v = video_fourcc_name(f);
            &&& n == 0x4F70_7573 ==> a == "opus"@
            &&& n == 0x664C_6143 ==> a == "flac"@
            &&& n == 0x6163_2D33 ==> a == "ac3"@
            &&& n == 0x6563_2D33 ==> a == "eac3"@
            &&& n == 0x2E6D_7033 ==> a == "mp3"@
            &&& n == 0x6D70_3461 ==> a == "aac"@
            &&& n != 0x4F70_7573 && n != 0x664C_6143 && n != 0x6163_2D33 && n != 0x6563_2D33 && n
                != 0x2E6D_7033 && n != 0x6D70_3461 ==> a == "unknown"@
            &&& n == 0x6176_3031 ==> v == "av1"@
            &&& n == 0x7670_3039 ==> v == "vp9"@
            &&& n == 0x6876_6331 ==> v == "hevc"@
            &&& n == 0x7670_3038 ==> v == "vp8"@
            &&& n == 0x6176_6331 ==> v == "h264"@
            &&& n == 0x7676_6331 ==> v == "vvc"@
            &&& n != 0x6176_3031 && n != 0x7670_3039 && n != 0x6876_6331 && n != 0x7670_3038 && n
                != 0x6176_6331 && n != 0x7676_6331 ==> v == "unknown"@
        }),
{
    law_fourccs();
    lemma_same_fourcc(f, crate::flv::FOURCC_OPUS@);
    lemma_same_fourcc(f, crate::flv::FOURCC_FLAC@);
    lemma_same_fourcc(f, crate::flv::FOURCC_AC3@);
    lemma_same_fourcc(f, crate::flv::FOURCC_EAC3@);
    lemma_same_fourcc(f, crate::flv::FOURCC_MP3@);
    lemma_same_fourcc(f, crate::flv::FOURCC_AAC@);
    lemma_same_fourcc(f, crate::flv::FOURCC_AV1@);
    lemma_same_fourcc(f, crate::flv::FOURCC_VP9@);
    lemma_same_fourcc(f, crate::flv::FOURCC_HEVC@);
    lemma_same_fourcc(f, crate::flv::FOURCC_VP8@);
    lemma_same_fourcc(f, crate::flv::FOURCC_AVC@);
    lemma_same_fourcc(f, crate::flv::FOURCC_VVC@);
}

/// The parameters of a stream name the codec of the tag: by its FourCC if it has one.
/// They hold the body of a tag that is a configuration. Rate and channels are taken
/// from the tag only where it has no FourCC and its sound format is not AAC. Nothing
/// else is said.
pub proof fn law_stream_parameters(a: AudioView, v: VideoView)
    ensures
        ({
            let p = audio_params(a);
            let told = a.audio_fourcc is None && a.sound_format != 10;
            let config = (a.audio_fourcc is Some && a.ex_packet_type == Some(0u8)) || (
            a.audio_fourcc is None && a.sound_format == 10 && a.aac_packet_type == Some(0u8));
            &&& p.codec == (match a.audio_fourcc {
                Some(f) => audio_fourcc_name(f),
                None => audio_codec_name(a.sound_format),
            })
            &&& p.media_type == MediaType::Audio
            &&& !told ==> p.sample_rate is None && p.channels is None
            &&& told && a.sound_rate == 0 ==> p.sample_rate == Some(5512u32)
            &&& told && a.sound_rate == 1 ==> p.sample_rate == Some(11025u32)
            &&& told && a.sound_rate == 2 ==> p.sample_rate == Some(22050u32)
            &&& told && a.sound_rate >= 3 ==> p.sample_rate == Some(44100u32)
            &&& told && a.stereo ==> p.channels == Some(2u16)
            &&& told && !a.stereo ==> p.channels == Some(1u16)
            &&& config ==> p.extradata == a.body
            &&& !config ==> p.extradata.len() == 0
        }),
        ({
            let p = video_params(v);
            let config = (v.codec_id == 7 && v.avc_packet_type == Some(0u8)) || (v.fourcc is Some
                && v.ex_packet_type == Some(0u8));
            &&& p.codec == (match v.fourcc {
                Some(f) => video_fourcc_name(f),
                None => video_codec_name(v.codec_id),
            })
            &&& p.media_type == MediaType::Video
            &&& p.sample_rate is None && p.channels is None
            &&& config ==> p.extradata == v.body
            &&& !config ==> p.extradata.len() == 0
            &&& p.width is None && p.height is None && p.frame_rate is None && p.bit_rate is None
        }),
{
}

// ---------------------------------------------------------------------------
// Feeds
// ---------------------------------------------------------------------------

/// A tag gives its packet, at the place of its timestamp, and its stream where there
/// was none of its index yet; the streams that were there stay as they are. Metadata
/// is added behind what there was. The end is kept in mind. Nothing else changes.
pub proof fn law_feed_takes_events(
    v: FeedView,
    timestamp: u32,
    a: AudioView,
    t: VideoView,
    pairs: Seq<(Seq<char>, Seq<char>)>,
)
    requires
        i64::MIN <= placed(v.last, timestamp) <= i64::MAX,
    ensures
        ({
            let (w, p) = observed(v, EventView::Audio { timestamp, tag: a });
            &&& p == Some(audio_packet(placed(v.last, timestamp), a))
            &&& w.metadata == v.metadata && w.buffered == v.buffered && w.ended == v.ended
            &&& w.last matches Some((raw, place)) && raw == timestamp && place == placed(
                v.last,
                timestamp,
            )
            &&& has_stream(v.streams, 0) ==> w.streams == v.streams
        }),
        ({
            let (w, p) = observed(v, EventView::Video { timestamp, tag: t });
            &&& p == Some(video_packet(placed(v.last, timestamp), t))
            &&& w.metadata == v.metadata && w.buffered == v.buffered && w.ended == v.ended
            &&& w.last matches Some((raw, place)) && raw == timestamp && place == placed(
                v.last,
                timestamp,
            )
            &&& has_stream(v.streams, 1) ==> w.streams == v.streams
        }),
        observed(v, EventView::Metadata(pairs)) == (
            (FeedView { metadata: v.metadata + pairs, ..v }),
            None::<PacketView>,
        ),
        observed(v, EventView::Skip) == (v, None::<PacketView>),
        observed(v, EventView::End) == ((FeedView { ended: true, ..v }), None::<PacketView>),
{
}

/// Sound comes first: the first audio tag puts stream 0 in front of the streams there
/// are, and the first video tag puts stream 1 behind stream 0. A new stream counts
/// nanoseconds from no set start and has the parameters of its first tag.
pub proof fn law_streams_of_a_feed(v: FeedView, timestamp: u32, a: AudioView, t: VideoView)
    ensures
        ({
            let sound = StreamView {
                index: 0,
                time_base: (1i64, 1_000_000_000i64),
                duration: None,
                start_time: None,
                params: audio_params(a),
            };
            let picture = StreamView {
                index: 1,
                time_base: (1i64, 1_000_000_000i64),
                duration: None,
                start_time: None,
                params: video_params(t),
            };
            let heard = observed(v, EventView::Audio { timestamp, tag: a }).0.streams;
            let seen = observed(v, EventView::Video { timestamp, tag: t }).0.streams;
            &&& v.streams.len() == 0 ==> heard == seq![sound] && seen == seq![picture]
            &&& v.streams.len() == 1 && v.streams[0].index == 1 ==> heard == seq![
                sound,
                v.streams[0],
            ] && seen == v.streams
            &&& v.streams.len() == 1 && v.streams[0].index == 0 ==> seen == seq![
                v.streams[0],
                picture,
            ] && heard == v.streams
            &&& v.streams.len() == 2 && v.streams[0].index == 0 && v.streams[1].index == 1
                ==> heard == v.streams && seen == v.streams
        }),
{
    let s = v.streams;
    if s.len() == 1 {
        assert(s.subrange(1, 1) =~= Seq::empty());
        assert(has_stream(s, s[0].index));
        reveal_with_fuel(crate::adapter::feed::place_of, 3);
        let heard = observed(v, EventView::Audio { timestamp, tag: a }).0.streams;
        let seen = observed(v, EventView::Video { timestamp, tag: t }).0.streams;
        if s[0].index == 1 {
            assert(heard =~= seq![heard[0], s[0]]);
        }
        if s[0].index == 0 {
            assert(seen =~= seq![s[0], seen[1]]);
        }
    }
    if s.len() == 2 {
        assert(has_stream(s, s[0].index));
        assert(has_stream(s, s[1].index));
    }
}

/// To a tag a feed answers with its packet, to the end with the end, and to anything
/// else that it needs another event.
pub proof fn law_feed_answers(e: EventView, p: PacketView)
    ensures
        e is Audio || e is Video ==> answer(e, Some(p)) == FeedStepView::Packet(p),
        e is End ==> answer(e, None) is Eof,
        e is Skip || e is Metadata ==> answer(e, None) is NeedEvent,
{
}

/// A feed starts with nothing, and it says by itself what was kept back, the first
/// packet first; then that it has ended, where it has, or that it needs an event.
pub proof fn law_feed_says_what_it_kept(v: FeedView, p: PacketView, rest: Seq<PacketView>)
    ensures
        v.buffered == seq![p] + rest ==> polled(v) == (
            FeedStepView::Packet(p),
            FeedView { buffered: rest, ..v },
        ),
        v.buffered.len() == 0 && v.ended ==> polled(v) == (FeedStepView::Eof, v),
        v.buffered.len() == 0 && !v.ended ==> polled(v) == (FeedStepView::NeedEvent, v),
        fresh_feed().streams.len() == 0 && fresh_feed().metadata.len() == 0
            && fresh_feed().buffered.len() == 0 && !fresh_feed().ended && fresh_feed().last is None,
{
    if v.buffered == seq![p] + rest {
        assert(v.buffered.subrange(1, v.buffered.len() as int) =~= rest);
    }
}

/// A probe looks at no more than 32 events, and stops when it has seen both sound and
/// pictures or the end. It keeps back the packet of each event, behind those it has.
pub proof fn law_probe_looks_for_both_streams(p: ProbeView, e: EventView)
    ensures
        PROBE_LIMIT == 32,
        wants(p) <==> p.left > 0 && !p.feed.ended && (!has_stream(p.feed.streams, 0)
            || !has_stream(p.feed.streams, 1)),
        p.left > 0 ==> probed(p, e).left == p.left - 1,
        probed(p, e).feed.buffered == (match observed(p.feed, e).1 {
            Some(x) => p.feed.buffered.push(x),
            None => p.feed.buffered,
        }),
        probed(p, e).feed.streams == observed(p.feed, e).0.streams,
        probed(p, e).feed.metadata == observed(p.feed, e).0.metadata,
        probed(p, e).feed.ended == observed(p.feed, e).0.ended,
        probed(p, e).feed.last == observed(p.feed, e).0.last,
{
}

/// Only a transport that had nothing in time ends a probe without an error.
pub proof fn law_only_a_pause_ends_a_probe(kind: IoErrorKind, m: Seq<char>, e: Fault)
    ensures
        is_pause(Fault::Io(kind, m)) <==> kind is WouldBlock || kind is TimedOut,
        !(e is Io) ==> !is_pause(e),
{
}

/// Numbers, truth values and strings of an object are kept under their names and in
/// their order, and nothing else is. An ECMA array gives what an object gives, and any
/// other value nothing.
pub proof fn law_metadata_keeps_scalars(
    pairs: Seq<(Seq<char>, Amf0)>,
    x: (Seq<char>, Amf0),
    text: spec_fn(u64) -> Seq<char>,
    v: Amf0,
)
    ensures
        ({
            let before = flattened(Amf0::Object(pairs), text);
            let after = flattened(Amf0::Object(pairs.push(x)), text);
            match x.1 {
                Amf0::Number(bits) => after == before.push((x.0, text(bits))),
                Amf0::Boolean(b) => after == before.push(
                    (
                        x.0,
                        if b {
                            "true"@
                        } else {
                            "false"@
                        },
                    ),
                ),
                Amf0::String(s) => after == before.push((x.0, s)),
                _ => after == before,
            }
        }),
        ({
            let before = scalars_of(Amf0::Object(pairs));
            let after = scalars_of(Amf0::Object(pairs.push(x)));
            if x.1 is Number || x.1 is Boolean || x.1 is String {
                after == before.push(x)
            } else {
                after == before
            }
        }),
        flattened(Amf0::EcmaArray(pairs), text) == flattened(Amf0::Object(pairs), text),
        scalars_of(Amf0::EcmaArray(pairs)) == scalars_of(Amf0::Object(pairs)),
        flattened(Amf0::Object(Seq::empty()), text).len() == 0,
        scalars_of(Amf0::Object(Seq::empty())).len() == 0,
        !(v is Object) && !(v is EcmaArray) ==> flattened(v, text).len() == 0 && scalars_of(
            v,
        ).len() == 0,
{
    assert(pairs.push(x).drop_last() =~= pairs);
}

/// An event fits where its tag does, at the place of its timestamp; one that is no
/// tag always fits.
pub proof fn law_events_that_fit(
    last: Option<(u32, i64)>,
    timestamp: u32,
    a: AudioView,
    v: VideoView,
    e: EventView,
)
    ensures
        ({
            let place = placed(last, timestamp);
            &&& event_fits(last, EventView::Audio { timestamp, tag: a }) <==> i64::MIN <= place
                <= i64::MAX && audio_fits(place, a)
            &&& event_fits(last, EventView::Video { timestamp, tag: v }) <==> i64::MIN <= place
                <= i64::MAX && video_fits(place, v)
        }),
        e is Metadata || e is Skip || e is End ==> event_fits(last, e),
{
}

// ---------------------------------------------------------------------------
// Operations
// ---------------------------------------------------------------------------

/// The packet of a video tag is decoded at the timestamp and presented later by the
/// composition time, whatever the frame type and whatever the sign, and by the nanosecond
/// offsets. This is so for H.264 and for any tag with a FourCC; a tag of another codec has
/// no composition time.
pub proof fn law_video_packet_times(timestamp_ms: i64, tag: &VideoTag, p: Packet)
    requires
        call_ensures(video_to_packet, (timestamp_ms, tag), p),
        video_fits(timestamp_ms as int, tag@),
    ensures
        p.dts matches Some(dts) && dts == timestamp_ms * 1_000_000,
        tag.codec_id == 7 || tag.fourcc is Some ==> (p.pts matches Some(pts) && pts - timestamp_ms
            * 1_000_000 == tag.composition_time * 1_000_000 + nano_total(views(tag.mod_ex@))),
        tag.codec_id != 7 && tag.fourcc is None ==> (p.pts matches Some(pts) && pts - timestamp_ms
            * 1_000_000 == nano_total(views(tag.mod_ex@))),
        p.stream_index == 1,
        p.data@ == tag.body@,
        p.duration is None,
        p.flags.keyframe <==> (tag.frame_type == 1 || tag.frame_type == 4) && !(tag.fourcc is Some
            && tag.ex_packet_type == Some(4u8)),
{
}

/// The packet of an audio tag is decoded and presented at the timestamp and its
/// nanosecond offsets.
pub proof fn law_audio_packet_times(timestamp_ms: i64, tag: &AudioTag, p: Packet)
    requires
        call_ensures(audio_to_packet, (timestamp_ms, tag), p),
        audio_fits(timestamp_ms as int, tag@),
    ensures
        p.dts matches Some(dts) && dts == timestamp_ms * 1_000_000 + nano_total(
            views(tag.mod_ex@),
        ),
        p.pts == p.dts,
        p.stream_index == 0,
        p.duration is None,
        !p.flags.keyframe,
{
}

/// Whether the times of a tag fit is told as is said here, and timestamps are laid out
/// so.
pub proof fn law_times_are_told(
    timestamp_ms: i64,
    a: &AudioTag,
    v: &VideoTag,
    heard: bool,
    seen: bool,
    u: &mut TimestampUnwrapper,
    raw: u32,
    place: i64,
)
    requires
        call_ensures(audio_times_fit, (timestamp_ms, a), heard),
        call_ensures(video_times_fit, (timestamp_ms, v), seen),
        call_ensures(TimestampUnwrapper::unwrap_ms, (u, raw), place),
    ensures
        heard == audio_fits(timestamp_ms as int, a@),
        seen == video_fits(timestamp_ms as int, v@),
        place == placed(old(u)@, raw),
        final(u)@ == Some((raw, place)),
{
}

/// A tag names its codec, and its stream has the parameters that are said here.
pub proof fn law_tags_name_their_codec(
    a: &AudioTag,
    v: &VideoTag,
    i: CodecId,
    j: CodecId,
    p: CodecParameters,
    q: CodecParameters,
)
    requires
        call_ensures(audio_codec_id_for_tag, (a,), i),
        call_ensures(video_codec_id_for_tag, (v,), j),
        call_ensures(audio_codec_params, (a,), p),
        call_ensures(video_codec_params, (v,), q),
    ensures
        a.audio_fourcc matches Some(f) ==> i.0@ == audio_fourcc_name(f@),
        a.audio_fourcc is None ==> i.0@ == audio_codec_name(a.sound_format),
        v.fourcc matches Some(f) ==> j.0@ == video_fourcc_name(f@),
        v.fourcc is None ==> j.0@ == video_codec_name(v.codec_id),
        params_view(p) == audio_params(a@),
        params_view(q) == video_params(v@),
{
}

/// A feed and a probe take events as is said here.
pub proof fn law_events_are_taken(
    f: &mut PacketFeed,
    e: MediaSourceEvent,
    step: FeedStep,
    g: &mut PacketFeed,
    said: FeedStep,
    p: &mut Probe,
    fresh: Probe,
    q: &Probe,
    more: bool,
)
    requires
        call_ensures(PacketFeed::on_event, (f, e), step),
        call_ensures(PacketFeed::poll, (g,), said),
        call_ensures(Probe::on_event, (p, e), ()),
        call_ensures(Probe::new, (), fresh),
        call_ensures(Probe::wants_more, (q,), more),
    ensures
        final(f)@ == observed(old(f)@, e@).0,
        step@ == answer(e@, observed(old(f)@, e@).1),
        (said@, final(g)@) == polled(old(g)@),
        final(p)@ == probed(old(p)@, e@),
        fresh@.left == 32,
        fresh@.feed == fresh_feed(),
        more == wants(q@),
{
}

/// Codecs go by their numbers and their FourCCs.
pub proof fn law_codecs_go_by_number(
    id: u8,
    fourcc: [u8; 4],
    a: CodecId,
    b: CodecId,
    c: CodecId,
    d: CodecId,
)
    requires
        call_ensures(audio_codec_id, (id,), a),
        call_ensures(video_codec_id, (id,), b),
        call_ensures(audio_fourcc_codec_id, (fourcc,), c),
        call_ensures(video_fourcc_codec_id, (fourcc,), d),
    ensures
        a.0@ == audio_codec_name(id),
        b.0@ == video_codec_name(id),
        c.0@ == audio_fourcc_name(fourcc@),
        d.0@ == video_fourcc_name(fourcc@),
{
}

/// A feed tells what it has kept and what it can take, and a probe ends on a pause.
pub proof fn law_feeds_tell(
    f: &PacketFeed,
    p: &Probe,
    q: Probe,
    event: &MediaSourceEvent,
    e: &Error,
    ended: bool,
    takes: bool,
    takes_too: bool,
    pause: bool,
    left: PacketFeed,
)
    requires
        call_ensures(PacketFeed::ended, (f,), ended),
        call_ensures(PacketFeed::accepts, (f, event), takes),
        call_ensures(Probe::accepts, (p, event), takes_too),
        call_ensures(ends_probe, (e,), pause),
        call_ensures(Probe::finish, (q,), left),
    ensures
        ended == f@.ended,
        takes == event_fits(f@.last, event@),
        takes_too == event_fits(p@.feed.last, event@),
        pause == is_pause(e@),
        left@ == q@.feed,
{
}

/// Times are counted in nanoseconds, and a place on the timeline is told without taking it,
/// unless it does not fit.
pub proof fn law_places_are_told(
    t: TimeBase,
    u: &TimestampUnwrapper,
    raw: u32,
    r: Option<i64>,
)
    requires
        call_ensures(rtmp_time_base, (), t),
        call_ensures(TimestampUnwrapper::peek_ms, (u, raw), r),
    ensures
        time_base_view(t) == (1i64, 1_000_000_000i64),
        r is Some <==> i64::MIN <= placed(u@, raw) <= i64::MAX,
        r matches Some(place) ==> place == placed(u@, raw),
{
}

} // verus!
