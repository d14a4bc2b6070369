//! Tags as packets.
//!
//! Both streams count time in nanoseconds. The timestamp of a message is in
//! milliseconds; the nanosecond offsets of a tag come on top of its presentation
//! time.

use vstd::prelude::*;
use oxideav_core::packet::PacketFlags;
use oxideav_core::{Packet, TimeBase};
#[allow(unused_imports)]
use crate::adapter::codec::{is_audio_config, is_video_config};
#[allow(unused_imports)]
use crate::adapter::core_types::{packet_view, time_base_view, PacketView};
use crate::flv::{
    AudioTag, VideoTag, AAC_PACKET_TYPE_RAW, AAC_PACKET_TYPE_SEQUENCE_HEADER, AUDIO_FORMAT_AAC,
    AUDIO_PACKET_TYPE_SEQUENCE_END, AUDIO_PACKET_TYPE_SEQUENCE_START, VIDEO_CODEC_AVC,
};
#[allow(unused_imports)]
use crate::flv::{EX_PACKET_TYPE_METADATA, VIDEO_FRAME_GENERATED_KEY, VIDEO_FRAME_KEYFRAME};
#[allow(unused_imports)]
use crate::flv::audio::AudioView;
#[allow(unused_imports)]
use crate::flv::mod_ex::{nano_total, ModExView};
#[allow(unused_imports)]
use crate::flv::video::{is_of_type, VideoView};
use crate::wire::copy_range;
use crate::wire::put_bytes;

verus! {

/// The stream of the audio packets.
pub const AUDIO_STREAM_INDEX: u32 = 0;

/// The stream of the video packets.
pub const VIDEO_STREAM_INDEX: u32 = 1;

/// How many nanoseconds a millisecond has.
pub const RTMP_MS_TO_NS: i64 = 1_000_000;

/// How many ticks of the time base a second has.
pub const TICKS_PER_SECOND: i64 = 1_000_000_000;

/// The time base of both streams: nanoseconds.
pub fn rtmp_time_base() -> (t: TimeBase)
    ensures
        time_base_view(t) == (1i64, TICKS_PER_SECOND),
{
    TimeBase::new(1, TICKS_PER_SECOND)
}

/// The offset from decoding to presentation that a video tag states, in
/// milliseconds.
pub open spec fn stated_offset(t: VideoView) -> int {
    if t.codec_id == VIDEO_CODEC_AVC || t.fourcc is Some {
        t.composition_time as int
    } else {
        0
    }
}

/// When an audio tag is to be presented, in nanoseconds.
pub open spec fn audio_time(timestamp_ms: int, t: AudioView) -> int {
    timestamp_ms * RTMP_MS_TO_NS + nano_total(t.mod_ex)
}

/// When a video tag is to be decoded, in nanoseconds.
pub open spec fn decode_time(timestamp_ms: int) -> int {
    timestamp_ms * RTMP_MS_TO_NS
}

/// When a video tag is to be presented, in nanoseconds.
pub open spec fn video_time(timestamp_ms: int, t: VideoView) -> int {
    (timestamp_ms + stated_offset(t)) * RTMP_MS_TO_NS + nano_total(t.mod_ex)
}

/// Whether a time has a place on the timeline of packets.
pub open spec fn on_timeline(t: int) -> bool {
    i64::MIN <= t <= i64::MAX
}

/// Whether the times of an audio tag have a place on the timeline.
pub open spec fn audio_fits(timestamp_ms: int, t: AudioView) -> bool {
    on_timeline(decode_time(timestamp_ms)) && on_timeline(audio_time(timestamp_ms, t))
}

/// Whether the times of a video tag have a place on the timeline.
pub open spec fn video_fits(timestamp_ms: int, t: VideoView) -> bool {
    on_timeline(decode_time(timestamp_ms)) && on_timeline(
        (timestamp_ms + stated_offset(t)) * RTMP_MS_TO_NS,
    ) && on_timeline(video_time(timestamp_ms, t))
}

/// What an audio packet holds: the body, and before it, for AAC in the plain form,
/// the byte that tells the configuration from frames.
pub open spec fn audio_data(t: AudioView) -> Seq<u8> {
    if t.audio_fourcc is None && t.sound_format == AUDIO_FORMAT_AAC {
        seq![
            match t.aac_packet_type {
                Some(p) => p,
                None => AAC_PACKET_TYPE_RAW,
            },
        ] + t.body
    } else {
        t.body
    }
}

/// Whether an audio packet is marked as a header: the configuration of the codec, or
/// the end of a sequence.
pub open spec fn is_audio_header(t: AudioView) -> bool {
    is_audio_config(t) || (t.audio_fourcc is Some && t.ex_packet_type == Some(
        AUDIO_PACKET_TYPE_SEQUENCE_END,
    ))
}

/// The packet of an audio tag.
pub open spec fn audio_packet(timestamp_ms: int, t: AudioView) -> PacketView {
    let time = audio_time(timestamp_ms, t) as i64;
    PacketView {
        stream_index: AUDIO_STREAM_INDEX,
        time_base: (1, TICKS_PER_SECOND),
        pts: Some(time),
        dts: Some(time),
        duration: None,
        keyframe: false,
        header: is_audio_header(t),
        corrupt: false,
        discard: false,
        unit_boundary: false,
        data: audio_data(t),
    }
}

/// Whether decoding can start at a video tag.
pub open spec fn starts_decoding(t: VideoView) -> bool {
    t.frame_type == VIDEO_FRAME_KEYFRAME || t.frame_type == VIDEO_FRAME_GENERATED_KEY
}

/// The packet of a video tag. Metadata counts as a header and never as a keyframe.
pub open spec fn video_packet(timestamp_ms: int, t: VideoView) -> PacketView {
    let metadata = is_of_type(t, EX_PACKET_TYPE_METADATA);
    PacketView {
        stream_index: VIDEO_STREAM_INDEX,
        time_base: (1, TICKS_PER_SECOND),
        pts: Some(video_time(timestamp_ms, t) as i64),
        dts: Some(decode_time(timestamp_ms) as i64),
        duration: None,
        keyframe: !metadata && starts_decoding(t),
        header: is_video_config(t) || metadata,
        corrupt: false,
        discard: false,
        unit_boundary: false,
        data: t.body,
    }
}

/// The packet of an audio tag, on stream 0.
pub fn audio_to_packet(timestamp_ms: i64, tag: &AudioTag) -> (p: Packet)
    requires
        audio_fits(timestamp_ms as int, tag@),
    ensures
        packet_view(p) == audio_packet(timestamp_ms as int, tag@),
{
    let ts_ns: i64 = timestamp_ms * RTMP_MS_TO_NS;
    let nano_offset: i64 = tag.timestamp_offset_nano() as i64;
    let presentation_ns: i64 = ts_ns + nano_offset;
    let (data, is_header): (Vec<u8>, bool) = if tag.audio_fourcc.is_some() {
        let header = match tag.ex_packet_type {
            Some(p) => p == AUDIO_PACKET_TYPE_SEQUENCE_START || p == AUDIO_PACKET_TYPE_SEQUENCE_END,
            None => false,
        };
        let data = copy_range(tag.body.as_slice(), 0, tag.body.len());
        assert(data@ =~= tag.body@);
        (data, header)
    } else {
        let mut data: Vec<u8> = Vec::new();
        let mut header = false;
        if tag.sound_format == AUDIO_FORMAT_AAC {
            match tag.aac_packet_type {
                Some(p) => {
                    data.push(p);
                    header = p == AAC_PACKET_TYPE_SEQUENCE_HEADER;
                },
                None => {
                    data.push(AAC_PACKET_TYPE_RAW);
                },
            }
        }
        put_bytes(&mut data, tag.body.as_slice());
        assert(data@ =~= audio_data(tag@));
        (data, header)
    };
    Packet {
        stream_index: AUDIO_STREAM_INDEX,
        time_base: rtmp_time_base(),
        pts: Some(presentation_ns),
        dts: Some(presentation_ns),
        duration: None,
        flags: PacketFlags {
            keyframe: false,
            header: is_header,
            corrupt: false,
            discard: false,
            unit_boundary: false,
        },
        data,
    }
}

/// The packet of a video tag, on stream 1.
pub fn video_to_packet(timestamp_ms: i64, tag: &VideoTag) -> (p: Packet)
    requires
        video_fits(timestamp_ms as int, tag@),
    ensures
        packet_view(p) == video_packet(timestamp_ms as int, tag@),
{
    let dts_ns: i64 = timestamp_ms * RTMP_MS_TO_NS;
    let has_cts = tag.codec_id == VIDEO_CODEC_AVC || (tag.fourcc.is_some() && tag.composition_time
        != 0);
    let cts_ns: i64 = if has_cts {
        (tag.composition_time as i64) * RTMP_MS_TO_NS
    } else {
        0
    };
    let nano_offset: i64 = tag.timestamp_offset_nano() as i64;
    let pts_ns: i64 = dts_ns + cts_ns + nano_offset;
    let is_header = tag.is_avc_sequence_header() || tag.is_ex_sequence_header();
    let is_metadata = tag.is_ex_metadata();
    let data = copy_range(tag.body.as_slice(), 0, tag.body.len());
    assert(data@ =~= tag.body@);
    Packet {
        stream_index: VIDEO_STREAM_INDEX,
        time_base: rtmp_time_base(),
        pts: Some(pts_ns),
        dts: Some(dts_ns),
        duration: None,
        flags: PacketFlags {
            keyframe: !is_metadata && tag.is_keyframe(),
            header: is_header || is_metadata,
            corrupt: false,
            discard: false,
            unit_boundary: false,
        },
        data,
    }
}

/// Whether the times of an audio tag have a place on the timeline.
pub fn audio_times_fit(timestamp_ms: i64, tag: &AudioTag) -> (b: bool)
    ensures
        b == audio_fits(timestamp_ms as int, tag@),
{
    let decode: i128 = nanoseconds(timestamp_ms as i128);
    let time: i128 = decode + tag.timestamp_offset_nano() as i128;
    fits(decode) && fits(time)
}

/// Whether the times of a video tag have a place on the timeline.
pub fn video_times_fit(timestamp_ms: i64, tag: &VideoTag) -> (b: bool)
    ensures
        b == video_fits(timestamp_ms as int, tag@),
{
    let offset: i128 = if tag.codec_id == VIDEO_CODEC_AVC || tag.fourcc.is_some() {
        tag.composition_time as i128
    } else {
        0
    };
    let decode: i128 = nanoseconds(timestamp_ms as i128);
    let composed: i128 = nanoseconds(timestamp_ms as i128 + offset);
    let time: i128 = composed + tag.timestamp_offset_nano() as i128;
    fits(decode) && fits(composed) && fits(time)
}

fn nanoseconds(ms: i128) -> (ns: i128)
    requires
        -0x1_0000_0000_0000_0000 <= ms <= 0x1_0000_0000_0000_0000,
    ensures
        ns == ms * RTMP_MS_TO_NS,
        -0x1_0000_0000_0000_0000 * 1_000_000 <= ns <= 0x1_0000_0000_0000_0000 * 1_000_000,
{
    ms * 1_000_000
}

fn fits(t: i128) -> (b: bool)
    ensures
        b == on_timeline(t as int),
{
    i64::MIN as i128 <= t && t <= i64::MAX as i128
}

// ---------------------------------------------------------------------------
// Laws
// ---------------------------------------------------------------------------

/// Nanosecond offsets move the presentation of a video tag by their sum, and leave
/// everything else of its packet as it is.
pub proof fn law_offsets_move_presentation_only(
    timestamp_ms: int,
    t: VideoView,
    offsets: Seq<ModExView>,
)
    requires
        t.mod_ex.len() == 0,
        video_fits(timestamp_ms, t),
        video_fits(timestamp_ms, (VideoView { mod_ex: offsets, ..t })),
    ensures
        ({
            let plain = video_packet(timestamp_ms, t);
            let moved = video_packet(timestamp_ms, VideoView { mod_ex: offsets, ..t });
            &&& moved == PacketView { pts: moved.pts, ..plain }
            &&& moved.pts->0 == plain.pts->0 + nano_total(offsets)
        }),
{
}

/// An audio packet is decoded when it is presented, and nanosecond offsets move both
/// by their sum.
pub proof fn law_audio_has_one_time(timestamp_ms: int, t: AudioView)
    requires
        audio_fits(timestamp_ms, t),
    ensures
        audio_packet(timestamp_ms, t).pts == audio_packet(timestamp_ms, t).dts,
        audio_packet(timestamp_ms, t).pts->0 == timestamp_ms * RTMP_MS_TO_NS + nano_total(t.mod_ex),
{
}

/// The times of a tag have a place on the timeline, whatever the tag, until a session
/// has run for centuries.
pub proof fn law_ordinary_times_fit(timestamp_ms: int, a: AudioView, v: VideoView)
    requires
        -9_000_000_000_000 <= timestamp_ms <= 9_000_000_000_000,
    ensures
        audio_fits(timestamp_ms, a),
        video_fits(timestamp_ms, v),
{
}

} // verus!
