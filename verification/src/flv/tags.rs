//! What tags tell, and tags that are made for a purpose.

use vstd::prelude::*;
#[allow(unused_imports)]
use crate::error::{outcome, Error, Fault, Result};
#[allow(unused_imports)]
use crate::flv::audio::{
    audio_message_bytes, audio_message_of, audio_of, build_audio, build_audio_message,
    build_silence_audio, is_silence_payload, parse_audio, parse_audio_message, AudioMessage,
    AudioMessageView, AudioTag, AudioView,
};
#[allow(unused_imports)]
use crate::flv::mod_ex::{nano_total, total_offset_nano, ModEx, ModExView};
#[allow(unused_imports)]
use crate::flv::multichannel::{
    multichannel_of, MultichannelConfig, MultichannelConfigOrder, MultichannelView, OrderView,
};
#[allow(unused_imports)]
use crate::flv::multitrack::{multitrack_of, Multitrack, MultitrackView};
#[allow(unused_imports)]
use crate::flv::video::{build_video, parse_video, video_of, VideoTag, VideoView};
#[allow(unused_imports)]
use crate::flv::{audio_channel, audio_channel_mask};
#[allow(unused_imports)]
use crate::model::{opt_view, views};
#[allow(unused_imports)]
use crate::wire::{be32_bytes, law_bytes_by_their_value};

verus! {

// ---------------------------------------------------------------------------
// Video
// ---------------------------------------------------------------------------

/// What a video tag tells of itself. Decoding starts at frame types 1 and 4. The H.264
/// configuration has codec id 7 and packet type 0. Under a FourCC packet type 0 is a
/// configuration, 2 the end of a sequence, 4 metadata and 5 a descriptor, which counts for
/// `av01` only. Frame type 5 is a command, unless it is metadata; its first byte tells which.
pub proof fn law_video_tags_tell(
    t: &VideoTag,
    key: bool,
    avc: bool,
    start: bool,
    descriptor: bool,
    bytes: Option<&[u8]>,
    metadata: bool,
    end: bool,
    command: bool,
    which: Option<u8>,
    tracks: bool,
    nano: u32,
)
    requires
        call_ensures(VideoTag::is_keyframe, (t,), key),
        call_ensures(VideoTag::is_avc_sequence_header, (t,), avc),
        call_ensures(VideoTag::is_ex_sequence_header, (t,), start),
        call_ensures(VideoTag::is_ex_mpeg2ts_sequence_start, (t,), descriptor),
        call_ensures(VideoTag::mpeg2ts_video_descriptor, (t,), bytes),
        call_ensures(VideoTag::is_ex_metadata, (t,), metadata),
        call_ensures(VideoTag::is_ex_sequence_end, (t,), end),
        call_ensures(VideoTag::is_command, (t,), command),
        call_ensures(VideoTag::video_command, (t,), which),
        call_ensures(VideoTag::is_multitrack, (t,), tracks),
        call_ensures(VideoTag::timestamp_offset_nano, (t,), nano),
    ensures
        key <==> t.frame_type == 1 || t.frame_type == 4,
        avc <==> t.codec_id == 7 && t.avc_packet_type == Some(0u8),
        start <==> t.fourcc is Some && t.ex_packet_type == Some(0u8),
        descriptor <==> t.fourcc is Some && t.ex_packet_type == Some(5u8),
        bytes is Some <==> t.ex_packet_type == Some(5u8) && (t.fourcc matches Some(f) && f@ == seq![
            0x61u8,
            0x76,
            0x30,
            0x31,
        ]),
        bytes matches Some(b) ==> b@ == t.body@,
        metadata <==> t.fourcc is Some && t.ex_packet_type == Some(4u8),
        end <==> t.fourcc is Some && t.ex_packet_type == Some(2u8),
        command <==> t.frame_type == 5 && t.ex_packet_type != Some(4u8),
        which is Some <==> t.frame_type == 5 && t.ex_packet_type != Some(4u8) && t.body@.len() > 0,
        which matches Some(c) ==> c == t.body@[0],
        tracks <==> t.multitrack is Some,
        nano == nano_total(views(t.mod_ex@)),
{
    crate::flv::format::law_fourccs();
}

/// Whether a tag has nothing that the extended form has no use for.
pub open spec fn plainly_extended(t: VideoView) -> bool {
    &&& t.codec_id == 0
    &&& t.avc_packet_type is None
    &&& t.composition_time == 0
    &&& t.mod_ex.len() == 0
}

/// Video tags that are made for a purpose: a descriptor is a keyframe of packet type 5, the
/// end of a sequence an inter frame of packet type 2 without a body, and a command has
/// frame type 5 and one byte, under a FourCC with packet type 1.
pub proof fn law_video_tags_are_made(
    fourcc: [u8; 4],
    body: Vec<u8>,
    codec_id: u8,
    command: u8,
    a: VideoTag,
    b: VideoTag,
    c: VideoTag,
    d: VideoTag,
)
    requires
        call_ensures(VideoTag::mpeg2ts_sequence_start_tag, (fourcc, body), a),
        call_ensures(VideoTag::sequence_end_tag, (fourcc,), b),
        call_ensures(VideoTag::command_tag, (codec_id, command), c),
        call_ensures(VideoTag::command_tag_ex, (fourcc, command), d),
    ensures
        plainly_extended(a@) && plainly_extended(b@) && plainly_extended(d@),
        a@.multitrack is None && b@.multitrack is None && c@.multitrack is None && d@.multitrack
            is None,
        a@.frame_type == 1 && a@.ex_packet_type == Some(5u8) && a@.fourcc == Some(fourcc@)
            && a@.body == body@,
        b@.frame_type == 2 && b@.ex_packet_type == Some(2u8) && b@.fourcc == Some(fourcc@)
            && b@.body.len() == 0,
        c@.frame_type == 5 && c@.codec_id == codec_id && c@.body == seq![command] && c@.fourcc
            is None && c@.ex_packet_type is None && c@.avc_packet_type is None
            && c@.composition_time == 0 && c@.mod_ex.len() == 0,
        d@.frame_type == 5 && d@.ex_packet_type == Some(1u8) && d@.fourcc == Some(fourcc@)
            && d@.body == seq![command],
{
}

/// A tag is made of tracks with the frame type, the packet type and the FourCC that are
/// asked for, and nothing else.
pub proof fn law_video_tracks_are_wrapped(
    frame_type: u8,
    packet_type: u8,
    fourcc: Option<[u8; 4]>,
    mt: Multitrack,
    t: VideoTag,
)
    requires
        call_ensures(VideoTag::multitrack_tag, (frame_type, packet_type, fourcc, mt), t),
    ensures
        t@.multitrack == Some(mt@),
        t@.frame_type == frame_type,
        t@.ex_packet_type == Some(packet_type),
        fourcc is None ==> t@.fourcc is None,
        fourcc matches Some(f) ==> t@.fourcc == Some(f@),
        t@.body.len() == 0,
        plainly_extended(t@),
{
}

/// Video is read and written as the bytes of its tags say.
pub proof fn law_video_codec(s: &[u8], r: Result<VideoTag>, t: &VideoTag, out: Vec<u8>)
    requires
        call_ensures(parse_video, (s,), r),
        call_ensures(build_video, (t,), out),
    ensures
        outcome(r) == video_of(s@),
        out@ == t@.encoded(),
{
}

// ---------------------------------------------------------------------------
// Audio
// ---------------------------------------------------------------------------

/// What an audio tag tells of itself. The AAC configuration has sound format 10 and packet
/// type 0. Under a FourCC packet type 0 is a configuration, 2 the end of a sequence and 4 a
/// channel configuration.
pub proof fn law_audio_tags_tell(
    t: &AudioTag,
    named: bool,
    aac: bool,
    start: bool,
    end: bool,
    channels: bool,
    config: Result<Option<MultichannelConfig>>,
    tracks: bool,
    nano: u32,
)
    requires
        call_ensures(AudioTag::is_enhanced, (t,), named),
        call_ensures(AudioTag::is_aac_sequence_header, (t,), aac),
        call_ensures(AudioTag::is_ex_sequence_header, (t,), start),
        call_ensures(AudioTag::is_ex_sequence_end, (t,), end),
        call_ensures(AudioTag::is_multichannel_config, (t,), channels),
        call_ensures(AudioTag::multichannel_config, (t,), config),
        call_ensures(AudioTag::is_multitrack, (t,), tracks),
        call_ensures(AudioTag::timestamp_offset_nano, (t,), nano),
    ensures
        named <==> t.audio_fourcc is Some,
        aac <==> t.sound_format == 10 && t.aac_packet_type == Some(0u8),
        start <==> t.audio_fourcc is Some && t.ex_packet_type == Some(0u8),
        end <==> t.audio_fourcc is Some && t.ex_packet_type == Some(2u8),
        channels <==> t.audio_fourcc is Some && t.ex_packet_type == Some(4u8),
        !(t.audio_fourcc is Some && t.ex_packet_type == Some(4u8)) ==> (config matches Ok(c) && c
            is None),
        t.audio_fourcc is Some && t.ex_packet_type == Some(4u8) ==> (match multichannel_of(
            t.body@,
        ) {
            Ok(m) => config matches Ok(Some(c)) && c@ == m,
            Err(f) => config matches Err(e) && e@ == f,
        }),
        tracks <==> t.multitrack is Some,
        nano == nano_total(views(t.mod_ex@)),
{
}

/// Audio tags that are made for a purpose are of the extended form, sound format 9: the end
/// of a sequence has packet type 2 and no body, a channel configuration packet type 4, and
/// tracks the packet type and the FourCC that are asked for.
pub proof fn law_audio_tags_are_made(
    fourcc: [u8; 4],
    cfg: &MultichannelConfig,
    packet_type: u8,
    shared: Option<[u8; 4]>,
    mt: Multitrack,
    a: AudioTag,
    b: AudioTag,
    c: AudioTag,
)
    requires
        call_ensures(AudioTag::sequence_end_tag, (fourcc,), a),
        call_ensures(AudioTag::multichannel_config_tag, (fourcc, cfg), b),
        call_ensures(AudioTag::multitrack_tag, (packet_type, shared, mt), c),
    ensures
        a@.sound_format == 9 && b@.sound_format == 9 && c@.sound_format == 9,
        a@.sound_rate == 0 && !a@.sound_size_16bit && !a@.stereo && a@.aac_packet_type is None
            && a@.mod_ex.len() == 0 && a@.multitrack is None,
        b@.sound_rate == 0 && !b@.sound_size_16bit && !b@.stereo && b@.aac_packet_type is None
            && b@.mod_ex.len() == 0 && b@.multitrack is None,
        c@.sound_rate == 0 && !c@.sound_size_16bit && !c@.stereo && c@.aac_packet_type is None
            && c@.mod_ex.len() == 0 && c@.multitrack == Some(mt@),
        a@.ex_packet_type == Some(2u8) && a@.audio_fourcc == Some(fourcc@) && a@.body.len() == 0,
        b@.ex_packet_type == Some(4u8) && b@.audio_fourcc == Some(fourcc@) && b@.body
            == cfg@.encoded(),
        c@.ex_packet_type == Some(packet_type) && c@.body.len() == 0,
        shared is None ==> c@.audio_fourcc is None,
        shared matches Some(f) ==> c@.audio_fourcc == Some(f@),
{
}

/// Silence is a message without a payload, and no other message is silence.
pub proof fn law_silence(
    s: &[u8],
    quiet: bool,
    out: Vec<u8>,
    r: Result<AudioMessage>,
    m: &AudioMessage,
    b: Vec<u8>,
    silent: bool,
    tag: Option<&AudioTag>,
)
    requires
        call_ensures(is_silence_payload, (s,), quiet),
        call_ensures(build_silence_audio, (), out),
        call_ensures(parse_audio_message, (s,), r),
        call_ensures(build_audio_message, (m,), b),
        call_ensures(AudioMessage::is_silence, (m,), silent),
        call_ensures(AudioMessage::as_tag, (m,), tag),
    ensures
        quiet <==> s@.len() == 0,
        out@.len() == 0,
        s@.len() == 0 ==> (r matches Ok(x) && x is Silence),
        s@.len() > 0 ==> (match audio_of(s@) {
            Ok(t) => r matches Ok(AudioMessage::Tag(x)) && x@ == t,
            Err(f) => r matches Err(e) && e@ == f,
        }),
        match *m {
            AudioMessage::Silence => b@.len() == 0 && silent && tag is None,
            AudioMessage::Tag(t) => b@ == t@.encoded() && !silent && (tag matches Some(x) && *x
                == t),
        },
{
}

/// Audio is read and written as the bytes of its tags say.
pub proof fn law_audio_codec(s: &[u8], r: Result<AudioTag>, t: &AudioTag, out: Vec<u8>)
    requires
        call_ensures(parse_audio, (s,), r),
        call_ensures(build_audio, (t,), out),
    ensures
        outcome(r) == audio_of(s@),
        out@ == t@.encoded(),
{
}

// ---------------------------------------------------------------------------
// Parts
// ---------------------------------------------------------------------------

/// A nanosecond offset is a modifier of type 0 with its low 24 bits in three bytes, the
/// highest first.
pub proof fn law_nanosecond_entries(
    nano: u32,
    e: ModEx,
    m: &ModEx,
    said: Option<u32>,
    chain: &Vec<ModEx>,
    total: u32,
)
    requires
        call_ensures(ModEx::timestamp_offset_nano_entry, (nano,), e),
        call_ensures(ModEx::timestamp_offset_nano, (m,), said),
        call_ensures(total_offset_nano, (chain,), total),
    ensures
        e@.mod_ex_type == 0,
        e@.data == seq![
            (nano / 0x1_0000 % 0x100) as u8,
            (nano / 0x100 % 0x100) as u8,
            (nano % 0x100) as u8,
        ],
        said is Some <==> m@.mod_ex_type == 0 && m@.data.len() >= 3,
        said matches Some(n) ==> n == m@.data[0] * 0x1_0000 + m@.data[1] * 0x100 + m@.data[2],
        total == nano_total(views(chain@)),
{
    law_bytes_by_their_value(0, nano, 0);
    assert(e@.data =~= seq![
        (nano / 0x1_0000 % 0x100) as u8,
        (nano / 0x100 % 0x100) as u8,
        (nano % 0x100) as u8,
    ]);
    if m@.data.len() >= 3 {
        crate::wire::law_fields_by_their_bytes(m@.data, 0);
    }
}

/// A channel configuration is written as its order, 0 for unspecified, 1 for native and 2
/// for custom, the number of channels, and what the order asks for.
pub proof fn law_channel_configurations_are_written(
    c: &MultichannelConfig,
    out: Vec<u8>,
    o: &MultichannelConfigOrder,
    code: u8,
    s: &[u8],
    r: Result<MultichannelConfig>,
)
    requires
        call_ensures(MultichannelConfig::encode, (c,), out),
        call_ensures(MultichannelConfigOrder::as_u8, (o,), code),
        call_ensures(MultichannelConfig::parse, (s,), r),
    ensures
        match c@.order {
            OrderView::Unspecified => out@ == seq![0u8, c@.channel_count],
            OrderView::Native { flags } => out@ == seq![
                1u8,
                c@.channel_count,
                (flags / 0x100_0000) as u8,
                (flags / 0x1_0000 % 0x100) as u8,
                (flags / 0x100 % 0x100) as u8,
                (flags % 0x100) as u8,
            ],
            OrderView::Custom { mapping } => out@ == seq![2u8, c@.channel_count] + mapping,
            OrderView::Reserved(v) => out@ == seq![v, c@.channel_count] + c@.extra,
        },
        match o@ {
            OrderView::Unspecified => code == 0,
            OrderView::Native { .. } => code == 1,
            OrderView::Custom { .. } => code == 2,
            OrderView::Reserved(v) => code == v,
        },
        outcome(r) == multichannel_of(s@),
{
    match c@.order {
        OrderView::Unspecified => {
            assert(c@.encoded() =~= seq![0u8, c@.channel_count]);
        },
        OrderView::Native { flags } => {
            law_bytes_by_their_value(0, flags, 0);
            assert(c@.encoded() =~= seq![
                1u8,
                c@.channel_count,
                (flags / 0x100_0000) as u8,
                (flags / 0x1_0000 % 0x100) as u8,
                (flags / 0x100 % 0x100) as u8,
                (flags % 0x100) as u8,
            ]);
        },
        _ => {},
    }
}

/// Tracks are read and written as their bytes say.
pub proof fn law_tracks_codec(
    s: &[u8],
    mode: u8,
    r: Result<Multitrack>,
    m: &Multitrack,
    out: Vec<u8>,
)
    requires
        call_ensures(Multitrack::parse, (s, mode), r),
        call_ensures(Multitrack::encode, (m,), out),
    ensures
        outcome(r) == multitrack_of(s@, mode),
        out@ == m@.encoded(),
{
}

/// The channels by number, in their order, and the bit of each in a mask: twice that of the
/// one before.
pub proof fn law_channels()
    ensures
        audio_channel::FRONT_LEFT == 0 && audio_channel::FRONT_RIGHT == 1
            && audio_channel::FRONT_CENTER == 2 && audio_channel::LOW_FREQUENCY1 == 3
            && audio_channel::BACK_LEFT == 4 && audio_channel::BACK_RIGHT == 5
            && audio_channel::FRONT_LEFT_CENTER == 6 && audio_channel::FRONT_RIGHT_CENTER == 7
            && audio_channel::BACK_CENTER == 8 && audio_channel::SIDE_LEFT == 9
            && audio_channel::SIDE_RIGHT == 10 && audio_channel::TOP_CENTER == 11,
        audio_channel::TOP_FRONT_LEFT == 12 && audio_channel::TOP_FRONT_CENTER == 13
            && audio_channel::TOP_FRONT_RIGHT == 14 && audio_channel::TOP_BACK_LEFT == 15
            && audio_channel::TOP_BACK_CENTER == 16 && audio_channel::TOP_BACK_RIGHT == 17
            && audio_channel::LOW_FREQUENCY2 == 18 && audio_channel::TOP_SIDE_LEFT == 19
            && audio_channel::TOP_SIDE_RIGHT == 20 && audio_channel::BOTTOM_FRONT_CENTER == 21
            && audio_channel::BOTTOM_FRONT_LEFT == 22 && audio_channel::BOTTOM_FRONT_RIGHT == 23
            && audio_channel::UNUSED == 254 && audio_channel::UNKNOWN == 255,
        audio_channel_mask::FRONT_LEFT == 1 && audio_channel_mask::FRONT_RIGHT == 2
            && audio_channel_mask::FRONT_CENTER == 4 && audio_channel_mask::LOW_FREQUENCY1 == 8
            && audio_channel_mask::BACK_LEFT == 16 && audio_channel_mask::BACK_RIGHT == 32
            && audio_channel_mask::FRONT_LEFT_CENTER == 64
            && audio_channel_mask::FRONT_RIGHT_CENTER == 128 && audio_channel_mask::BACK_CENTER
            == 256 && audio_channel_mask::SIDE_LEFT == 512 && audio_channel_mask::SIDE_RIGHT
            == 1024 && audio_channel_mask::TOP_CENTER == 2048,
        audio_channel_mask::TOP_FRONT_LEFT == 4096 && audio_channel_mask::TOP_FRONT_CENTER == 8192
            && audio_channel_mask::TOP_FRONT_RIGHT == 16384 && audio_channel_mask::TOP_BACK_LEFT
            == 32768 && audio_channel_mask::TOP_BACK_CENTER == 65536
            && audio_channel_mask::TOP_BACK_RIGHT == 131072 && audio_channel_mask::LOW_FREQUENCY2
            == 262144 && audio_channel_mask::TOP_SIDE_LEFT == 524288
            && audio_channel_mask::TOP_SIDE_RIGHT == 1048576
            && audio_channel_mask::BOTTOM_FRONT_CENTER == 2097152
            && audio_channel_mask::BOTTOM_FRONT_LEFT == 4194304
            && audio_channel_mask::BOTTOM_FRONT_RIGHT == 8388608,
{
}

} // verus!
