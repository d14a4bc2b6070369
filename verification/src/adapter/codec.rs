//! The names of codecs, and what the first tag of a stream tells a decoder.

use vstd::prelude::*;
use oxideav_core::{CodecId, CodecParameters};
#[allow(unused_imports)]
use oxideav_core::MediaType;
use crate::adapter::core_types::codec_called;
#[allow(unused_imports)]
use crate::adapter::core_types::{bare_params, params_view, ParamsView};
use crate::flv::{
    same_fourcc, AudioTag, VideoTag, AAC_PACKET_TYPE_SEQUENCE_HEADER, AUDIO_FORMAT_AAC,
    AUDIO_FORMAT_ADPCM, AUDIO_FORMAT_G711_ALAW, AUDIO_FORMAT_G711_MULAW, AUDIO_FORMAT_MP3,
    AUDIO_FORMAT_NELLYMOSER, AUDIO_FORMAT_NELLYMOSER_16K_MONO, AUDIO_FORMAT_NELLYMOSER_8K_MONO,
    AUDIO_FORMAT_PCM_LE, AUDIO_FORMAT_PCM_LE_8BIT, AUDIO_FORMAT_SPEEX,
    AUDIO_PACKET_TYPE_SEQUENCE_START, FOURCC_AAC, FOURCC_AC3, FOURCC_AV1, FOURCC_AVC, FOURCC_EAC3,
    FOURCC_FLAC, FOURCC_HEVC, FOURCC_MP3, FOURCC_OPUS, FOURCC_VP8, FOURCC_VP9, FOURCC_VVC,
    VIDEO_CODEC_AVC, VIDEO_CODEC_H263, VIDEO_CODEC_SCREEN, VIDEO_CODEC_SCREEN_V2, VIDEO_CODEC_VP6,
    VIDEO_CODEC_VP6A,
};
#[allow(unused_imports)]
use crate::flv::{AVC_PACKET_TYPE_SEQUENCE_HEADER, EX_PACKET_TYPE_SEQUENCE_START};
#[allow(unused_imports)]
use crate::flv::audio::AudioView;
#[allow(unused_imports)]
use crate::flv::video::{is_of_type, VideoView};
use crate::wire::put_bytes;

verus! {

/// The name of the codec of a sound format.
pub open spec fn audio_codec_name(sound_format: u8) -> Seq<char> {
    if sound_format == AUDIO_FORMAT_PCM_LE {
        "pcm_s16le"@
    } else if sound_format == AUDIO_FORMAT_ADPCM {
        "adpcm_swf"@
    } else if sound_format == AUDIO_FORMAT_MP3 {
        "mp3"@
    } else if sound_format == AUDIO_FORMAT_PCM_LE_8BIT {
        "pcm_u8"@
    } else if sound_format == AUDIO_FORMAT_NELLYMOSER_16K_MONO || sound_format
        == AUDIO_FORMAT_NELLYMOSER_8K_MONO || sound_format == AUDIO_FORMAT_NELLYMOSER {
        "nellymoser"@
    } else if sound_format == AUDIO_FORMAT_G711_ALAW {
        "pcm_alaw"@
    } else if sound_format == AUDIO_FORMAT_G711_MULAW {
        "pcm_mulaw"@
    } else if sound_format == AUDIO_FORMAT_AAC {
        "aac"@
    } else if sound_format == AUDIO_FORMAT_SPEEX {
        "speex"@
    } else {
        "unknown"@
    }
}

/// The name of the codec of an audio FourCC.
pub open spec fn audio_fourcc_name(fourcc: Seq<u8>) -> Seq<char> {
    if fourcc == FOURCC_OPUS@ {
        "opus"@
    } else if fourcc == FOURCC_FLAC@ {
        "flac"@
    } else if fourcc == FOURCC_AC3@ {
        "ac3"@
    } else if fourcc == FOURCC_EAC3@ {
        "eac3"@
    } else if fourcc == FOURCC_MP3@ {
        "mp3"@
    } else if fourcc == FOURCC_AAC@ {
        "aac"@
    } else {
        "unknown"@
    }
}

/// The name of the codec of an audio tag: by its FourCC if it has one.
pub open spec fn audio_tag_codec(t: AudioView) -> Seq<char> {
    match t.audio_fourcc {
        Some(f) => audio_fourcc_name(f),
        None => audio_codec_name(t.sound_format),
    }
}

/// The name of the codec of a video codec id.
pub open spec fn video_codec_name(codec_id: u8) -> Seq<char> {
    if codec_id == VIDEO_CODEC_H263 {
        "h263"@
    } else if codec_id == VIDEO_CODEC_SCREEN {
        "flashsv"@
    } else if codec_id == VIDEO_CODEC_VP6 {
        "vp6f"@
    } else if codec_id == VIDEO_CODEC_VP6A {
        "vp6a"@
    } else if codec_id == VIDEO_CODEC_SCREEN_V2 {
        "flashsv2"@
    } else if codec_id == VIDEO_CODEC_AVC {
        "h264"@
    } else {
        "unknown"@
    }
}

/// The name of the codec of a video FourCC.
pub open spec fn video_fourcc_name(fourcc: Seq<u8>) -> Seq<char> {
    if fourcc == FOURCC_AV1@ {
        "av1"@
    } else if fourcc == FOURCC_VP9@ {
        "vp9"@
    } else if fourcc == FOURCC_HEVC@ {
        "hevc"@
    } else if fourcc == FOURCC_VP8@ {
        "vp8"@
    } else if fourcc == FOURCC_AVC@ {
        "h264"@
    } else if fourcc == FOURCC_VVC@ {
        "vvc"@
    } else {
        "unknown"@
    }
}

/// The name of the codec of a video tag: by its FourCC if it has one.
pub open spec fn video_tag_codec(t: VideoView) -> Seq<char> {
    match t.fourcc {
        Some(f) => video_fourcc_name(f),
        None => video_codec_name(t.codec_id),
    }
}

/// The codec of a sound format. A format that has no name here is `unknown`.
pub fn audio_codec_id(sound_format: u8) -> (id: CodecId)
    ensures
        id.0@ == audio_codec_name(sound_format),
{
    let name = match sound_format {
        AUDIO_FORMAT_PCM_LE => "pcm_s16le",
        AUDIO_FORMAT_ADPCM => "adpcm_swf",
        AUDIO_FORMAT_MP3 => "mp3",
        AUDIO_FORMAT_PCM_LE_8BIT => "pcm_u8",
        AUDIO_FORMAT_NELLYMOSER_16K_MONO => "nellymoser",
        AUDIO_FORMAT_NELLYMOSER_8K_MONO => "nellymoser",
        AUDIO_FORMAT_NELLYMOSER => "nellymoser",
        AUDIO_FORMAT_G711_ALAW => "pcm_alaw",
        AUDIO_FORMAT_G711_MULAW => "pcm_mulaw",
        AUDIO_FORMAT_AAC => "aac",
        AUDIO_FORMAT_SPEEX => "speex",
        _ => "unknown",
    };
    codec_called(name)
}

/// The codec of an audio FourCC. One that has no name here is `unknown`.
pub fn audio_fourcc_codec_id(fourcc: [u8; 4]) -> (id: CodecId)
    ensures
        id.0@ == audio_fourcc_name(fourcc@),
{
    let name = if same_fourcc(&fourcc, &FOURCC_OPUS) {
        "opus"
    } else if same_fourcc(&fourcc, &FOURCC_FLAC) {
        "flac"
    } else if same_fourcc(&fourcc, &FOURCC_AC3) {
        "ac3"
    } else if same_fourcc(&fourcc, &FOURCC_EAC3) {
        "eac3"
    } else if same_fourcc(&fourcc, &FOURCC_MP3) {
        "mp3"
    } else if same_fourcc(&fourcc, &FOURCC_AAC) {
        "aac"
    } else {
        "unknown"
    };
    codec_called(name)
}

/// The codec of an audio tag: by its FourCC if it has one, else by its sound format.
pub fn audio_codec_id_for_tag(tag: &AudioTag) -> (id: CodecId)
    ensures
        id.0@ == audio_tag_codec(tag@),
{
    match tag.audio_fourcc {
        Some(fourcc) => audio_fourcc_codec_id(fourcc),
        None => audio_codec_id(tag.sound_format),
    }
}

/// The codec of a video codec id. One that has no name here is `unknown`.
pub fn video_codec_id(codec_id: u8) -> (id: CodecId)
    ensures
        id.0@ == video_codec_name(codec_id),
{
    let name = match codec_id {
        VIDEO_CODEC_H263 => "h263",
        VIDEO_CODEC_SCREEN => "flashsv",
        VIDEO_CODEC_VP6 => "vp6f",
        VIDEO_CODEC_VP6A => "vp6a",
        VIDEO_CODEC_SCREEN_V2 => "flashsv2",
        VIDEO_CODEC_AVC => "h264",
        _ => "unknown",
    };
    codec_called(name)
}

/// The codec of a video FourCC. One that has no name here is `unknown`.
pub fn video_fourcc_codec_id(fourcc: [u8; 4]) -> (id: CodecId)
    ensures
        id.0@ == video_fourcc_name(fourcc@),
{
    let name = if same_fourcc(&fourcc, &FOURCC_AV1) {
        "av1"
    } else if same_fourcc(&fourcc, &FOURCC_VP9) {
        "vp9"
    } else if same_fourcc(&fourcc, &FOURCC_HEVC) {
        "hevc"
    } else if same_fourcc(&fourcc, &FOURCC_VP8) {
        "vp8"
    } else if same_fourcc(&fourcc, &FOURCC_AVC) {
        "h264"
    } else if same_fourcc(&fourcc, &FOURCC_VVC) {
        "vvc"
    } else {
        "unknown"
    };
    codec_called(name)
}

/// The codec of a video tag: by its FourCC if it has one, else by its codec id.
pub fn video_codec_id_for_tag(tag: &VideoTag) -> (id: CodecId)
    ensures
        id.0@ == video_tag_codec(tag@),
{
    match tag.fourcc {
        Some(fourcc) => video_fourcc_codec_id(fourcc),
        None => video_codec_id(tag.codec_id),
    }
}

/// The sample rate that the two bits of an audio tag stand for.
pub open spec fn sample_rate_of(sound_rate: u8) -> u32 {
    if sound_rate == 0 {
        5_512
    } else if sound_rate == 1 {
        11_025
    } else if sound_rate == 2 {
        22_050
    } else {
        44_100
    }
}

/// Whether an audio tag holds the configuration of its codec.
pub open spec fn is_audio_config(t: AudioView) -> bool {
    if t.audio_fourcc is Some {
        t.ex_packet_type == Some(AUDIO_PACKET_TYPE_SEQUENCE_START)
    } else {
        t.sound_format == AUDIO_FORMAT_AAC && t.aac_packet_type == Some(
            AAC_PACKET_TYPE_SEQUENCE_HEADER,
        )
    }
}

/// Whether the rate and channel bits of an audio tag mean something.
pub open spec fn has_rate(t: AudioView) -> bool {
    t.audio_fourcc is None && t.sound_format != AUDIO_FORMAT_AAC
}

/// The parameters of a stream that starts with the given audio tag.
pub open spec fn audio_params(t: AudioView) -> ParamsView {
    ParamsView {
        sample_rate: if has_rate(t) {
            Some(sample_rate_of(t.sound_rate))
        } else {
            None
        },
        channels: if !has_rate(t) {
            None
        } else if t.stereo {
            Some(2u16)
        } else {
            Some(1u16)
        },
        extradata: if is_audio_config(t) {
            t.body
        } else {
            Seq::empty()
        },
        ..bare_params(audio_tag_codec(t), MediaType::Audio)
    }
}

/// Whether a video tag holds the configuration of its codec.
pub open spec fn is_video_config(t: VideoView) -> bool {
    t.codec_id == VIDEO_CODEC_AVC && t.avc_packet_type == Some(AVC_PACKET_TYPE_SEQUENCE_HEADER)
        || is_of_type(t, EX_PACKET_TYPE_SEQUENCE_START)
}

/// The parameters of a stream that starts with the given video tag.
pub open spec fn video_params(t: VideoView) -> ParamsView {
    ParamsView {
        extradata: if is_video_config(t) {
            t.body
        } else {
            Seq::empty()
        },
        ..bare_params(video_tag_codec(t), MediaType::Video)
    }
}

fn equals(value: Option<u8>, wanted: u8) -> (b: bool)
    ensures
        b == (value == Some(wanted)),
{
    match value {
        Some(v) => v == wanted,
        None => false,
    }
}

/// The parameters of a stream that starts with the given audio tag. The rate and
/// channel bits are taken where they mean something: not with a FourCC, and not for
/// AAC, whose configuration tells.
pub fn audio_codec_params(tag: &AudioTag) -> (p: CodecParameters)
    ensures
        params_view(p) == audio_params(tag@),
{
    let mut p = CodecParameters::audio(audio_codec_id_for_tag(tag));
    assert(p.extradata@ =~= Seq::empty());
    if tag.audio_fourcc.is_some() {
        if equals(tag.ex_packet_type, AUDIO_PACKET_TYPE_SEQUENCE_START) {
            put_bytes(&mut p.extradata, tag.body.as_slice());
            assert(p.extradata@ =~= tag.body@);
        }
        return p;
    }
    if tag.sound_format != AUDIO_FORMAT_AAC {
        let rate: u32 = match tag.sound_rate {
            0 => 5_512,
            1 => 11_025,
            2 => 22_050,
            _ => 44_100,
        };
        p.sample_rate = Some(rate);
        p.channels = Some(
            if tag.stereo {
                2
            } else {
                1
            },
        );
    }
    if tag.sound_format == AUDIO_FORMAT_AAC && equals(
        tag.aac_packet_type,
        AAC_PACKET_TYPE_SEQUENCE_HEADER,
    ) {
        put_bytes(&mut p.extradata, tag.body.as_slice());
        assert(p.extradata@ =~= tag.body@);
    }
    p
}

/// The parameters of a stream that starts with the given video tag.
pub fn video_codec_params(tag: &VideoTag) -> (p: CodecParameters)
    ensures
        params_view(p) == video_params(tag@),
{
    let mut p = CodecParameters::video(video_codec_id_for_tag(tag));
    assert(p.extradata@ =~= Seq::empty());
    if tag.is_avc_sequence_header() || tag.is_ex_sequence_header() {
        put_bytes(&mut p.extradata, tag.body.as_slice());
        assert(p.extradata@ =~= tag.body@);
    }
    p
}

} // verus!
