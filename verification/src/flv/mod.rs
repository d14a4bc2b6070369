//! The payloads of audio and video messages, laid out as FLV tags.
//!
//! * [`VideoTag`]: frame type, codec and body. For H.264 the first video
//!   message is a sequence header, every later one holds length-prefixed NAL
//!   units.
//! * [`AudioTag`]: format, rate, size, channels and body. For AAC the first
//!   audio message is the decoder configuration.
//!
//! Both have an extended form, where a FourCC names the codec.

pub mod audio;
pub mod audio_tracks;
pub mod audio_channel;
pub mod audio_channel_mask;
pub mod color_info;
pub mod ex_header;
pub mod format;
pub mod metadata;
pub mod mod_ex;
pub mod multichannel;
pub mod multitrack;
pub mod tags;
pub mod tracks;
pub mod video;
pub mod video_tracks;

use vstd::prelude::*;

pub use self::audio::{
    build_audio, build_audio_message, build_silence_audio, is_silence_payload, parse_audio,
    parse_audio_message, AudioMessage, AudioTag,
};
pub use self::color_info::{ColorConfig, ColorInfo, HdrCll, HdrMdcv};
pub use self::metadata::OnMetaData;
pub use self::mod_ex::ModEx;
pub use self::multichannel::{MultichannelConfig, MultichannelConfigOrder};
pub use self::multitrack::{Multitrack, MultitrackTrack};
pub use self::video::{build_video, parse_video, VideoTag};

verus! {

pub const VIDEO_FRAME_KEYFRAME: u8 = 1;

pub const VIDEO_FRAME_INTER: u8 = 2;

/// H.263 only.
pub const VIDEO_FRAME_DISPOSABLE: u8 = 3;

pub const VIDEO_FRAME_GENERATED_KEY: u8 = 4;

pub const VIDEO_FRAME_INFO: u8 = 5;

/// A frame without coded video: its body is one command byte. The same value
/// as [`VIDEO_FRAME_INFO`].
pub const VIDEO_FRAME_COMMAND: u8 = 5;

/// A run of frames of a client-side seek begins.
pub const VIDEO_COMMAND_START_SEEK: u8 = 0;

/// A run of frames of a client-side seek ends.
pub const VIDEO_COMMAND_END_SEEK: u8 = 1;

pub const VIDEO_CODEC_H263: u8 = 2;

pub const VIDEO_CODEC_SCREEN: u8 = 3;

pub const VIDEO_CODEC_VP6: u8 = 4;

pub const VIDEO_CODEC_VP6A: u8 = 5;

pub const VIDEO_CODEC_SCREEN_V2: u8 = 6;

pub const VIDEO_CODEC_AVC: u8 = 7;

pub const AVC_PACKET_TYPE_SEQUENCE_HEADER: u8 = 0;

pub const AVC_PACKET_TYPE_NALU: u8 = 1;

pub const AVC_PACKET_TYPE_END_OF_SEQUENCE: u8 = 2;

/// The bit of the first byte that marks an extended video header.
pub const VIDEO_IS_EX_HEADER: u8 = 0x80;

pub const EX_PACKET_TYPE_SEQUENCE_START: u8 = 0;

pub const EX_PACKET_TYPE_CODED_FRAMES: u8 = 1;

pub const EX_PACKET_TYPE_SEQUENCE_END: u8 = 2;

/// Coded frames whose composition time is zero and not on the wire.
pub const EX_PACKET_TYPE_CODED_FRAMES_X: u8 = 3;

pub const EX_PACKET_TYPE_METADATA: u8 = 4;

pub const EX_PACKET_TYPE_MPEG2TS_SEQUENCE_START: u8 = 5;

pub const EX_PACKET_TYPE_MULTITRACK: u8 = 6;

pub const EX_PACKET_TYPE_MOD_EX: u8 = 7;

/// A 24-bit nanosecond offset to the message's timestamp.
pub const MOD_EX_TYPE_TIMESTAMP_OFFSET_NANO: u8 = 0;

/// `av01`
pub const FOURCC_AV1: [u8; 4] = [0x61, 0x76, 0x30, 0x31];

/// `vp09`
pub const FOURCC_VP9: [u8; 4] = [0x76, 0x70, 0x30, 0x39];

/// `hvc1`
pub const FOURCC_HEVC: [u8; 4] = [0x68, 0x76, 0x63, 0x31];

/// `vp08`
pub const FOURCC_VP8: [u8; 4] = [0x76, 0x70, 0x30, 0x38];

/// `avc1`
pub const FOURCC_AVC: [u8; 4] = [0x61, 0x76, 0x63, 0x31];

/// `vvc1`
pub const FOURCC_VVC: [u8; 4] = [0x76, 0x76, 0x63, 0x31];

pub const AUDIO_FORMAT_PCM_LE: u8 = 0;

pub const AUDIO_FORMAT_ADPCM: u8 = 1;

pub const AUDIO_FORMAT_MP3: u8 = 2;

pub const AUDIO_FORMAT_PCM_LE_8BIT: u8 = 3;

pub const AUDIO_FORMAT_NELLYMOSER_16K_MONO: u8 = 4;

pub const AUDIO_FORMAT_NELLYMOSER_8K_MONO: u8 = 5;

pub const AUDIO_FORMAT_NELLYMOSER: u8 = 6;

pub const AUDIO_FORMAT_G711_ALAW: u8 = 7;

pub const AUDIO_FORMAT_G711_MULAW: u8 = 8;

/// The sound format that marks an extended audio header.
pub const AUDIO_FORMAT_EX_HEADER: u8 = 9;

pub const AUDIO_FORMAT_AAC: u8 = 10;

pub const AUDIO_FORMAT_SPEEX: u8 = 11;

pub const AUDIO_PACKET_TYPE_SEQUENCE_START: u8 = 0;

pub const AUDIO_PACKET_TYPE_CODED_FRAMES: u8 = 1;

pub const AUDIO_PACKET_TYPE_SEQUENCE_END: u8 = 2;

pub const AUDIO_PACKET_TYPE_MULTICHANNEL_CONFIG: u8 = 4;

pub const AUDIO_PACKET_TYPE_MULTITRACK: u8 = 5;

pub const AUDIO_PACKET_TYPE_MOD_EX: u8 = 7;

/// `ac-3`
pub const FOURCC_AC3: [u8; 4] = [0x61, 0x63, 0x2d, 0x33];

/// `ec-3`
pub const FOURCC_EAC3: [u8; 4] = [0x65, 0x63, 0x2d, 0x33];

/// `Opus`
pub const FOURCC_OPUS: [u8; 4] = [0x4f, 0x70, 0x75, 0x73];

/// `.mp3`
pub const FOURCC_MP3: [u8; 4] = [0x2e, 0x6d, 0x70, 0x33];

/// `fLaC`
pub const FOURCC_FLAC: [u8; 4] = [0x66, 0x4c, 0x61, 0x43];

/// `mp4a`
pub const FOURCC_AAC: [u8; 4] = [0x6d, 0x70, 0x34, 0x61];

pub const AAC_PACKET_TYPE_SEQUENCE_HEADER: u8 = 0;

pub const AAC_PACKET_TYPE_RAW: u8 = 1;

pub const AUDIO_CHANNEL_ORDER_UNSPECIFIED: u8 = 0;

pub const AUDIO_CHANNEL_ORDER_NATIVE: u8 = 1;

pub const AUDIO_CHANNEL_ORDER_CUSTOM: u8 = 2;

pub const AV_MULTITRACK_TYPE_ONE_TRACK: u8 = 0;

pub const AV_MULTITRACK_TYPE_MANY_TRACKS: u8 = 1;

pub const AV_MULTITRACK_TYPE_MANY_TRACKS_MANY_CODECS: u8 = 2;

/// Whether two FourCCs are the same.
pub fn same_fourcc(a: &[u8; 4], b: &[u8; 4]) -> (same: bool)
    ensures
        same == (a@ == b@),
{
    let same = a[0] == b[0] && a[1] == b[1] && a[2] == b[2] && a[3] == b[3];
    assert(same ==> a@ =~= b@);
    same
}

/// Whether two optional FourCCs are the same.
pub fn same_fourcc_opt(a: &Option<[u8; 4]>, b: &Option<[u8; 4]>) -> (same: bool)
    ensures
        same == (fourcc_view(*a) == fourcc_view(*b)),
{
    match (a, b) {
        (None, None) => true,
        (Some(x), Some(y)) => same_fourcc(x, y),
        _ => false,
    }
}

/// An optional FourCC as its bytes.
pub open spec fn fourcc_view(f: Option<[u8; 4]>) -> Option<Seq<u8>> {
    match f {
        Some(a) => Some(a@),
        None => None,
    }
}

/// The FourCC at offset `i`.
pub fn get_fourcc(s: &[u8], i: usize) -> (f: [u8; 4])
    requires
        i + 4 <= s@.len(),
    ensures
        f@ == s@.subrange(i as int, i + 4),
{
    let f = [s[i], s[i + 1], s[i + 2], s[i + 3]];
    assert(f@ =~= s@.subrange(i as int, i + 4));
    f
}

/// Append a FourCC.
pub fn put_fourcc(out: &mut Vec<u8>, f: &[u8; 4])
    ensures
        final(out)@ == old(out)@ + f@,
{
    out.push(f[0]);
    out.push(f[1]);
    out.push(f[2]);
    out.push(f[3]);
    assert(out@ =~= old(out)@ + f@);
}

/// A signed 24-bit value, from the value of its bits.
pub open spec fn sign_extended(raw: int) -> int {
    if raw >= 0x80_0000 {
        raw - 0x100_0000
    } else {
        raw
    }
}

/// A signed 24-bit value, from the value of its bits.
pub fn sign_extend_si24(raw: u32) -> (v: i32)
    requires
        raw < 0x100_0000,
    ensures
        v == sign_extended(raw as int),
{
    if raw >= 0x80_0000 {
        raw as i32 - 0x100_0000
    } else {
        raw as i32
    }
}

/// The low 24 bits of a signed value.
pub open spec fn si24_bits(v: i32) -> u32 {
    (v as int % 0x100_0000) as u32
}

/// The low 24 bits of a signed value.
pub fn low_24_bits(v: i32) -> (raw: u32)
    ensures
        raw == si24_bits(v),
{
    if v >= 0 {
        v as u32 % 0x100_0000
    } else {
        let m: u32 = (-(v + 1)) as u32;
        0xFF_FFFF - m % 0x100_0000
    }
}

} // verus!
