//! The types of `oxideav_core` that packets and streams are made of.
//!
//! Most are declared with their fields. Those of which nothing is read or written
//! here are declared without.

use vstd::prelude::*;
use oxideav_core::{CodecId, CodecParameters, Packet, StreamInfo, TimeBase};
#[allow(unused_imports)]
use oxideav_core::{
    ChannelLayout, CodecTag, ColorRange, ColorSignal, DecoderLimits, LayerInfo, MediaType,
    MetadataBlob, PixelFormat, Rational, SampleFormat,
};

verus! {

/// `oxideav_core::CodecId`: the name of a codec.
#[verifier::external_type_specification]
pub struct ExCodecId(oxideav_core::CodecId);

/// `oxideav_core::Rational`: a numerator and a denominator.
#[verifier::external_type_specification]
pub struct ExRational(oxideav_core::Rational);

/// `oxideav_core::TimeBase`: seconds per tick.
#[verifier::external_type_specification]
pub struct ExTimeBase(oxideav_core::TimeBase);

/// `oxideav_core::packet::PacketFlags`: what is to be known of a packet.
#[verifier::external_type_specification]
pub struct ExPacketFlags(oxideav_core::packet::PacketFlags);

/// `oxideav_core::Packet`: a chunk of coded data of one stream.
#[verifier::external_type_specification]
pub struct ExPacket(oxideav_core::Packet);

/// `oxideav_core::MediaType`: what a stream holds.
#[verifier::external_type_specification]
pub struct ExMediaType(oxideav_core::MediaType);

/// `oxideav_core::SampleFormat`, a field of the codec parameters.
#[verifier::external_type_specification]
#[verifier::external_body]
pub struct ExSampleFormat(oxideav_core::SampleFormat);

/// `oxideav_core::ChannelLayout`, a field of the codec parameters.
#[verifier::external_type_specification]
#[verifier::external_body]
pub struct ExChannelLayout(oxideav_core::ChannelLayout);

/// `oxideav_core::PixelFormat`, a field of the codec parameters.
#[verifier::external_type_specification]
#[verifier::external_body]
pub struct ExPixelFormat(oxideav_core::PixelFormat);

/// `oxideav_core::CodecOptions`, a field of the codec parameters.
#[verifier::external_type_specification]
#[verifier::external_body]
pub struct ExCodecOptions(oxideav_core::CodecOptions);

/// `oxideav_core::DecoderLimits`: what a decoder may use up.
#[verifier::external_type_specification]
pub struct ExDecoderLimits(oxideav_core::DecoderLimits);

/// `oxideav_core::CodecTag`, a field of the codec parameters.
#[verifier::external_type_specification]
#[verifier::external_body]
pub struct ExCodecTag(oxideav_core::CodecTag);

/// `oxideav_core::ColorRange`: which codes of a sample are colours.
#[verifier::external_type_specification]
pub struct ExColorRange(oxideav_core::ColorRange);

/// `oxideav_core::ColorPrimaries`: a code point.
#[verifier::external_type_specification]
pub struct ExColorPrimaries(oxideav_core::ColorPrimaries);

/// `oxideav_core::TransferCharacteristics`: a code point.
#[verifier::external_type_specification]
pub struct ExTransferCharacteristics(oxideav_core::TransferCharacteristics);

/// `oxideav_core::MatrixCoefficients`: a code point.
#[verifier::external_type_specification]
pub struct ExMatrixCoefficients(oxideav_core::MatrixCoefficients);

/// `oxideav_core::ColorSignal`: what the colours of a stream mean.
#[verifier::external_type_specification]
pub struct ExColorSignal(oxideav_core::ColorSignal);

/// `oxideav_core::LayerInfo`, an element of the codec parameters.
#[verifier::external_type_specification]
#[verifier::external_body]
pub struct ExLayerInfo(oxideav_core::LayerInfo);

/// `oxideav_core::MetadataBlob`, an element of the codec parameters.
#[verifier::external_type_specification]
#[verifier::external_body]
pub struct ExMetadataBlob(oxideav_core::MetadataBlob);

/// `oxideav_core::CodecParameters`: what a decoder has to know of a stream.
#[verifier::external_type_specification]
pub struct ExCodecParameters(oxideav_core::CodecParameters);

/// `oxideav_core::StreamInfo`: one stream.
#[verifier::external_type_specification]
pub struct ExStreamInfo(oxideav_core::StreamInfo);

/// The id of the codec called `name`, by `oxideav_core::CodecId::new`, which keeps
/// the name as it is.
#[verifier::external_body]
pub(crate) fn codec_called(name: &str) -> (id: CodecId)
    ensures
        id.0@ == name@,
{
    CodecId::new(name)
}

/// `oxideav_core::TimeBase::new` makes the time base of `num` over `den` seconds,
/// both kept as they are.
pub assume_specification[ oxideav_core::TimeBase::new ](num: i64, den: i64) -> (t: oxideav_core::TimeBase)
    ensures
        t.0.num == num,
        t.0.den == den,
;

/// The options that `oxideav_core::CodecOptions` holds: keys with their values, in the
/// order in which they were set.
pub uninterp spec fn option_entries(o: oxideav_core::CodecOptions) -> Seq<(Seq<char>, Seq<char>)>;

/// The mathematical view of decoder limits.
pub struct LimitsView {
    pub pixels_per_frame: u64,
    pub alloc_bytes_per_frame: u64,
    pub alloc_count_per_frame: u32,
    pub arenas_in_flight: u8,
    pub audio_seconds_per_packet: u32,
}

/// The view of decoder limits.
pub open spec fn limits_view(l: DecoderLimits) -> LimitsView {
    LimitsView {
        pixels_per_frame: l.max_pixels_per_frame,
        alloc_bytes_per_frame: l.max_alloc_bytes_per_frame,
        alloc_count_per_frame: l.max_alloc_count_per_frame,
        arenas_in_flight: l.max_arenas_in_flight,
        audio_seconds_per_packet: l.max_decoded_audio_seconds_per_packet,
    }
}

/// The mathematical view of a colour signal: the range, and the code points.
pub struct ColorView {
    pub range: ColorRange,
    pub primaries: u8,
    pub transfer: u8,
    pub matrix: u8,
}

/// The view of a colour signal.
pub open spec fn color_view(c: ColorSignal) -> ColorView {
    ColorView {
        range: c.range,
        primaries: c.primaries.0,
        transfer: c.transfer.0,
        matrix: c.matrix.0,
    }
}

/// The mathematical view of codec parameters.
pub struct ParamsView {
    pub codec: Seq<char>,
    pub media_type: MediaType,
    pub sample_rate: Option<u32>,
    pub channels: Option<u16>,
    pub sample_format: Option<SampleFormat>,
    pub channel_layout: Option<ChannelLayout>,
    pub width: Option<u32>,
    pub height: Option<u32>,
    pub pixel_format: Option<PixelFormat>,
    pub frame_rate: Option<Rational>,
    pub extradata: Seq<u8>,
    pub bit_rate: Option<u64>,
    pub options: Seq<(Seq<char>, Seq<char>)>,
    pub limits: LimitsView,
    pub device_index: Option<u32>,
    pub tag: Option<CodecTag>,
    pub language: Option<Seq<char>>,
    pub color_signal: ColorView,
    pub layers: Seq<LayerInfo>,
    pub blobs: Seq<MetadataBlob>,
}

/// The view of codec parameters.
pub open spec fn params_view(p: CodecParameters) -> ParamsView {
    ParamsView {
        codec: p.codec_id.0@,
        media_type: p.media_type,
        sample_rate: p.sample_rate,
        channels: p.channels,
        sample_format: p.sample_format,
        channel_layout: p.channel_layout,
        width: p.width,
        height: p.height,
        pixel_format: p.pixel_format,
        frame_rate: p.frame_rate,
        extradata: p.extradata@,
        bit_rate: p.bit_rate,
        options: option_entries(p.options),
        limits: limits_view(p.limits),
        device_index: p.device_index,
        tag: p.tag,
        language: match p.language {
            Some(l) => Some(l@),
            None => None,
        },
        color_signal: color_view(p.color_signal),
        layers: p.layers@,
        blobs: p.blobs@,
    }
}

/// Parameters with nothing set but the codec and the kind of media. The limits are
/// those that a decoder has unless it is told otherwise, and the colour signal says
/// nothing: 2 is the code point for that.
pub open spec fn bare_params(codec: Seq<char>, media_type: MediaType) -> ParamsView {
    ParamsView {
        codec,
        media_type,
        sample_rate: None,
        channels: None,
        sample_format: None,
        channel_layout: None,
        width: None,
        height: None,
        pixel_format: None,
        frame_rate: None,
        extradata: Seq::empty(),
        bit_rate: None,
        options: Seq::empty(),
        limits: LimitsView {
            pixels_per_frame: 0x4000_0000,
            alloc_bytes_per_frame: 0x4000_0000,
            alloc_count_per_frame: 1_000_000,
            arenas_in_flight: 8,
            audio_seconds_per_packet: 60,
        },
        device_index: None,
        tag: None,
        language: None,
        color_signal: ColorView {
            range: ColorRange::Unspecified,
            primaries: 2,
            transfer: 2,
            matrix: 2,
        },
        layers: Seq::empty(),
        blobs: Seq::empty(),
    }
}

/// `oxideav_core::CodecParameters::audio` makes parameters of audio with the given
/// codec and nothing else set: no options, the default limits, and a colour signal
/// that says nothing.
pub assume_specification[ oxideav_core::CodecParameters::audio ](
    codec_id: oxideav_core::CodecId,
) -> (p: oxideav_core::CodecParameters)
    ensures
        p.codec_id == codec_id,
        option_entries(p.options).len() == 0,
        params_view(p) == bare_params(codec_id.0@, MediaType::Audio),
;

/// `oxideav_core::CodecParameters::video` makes parameters of video with the given
/// codec and nothing else set: no options, the default limits, and a colour signal
/// that says nothing.
pub assume_specification[ oxideav_core::CodecParameters::video ](
    codec_id: oxideav_core::CodecId,
) -> (p: oxideav_core::CodecParameters)
    ensures
        p.codec_id == codec_id,
        option_entries(p.options).len() == 0,
        params_view(p) == bare_params(codec_id.0@, MediaType::Video),
;

/// The mathematical view of a stream.
pub struct StreamView {
    pub index: u32,
    pub time_base: (i64, i64),
    pub duration: Option<i64>,
    pub start_time: Option<i64>,
    pub params: ParamsView,
}

/// The numerator and denominator of a time base.
pub open spec fn time_base_view(t: TimeBase) -> (i64, i64) {
    (t.0.num, t.0.den)
}

/// The view of a stream.
pub open spec fn stream_view(s: StreamInfo) -> StreamView {
    StreamView {
        index: s.index,
        time_base: time_base_view(s.time_base),
        duration: s.duration,
        start_time: s.start_time,
        params: params_view(s.params),
    }
}

/// The views of streams.
pub open spec fn stream_views(s: Seq<StreamInfo>) -> Seq<StreamView> {
    Seq::new(s.len(), |i: int| stream_view(s[i]))
}

/// The mathematical view of a packet.
pub struct PacketView {
    pub stream_index: u32,
    pub time_base: (i64, i64),
    pub pts: Option<i64>,
    pub dts: Option<i64>,
    pub duration: Option<i64>,
    pub keyframe: bool,
    pub header: bool,
    pub corrupt: bool,
    pub discard: bool,
    pub unit_boundary: bool,
    pub data: Seq<u8>,
}

/// The view of a packet.
pub open spec fn packet_view(p: Packet) -> PacketView {
    PacketView {
        stream_index: p.stream_index,
        time_base: time_base_view(p.time_base),
        pts: p.pts,
        dts: p.dts,
        duration: p.duration,
        keyframe: p.flags.keyframe,
        header: p.flags.header,
        corrupt: p.flags.corrupt,
        discard: p.flags.discard,
        unit_boundary: p.flags.unit_boundary,
        data: p.data@,
    }
}

/// The views of packets.
pub open spec fn packet_views(s: Seq<Packet>) -> Seq<PacketView> {
    Seq::new(s.len(), |i: int| packet_view(s[i]))
}

} // verus!
