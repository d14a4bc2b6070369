//! Video tags.

use vstd::prelude::*;
use crate::error::{other, Result};
#[allow(unused_imports)]
use crate::error::{outcome, Fault};
use crate::flv::ex_header::{build_prelude, parse_prelude};
#[allow(unused_imports)]
use crate::flv::ex_header::{
    fourcc_bytes, head_packet_type, lemma_bare_prelude_exact, lemma_parsed_prelude_fits,
    lemma_prelude_round_trip, outer_packet_type, prelude_bytes, prelude_fits, prelude_of,
    MediumView, PreludeView,
};
use crate::flv::mod_ex::{total_offset_nano, ModEx};
#[allow(unused_imports)]
use crate::flv::mod_ex::{nano_total, ModExView};
use crate::flv::multitrack::Multitrack;
#[allow(unused_imports)]
use crate::flv::multitrack::{
    law_multitrack_parse_is_exact, law_multitrack_round_trip, law_parsed_tracks_fit,
    multitrack_of, tracks_fit, MultitrackView,
};
use crate::flv::{
    low_24_bits, same_fourcc, sign_extend_si24, AVC_PACKET_TYPE_NALU,
    AVC_PACKET_TYPE_SEQUENCE_HEADER, EX_PACKET_TYPE_CODED_FRAMES, EX_PACKET_TYPE_METADATA,
    EX_PACKET_TYPE_MOD_EX, EX_PACKET_TYPE_MPEG2TS_SEQUENCE_START, EX_PACKET_TYPE_MULTITRACK,
    EX_PACKET_TYPE_SEQUENCE_END, EX_PACKET_TYPE_SEQUENCE_START, FOURCC_AV1, FOURCC_AVC, FOURCC_HEVC,
    FOURCC_VVC, VIDEO_CODEC_AVC, VIDEO_FRAME_COMMAND, VIDEO_FRAME_GENERATED_KEY, VIDEO_FRAME_INTER,
    VIDEO_FRAME_KEYFRAME,
};
#[allow(unused_imports)]
use crate::flv::{fourcc_view, si24_bits, sign_extended};
#[allow(unused_imports)]
use crate::model::{opt_view, views};
use crate::wire::{copy_range, get_be24, put_be24, put_bytes};
#[allow(unused_imports)]
use crate::wire::{be24, be24_bytes, from, lemma_be24, lemma_be24_exact};

verus! {

/// The payload of a video message.
#[derive(Debug, Clone, PartialEq, Eq)]
pub struct VideoTag {
    pub frame_type: u8,
    /// 0 in the extended form.
    pub codec_id: u8,
    /// H.264 in the plain form.
    pub avc_packet_type: Option<u8>,
    /// Offset from decoding to presentation, in milliseconds.
    pub composition_time: i32,
    pub body: Vec<u8>,
    /// Extended form: what the body holds.
    pub ex_packet_type: Option<u8>,
    /// Extended form: the codec.
    pub fourcc: Option<[u8; 4]>,
    pub mod_ex: Vec<ModEx>,
    pub multitrack: Option<Multitrack>,
}

/// The mathematical view of [`VideoTag`].
pub struct VideoView {
    pub frame_type: u8,
    pub codec_id: u8,
    pub avc_packet_type: Option<u8>,
    pub composition_time: i32,
    pub body: Seq<u8>,
    pub ex_packet_type: Option<u8>,
    pub fourcc: Option<Seq<u8>>,
    pub mod_ex: Seq<ModExView>,
    pub multitrack: Option<MultitrackView>,
}

impl View for VideoTag {
    type V = VideoView;

    open spec fn view(&self) -> VideoView {
        VideoView {
            frame_type: self.frame_type,
            codec_id: self.codec_id,
            avc_packet_type: self.avc_packet_type,
            composition_time: self.composition_time,
            body: self.body@,
            ex_packet_type: self.ex_packet_type,
            fourcc: fourcc_view(self.fourcc),
            mod_ex: views(self.mod_ex@),
            multitrack: opt_view(self.multitrack),
        }
    }
}

// ---------------------------------------------------------------------------
// The model
// ---------------------------------------------------------------------------

/// The packet types of extended video headers.
pub open spec fn video_medium() -> MediumView {
    MediumView {
        multitrack: EX_PACKET_TYPE_MULTITRACK,
        mod_ex: EX_PACKET_TYPE_MOD_EX,
        what: "video"@,
    }
}

/// Whether an extended tag holds a command instead of coded video.
pub open spec fn holds_command(frame_type: u8, packet_type: u8) -> bool {
    frame_type == VIDEO_FRAME_COMMAND && packet_type != EX_PACKET_TYPE_METADATA
}

/// Whether a composition time stands between the FourCC and the body: with coded
/// frames of the three codecs that are made of NAL units.
pub open spec fn has_cts(frame_type: u8, packet_type: u8, fourcc: Seq<u8>) -> bool {
    &&& !holds_command(frame_type, packet_type)
    &&& packet_type == EX_PACKET_TYPE_CODED_FRAMES
    &&& fourcc == FOURCC_HEVC@ || fourcc == FOURCC_AVC@ || fourcc == FOURCC_VVC@
}

/// The signed 24-bit value at offset `i`.
pub open spec fn si24(s: Seq<u8>, i: int) -> i32 {
    sign_extended(be24(s, i) as int) as i32
}

/// A tag of the extended form, from what stands before its body.
pub open spec fn extended_video(s: Seq<u8>, p: PreludeView) -> core::result::Result<
    VideoView,
    Fault,
> {
    let frame_type = s[0] / 16 % 8;
    let cts = p.multitrack_type is None && has_cts(frame_type, p.packet_type, p.fourcc->0);
    let tag = VideoView {
        frame_type,
        codec_id: 0,
        avc_packet_type: None,
        composition_time: if cts {
            si24(s, p.end)
        } else {
            0
        },
        body: Seq::empty(),
        ex_packet_type: Some(p.packet_type),
        fourcc: p.fourcc,
        mod_ex: p.mod_ex,
        multitrack: None,
    };
    match p.multitrack_type {
        Some(mode) => match multitrack_of(from(s, p.end), mode) {
            Err(e) => Err(e),
            Ok(m) => Ok(VideoView { multitrack: Some(m), ..tag }),
        },
        None => if cts && s.len() < p.end + 3 {
            Err(Fault::Other("Enhanced RTMP / HEVC CodedFrames: need 3 bytes for SI24 CTS"@))
        } else {
            Ok(
                VideoView {
                    body: from(
                        s,
                        if cts {
                            p.end + 3
                        } else {
                            p.end
                        },
                    ),
                    ..tag
                },
            )
        },
    }
}

/// A tag of the plain form. A command has one byte for every codec; otherwise
/// H.264 has a packet type and a composition time before the body.
pub open spec fn plain_video(s: Seq<u8>) -> core::result::Result<VideoView, Fault> {
    let tag = VideoView {
        frame_type: s[0] / 16,
        codec_id: s[0] % 16,
        avc_packet_type: None,
        composition_time: 0,
        body: from(s, 1),
        ex_packet_type: None,
        fourcc: None,
        mod_ex: Seq::empty(),
        multitrack: None,
    };
    if tag.frame_type == VIDEO_FRAME_COMMAND || tag.codec_id != VIDEO_CODEC_AVC {
        Ok(tag)
    } else if s.len() < 5 {
        Err(Fault::Other("FLV/AVC tag: need 5+ bytes"@))
    } else {
        Ok(
            VideoView {
                avc_packet_type: Some(s[1]),
                composition_time: si24(s, 2),
                body: from(s, 5),
                ..tag
            },
        )
    }
}

/// The tag that a payload holds.
pub open spec fn video_of(s: Seq<u8>) -> core::result::Result<VideoView, Fault> {
    if s.len() == 0 {
        Err(Fault::Other("FLV video tag: empty"@))
    } else if s[0] >= 0x80 {
        match prelude_of(s, video_medium()) {
            Err(e) => Err(e),
            Ok(p) => extended_video(s, p),
        }
    } else {
        plain_video(s)
    }
}

impl VideoView {
    /// Whether this tag takes the extended form.
    pub open spec fn is_extended(self) -> bool {
        self.fourcc is Some || self.multitrack is Some
    }

    /// The packet type of an extended tag; coded frames if it has none.
    pub open spec fn packet_type(self) -> u8 {
        match self.ex_packet_type {
            Some(p) => p,
            None => EX_PACKET_TYPE_CODED_FRAMES,
        }
    }

    /// The first byte of an extended tag.
    pub open spec fn extended_head(self) -> u8 {
        (0x80 + self.frame_type % 8 * 16 + head_packet_type(
            self.mod_ex,
            outer_packet_type(self.multitrack, self.packet_type(), video_medium()),
            video_medium(),
        ) % 16) as u8
    }

    /// What follows the FourCC of an extended tag.
    pub open spec fn extended_body(self) -> Seq<u8> {
        match self.multitrack {
            Some(m) => m.encoded(),
            None => (if has_cts(self.frame_type, self.packet_type(), fourcc_bytes(self.fourcc)) {
                be24_bytes(si24_bits(self.composition_time))
            } else {
                Seq::empty()
            }) + self.body,
        }
    }

    /// The payload of this tag.
    pub open spec fn encoded(self) -> Seq<u8> {
        if self.is_extended() {
            seq![self.extended_head()] + prelude_bytes(
                self.mod_ex,
                self.packet_type(),
                self.multitrack,
                self.fourcc,
                video_medium(),
            ) + self.extended_body()
        } else {
            seq![(self.frame_type % 16 * 16 + self.codec_id % 16) as u8] + (if self.codec_id
                == VIDEO_CODEC_AVC && self.frame_type != VIDEO_FRAME_COMMAND {
                seq![
                    match self.avc_packet_type {
                        Some(p) => p,
                        None => AVC_PACKET_TYPE_NALU,
                    },
                ] + be24_bytes(si24_bits(self.composition_time))
            } else {
                Seq::empty()
            }) + self.body
        }
    }
}

// ---------------------------------------------------------------------------
// The code
// ---------------------------------------------------------------------------

fn needs_cts(frame_type: u8, packet_type: u8, fourcc: &[u8; 4]) -> (b: bool)
    ensures
        b == has_cts(frame_type, packet_type, fourcc@),
{
    let command = frame_type == VIDEO_FRAME_COMMAND && packet_type != EX_PACKET_TYPE_METADATA;
    !command && packet_type == EX_PACKET_TYPE_CODED_FRAMES && (same_fourcc(fourcc, &FOURCC_HEVC)
        || same_fourcc(fourcc, &FOURCC_AVC) || same_fourcc(fourcc, &FOURCC_VVC))
}

fn parse_extended(payload: &[u8]) -> (r: Result<VideoTag>)
    requires
        payload@.len() > 0,
        payload@[0] >= 0x80,
    ensures
        outcome(r) == video_of(payload@),
{
    let n: usize = payload.len();
    let frame_type: u8 = payload[0] / 16 % 8;
    let p = match parse_prelude(payload, EX_PACKET_TYPE_MULTITRACK, EX_PACKET_TYPE_MOD_EX, "video") {
        Ok(p) => p,
        Err(e) => {
            return Err(e);
        },
    };
    let none: Vec<u8> = Vec::new();
    assert(none@ =~= Seq::empty());
    if let Some(mode) = p.multitrack_type {
        let list = vstd::slice::slice_subrange(payload, p.end, n);
        assert(list@ == from(payload@, p.end as int));
        return match Multitrack::parse(list, mode) {
            Err(e) => Err(e),
            Ok(m) => Ok(
                VideoTag {
                    frame_type,
                    codec_id: 0,
                    avc_packet_type: None,
                    composition_time: 0,
                    body: none,
                    ex_packet_type: Some(p.packet_type),
                    fourcc: p.fourcc,
                    mod_ex: p.mod_ex,
                    multitrack: Some(m),
                },
            ),
        };
    }
    let mut start: usize = p.end;
    let mut composition_time: i32 = 0;
    let cts = match &p.fourcc {
        Some(f) => needs_cts(frame_type, p.packet_type, f),
        None => false,
    };
    if cts {
        if n - start < 3 {
            return Err(other("Enhanced RTMP / HEVC CodedFrames: need 3 bytes for SI24 CTS"));
        }
        composition_time = sign_extend_si24(get_be24(payload, start));
        start = start + 3;
    }
    Ok(
        VideoTag {
            frame_type,
            codec_id: 0,
            avc_packet_type: None,
            composition_time,
            body: copy_range(payload, start, n),
            ex_packet_type: Some(p.packet_type),
            fourcc: p.fourcc,
            mod_ex: p.mod_ex,
            multitrack: None,
        },
    )
}

/// The tag that the payload of a video message holds.
pub fn parse_video(payload: &[u8]) -> (r: Result<VideoTag>)
    ensures
        outcome(r) == video_of(payload@),
{
    let n: usize = payload.len();
    if n == 0 {
        return Err(other("FLV video tag: empty"));
    }
    let b0: u8 = payload[0];
    if b0 >= 0x80 {
        return parse_extended(payload);
    }
    let frame_type: u8 = b0 / 16;
    let codec_id: u8 = b0 % 16;
    let mut avc_packet_type: Option<u8> = None;
    let mut composition_time: i32 = 0;
    let mut start: usize = 1;
    if frame_type != VIDEO_FRAME_COMMAND && codec_id == VIDEO_CODEC_AVC {
        if n < 5 {
            return Err(other("FLV/AVC tag: need 5+ bytes"));
        }
        avc_packet_type = Some(payload[1]);
        composition_time = sign_extend_si24(get_be24(payload, 2));
        start = 5;
    }
    let mod_ex: Vec<ModEx> = Vec::new();
    assert(views(mod_ex@) =~= Seq::empty());
    Ok(
        VideoTag {
            frame_type,
            codec_id,
            avc_packet_type,
            composition_time,
            body: copy_range(payload, start, n),
            ex_packet_type: None,
            fourcc: None,
            mod_ex,
            multitrack: None,
        },
    )
}

fn build_extended(tag: &VideoTag) -> (out: Vec<u8>)
    requires
        tag@.is_extended(),
    ensures
        out@ == tag@.encoded(),
{
    let packet_type: u8 = match tag.ex_packet_type {
        Some(p) => p,
        None => EX_PACKET_TYPE_CODED_FRAMES,
    };
    let outer: u8 = if tag.multitrack.is_some() {
        EX_PACKET_TYPE_MULTITRACK
    } else {
        packet_type
    };
    let first: u8 = if tag.mod_ex.len() == 0 {
        outer
    } else {
        EX_PACKET_TYPE_MOD_EX
    };
    let mut out: Vec<u8> = Vec::new();
    out.push(0x80 + tag.frame_type % 8 * 16 + first % 16);
    build_prelude(
        &mut out,
        &tag.mod_ex,
        packet_type,
        &tag.multitrack,
        &tag.fourcc,
        EX_PACKET_TYPE_MULTITRACK,
        EX_PACKET_TYPE_MOD_EX,
        Ghost(video_medium()),
    );
    let ghost front = out@;
    match &tag.multitrack {
        Some(m) => {
            let list = m.encode();
            put_bytes(&mut out, list.as_slice());
        },
        None => {
            let cts = match &tag.fourcc {
                Some(f) => needs_cts(tag.frame_type, packet_type, f),
                None => false,
            };
            if cts {
                put_be24(&mut out, low_24_bits(tag.composition_time));
            }
            put_bytes(&mut out, tag.body.as_slice());
        },
    }
    assert(out@ =~= front + tag@.extended_body());
    out
}

/// The payload of a video tag. The extended form is taken where there is a
/// FourCC or there are tracks.
pub fn build_video(tag: &VideoTag) -> (out: Vec<u8>)
    ensures
        out@ == tag@.encoded(),
{
    if tag.fourcc.is_some() || tag.multitrack.is_some() {
        return build_extended(tag);
    }
    let mut out: Vec<u8> = Vec::new();
    out.push(tag.frame_type % 16 * 16 + tag.codec_id % 16);
    if tag.codec_id == VIDEO_CODEC_AVC && tag.frame_type != VIDEO_FRAME_COMMAND {
        out.push(
            match tag.avc_packet_type {
                Some(p) => p,
                None => AVC_PACKET_TYPE_NALU,
            },
        );
        put_be24(&mut out, low_24_bits(tag.composition_time));
    }
    put_bytes(&mut out, tag.body.as_slice());
    assert(out@ =~= tag@.encoded());
    out
}

/// An extended tag with nothing but these parts.
pub open spec fn extended_tag(
    frame_type: u8,
    packet_type: u8,
    fourcc: Option<Seq<u8>>,
    body: Seq<u8>,
) -> VideoView {
    VideoView {
        frame_type,
        codec_id: 0,
        avc_packet_type: None,
        composition_time: 0,
        body,
        ex_packet_type: Some(packet_type),
        fourcc,
        mod_ex: Seq::empty(),
        multitrack: None,
    }
}

/// Whether an extended tag is of the given packet type.
pub open spec fn is_of_type(t: VideoView, packet_type: u8) -> bool {
    t.fourcc is Some && t.ex_packet_type == Some(packet_type)
}

pub(crate) fn extended(frame_type: u8, packet_type: u8, fourcc: Option<[u8; 4]>, body: Vec<u8>) -> (t: VideoTag)
    ensures
        t@ == extended_tag(frame_type, packet_type, fourcc_view(fourcc), body@),
{
    let mod_ex: Vec<ModEx> = Vec::new();
    assert(views(mod_ex@) =~= Seq::empty());
    VideoTag {
        frame_type,
        codec_id: 0,
        avc_packet_type: None,
        composition_time: 0,
        body,
        ex_packet_type: Some(packet_type),
        fourcc,
        mod_ex,
        multitrack: None,
    }
}

impl VideoTag {
    fn has_type(&self, packet_type: u8) -> (b: bool)
        ensures
            b == is_of_type(self@, packet_type),
    {
        let same = match self.ex_packet_type {
            Some(p) => p == packet_type,
            None => false,
        };
        self.fourcc.is_some() && same
    }

    /// Whether decoding can start here.
    pub fn is_keyframe(&self) -> (b: bool)
        ensures
            b == (self.frame_type == VIDEO_FRAME_KEYFRAME || self.frame_type
                == VIDEO_FRAME_GENERATED_KEY),
    {
        self.frame_type == VIDEO_FRAME_KEYFRAME || self.frame_type == VIDEO_FRAME_GENERATED_KEY
    }

    /// Whether this is the H.264 configuration, in the plain form.
    pub fn is_avc_sequence_header(&self) -> (b: bool)
        ensures
            b == (self.codec_id == VIDEO_CODEC_AVC && self.avc_packet_type == Some(
                AVC_PACKET_TYPE_SEQUENCE_HEADER,
            )),
    {
        let header = match self.avc_packet_type {
            Some(p) => p == AVC_PACKET_TYPE_SEQUENCE_HEADER,
            None => false,
        };
        self.codec_id == VIDEO_CODEC_AVC && header
    }

    /// Whether this is a codec configuration, in the extended form.
    pub fn is_ex_sequence_header(&self) -> (b: bool)
        ensures
            b == is_of_type(self@, EX_PACKET_TYPE_SEQUENCE_START),
    {
        self.has_type(EX_PACKET_TYPE_SEQUENCE_START)
    }

    /// Whether this is a codec configuration as an MPEG-2 TS descriptor.
    pub fn is_ex_mpeg2ts_sequence_start(&self) -> (b: bool)
        ensures
            b == is_of_type(self@, EX_PACKET_TYPE_MPEG2TS_SEQUENCE_START),
    {
        self.has_type(EX_PACKET_TYPE_MPEG2TS_SEQUENCE_START)
    }

    /// The MPEG-2 TS descriptor of an AV1 stream.
    pub fn mpeg2ts_video_descriptor(&self) -> (r: Option<&[u8]>)
        ensures
            match r {
                Some(d) => is_of_type(self@, EX_PACKET_TYPE_MPEG2TS_SEQUENCE_START)
                    && self@.fourcc == Some(FOURCC_AV1@) && d@ == self.body@,
                None => !(is_of_type(self@, EX_PACKET_TYPE_MPEG2TS_SEQUENCE_START)
                    && self@.fourcc == Some(FOURCC_AV1@)),
            },
    {
        let av1 = match &self.fourcc {
            Some(f) => same_fourcc(f, &FOURCC_AV1),
            None => false,
        };
        if self.is_ex_mpeg2ts_sequence_start() && av1 {
            Some(self.body.as_slice())
        } else {
            None
        }
    }

    /// A codec configuration as an MPEG-2 TS descriptor.
    pub fn mpeg2ts_sequence_start_tag(fourcc: [u8; 4], body: Vec<u8>) -> (t: VideoTag)
        ensures
            t@ == extended_tag(
                VIDEO_FRAME_KEYFRAME,
                EX_PACKET_TYPE_MPEG2TS_SEQUENCE_START,
                Some(fourcc@),
                body@,
            ),
    {
        extended(VIDEO_FRAME_KEYFRAME, EX_PACKET_TYPE_MPEG2TS_SEQUENCE_START, Some(fourcc), body)
    }

    /// Whether this tag holds metadata.
    pub fn is_ex_metadata(&self) -> (b: bool)
        ensures
            b == is_of_type(self@, EX_PACKET_TYPE_METADATA),
    {
        self.has_type(EX_PACKET_TYPE_METADATA)
    }

    /// Whether this tag ends a sequence.
    pub fn is_ex_sequence_end(&self) -> (b: bool)
        ensures
            b == is_of_type(self@, EX_PACKET_TYPE_SEQUENCE_END),
    {
        self.has_type(EX_PACKET_TYPE_SEQUENCE_END)
    }

    /// The tag that ends a sequence.
    pub fn sequence_end_tag(fourcc: [u8; 4]) -> (t: VideoTag)
        ensures
            t@ == extended_tag(
                VIDEO_FRAME_INTER,
                EX_PACKET_TYPE_SEQUENCE_END,
                Some(fourcc@),
                Seq::empty(),
            ),
    {
        let none: Vec<u8> = Vec::new();
        assert(none@ =~= Seq::empty());
        extended(VIDEO_FRAME_INTER, EX_PACKET_TYPE_SEQUENCE_END, Some(fourcc), none)
    }

    /// Whether this tag holds a command instead of coded video.
    pub fn is_command(&self) -> (b: bool)
        ensures
            b == (self.frame_type == VIDEO_FRAME_COMMAND && self.ex_packet_type != Some(
                EX_PACKET_TYPE_METADATA,
            )),
    {
        let metadata = match self.ex_packet_type {
            Some(p) => p == EX_PACKET_TYPE_METADATA,
            None => false,
        };
        self.frame_type == VIDEO_FRAME_COMMAND && !metadata
    }

    /// The command that this tag holds.
    pub fn video_command(&self) -> (r: Option<u8>)
        ensures
            r == (if self.frame_type == VIDEO_FRAME_COMMAND && self.ex_packet_type != Some(
                EX_PACKET_TYPE_METADATA,
            ) && self.body@.len() > 0 {
                Some(self.body@[0])
            } else {
                None
            }),
    {
        if !self.is_command() || self.body.len() == 0 {
            return None;
        }
        Some(self.body[0])
    }

    /// A command in the plain form.
    pub fn command_tag(codec_id: u8, command: u8) -> (t: VideoTag)
        ensures
            t@ == (VideoView {
                frame_type: VIDEO_FRAME_COMMAND,
                codec_id,
                avc_packet_type: None,
                composition_time: 0,
                body: seq![command],
                ex_packet_type: None,
                fourcc: None,
                mod_ex: Seq::empty(),
                multitrack: None,
            }),
    {
        let mut body: Vec<u8> = Vec::new();
        body.push(command);
        assert(body@ =~= seq![command]);
        let mod_ex: Vec<ModEx> = Vec::new();
        assert(views(mod_ex@) =~= Seq::empty());
        VideoTag {
            frame_type: VIDEO_FRAME_COMMAND,
            codec_id,
            avc_packet_type: None,
            composition_time: 0,
            body,
            ex_packet_type: None,
            fourcc: None,
            mod_ex,
            multitrack: None,
        }
    }

    /// A command in the extended form.
    pub fn command_tag_ex(fourcc: [u8; 4], command: u8) -> (t: VideoTag)
        ensures
            t@ == extended_tag(
                VIDEO_FRAME_COMMAND,
                EX_PACKET_TYPE_CODED_FRAMES,
                Some(fourcc@),
                seq![command],
            ),
    {
        let mut body: Vec<u8> = Vec::new();
        body.push(command);
        assert(body@ =~= seq![command]);
        extended(VIDEO_FRAME_COMMAND, EX_PACKET_TYPE_CODED_FRAMES, Some(fourcc), body)
    }

    /// The nanosecond offset of this tag: the sum over its modifier entries.
    pub fn timestamp_offset_nano(&self) -> (n: u32)
        ensures
            n == nano_total(self@.mod_ex),
    {
        total_offset_nano(&self.mod_ex)
    }

    /// Whether this tag holds several tracks.
    pub fn is_multitrack(&self) -> (b: bool)
        ensures
            b == (self@.multitrack is Some),
    {
        self.multitrack.is_some()
    }

    /// A tag that holds tracks.
    pub fn multitrack_tag(
        frame_type: u8,
        real_packet_type: u8,
        shared_fourcc: Option<[u8; 4]>,
        mt: Multitrack,
    ) -> (t: VideoTag)
        ensures
            t@ == (VideoView {
                multitrack: Some(mt@),
                ..extended_tag(
                    frame_type,
                    real_packet_type,
                    fourcc_view(shared_fourcc),
                    Seq::empty(),
                )
            }),
    {
        let none: Vec<u8> = Vec::new();
        assert(none@ =~= Seq::empty());
        let mut t = extended(frame_type, real_packet_type, shared_fourcc, none);
        t.multitrack = Some(mt);
        t
    }
}

// ---------------------------------------------------------------------------
// Laws
// ---------------------------------------------------------------------------

/// Whether a value fits a signed 24-bit field.
pub open spec fn fits_si24(v: i32) -> bool {
    -0x80_0000 <= v < 0x80_0000
}

/// Whether a tag can be put on the wire as it is: no field is wider than its
/// place, and nothing is set that has no place.
pub open spec fn video_fits(t: VideoView) -> bool {
    &&& t.frame_type < 8
    &&& if t.is_extended() {
        &&& t.codec_id == 0
        &&& t.avc_packet_type is None
        &&& t.ex_packet_type is Some
        &&& prelude_fits(t.mod_ex, t.packet_type(), t.multitrack, t.fourcc, video_medium())
        &&& match t.multitrack {
            Some(m) => tracks_fit(m) && t.body == Seq::<u8>::empty() && t.composition_time == 0,
            None => if has_cts(t.frame_type, t.packet_type(), t.fourcc->0) {
                fits_si24(t.composition_time)
            } else {
                t.composition_time == 0
            },
        }
    } else {
        &&& t.codec_id < 16
        &&& t.ex_packet_type is None
        &&& t.mod_ex == Seq::<ModExView>::empty()
        &&& if t.codec_id == VIDEO_CODEC_AVC && t.frame_type != VIDEO_FRAME_COMMAND {
            t.avc_packet_type is Some && fits_si24(t.composition_time)
        } else {
            t.avc_packet_type is None && t.composition_time == 0
        }
    }
}

proof fn lemma_si24_reads_back(s: Seq<u8>, i: int, v: i32)
    requires
        0 <= i,
        i + 3 <= s.len(),
        s.subrange(i, i + 3) == be24_bytes(si24_bits(v)),
        fits_si24(v),
    ensures
        si24(s, i) == v,
{
    lemma_be24(s, i, si24_bits(v));
}

proof fn lemma_extended_head(t: VideoView)
    requires
        video_fits(t),
        t.is_extended(),
    ensures
        t.extended_head() >= 0x80,
        t.extended_head() / 16 % 8 == t.frame_type,
        t.extended_head() % 16 == head_packet_type(
            t.mod_ex,
            outer_packet_type(t.multitrack, t.packet_type(), video_medium()),
            video_medium(),
        ),
{
}

/// What `t` is read as, once the part before its body is.
#[verifier::spinoff_prover]
#[verifier::rlimit(50)]
proof fn lemma_extended_prelude(t: VideoView) -> (p: PreludeView)
    requires
        video_fits(t),
        t.is_extended(),
    ensures
        t.encoded().len() > 0,
        t.encoded()[0] >= 0x80,
        t.encoded()[0] / 16 % 8 == t.frame_type,
        prelude_of(t.encoded(), video_medium()) == Ok::<PreludeView, Fault>(p),
        p.mod_ex == t.mod_ex,
        p.packet_type == t.packet_type(),
        p.fourcc == t.fourcc,
        p.multitrack_type == match t.multitrack {
            Some(m) => Some(m.multitrack_type),
            None => None,
        },
        0 <= p.end <= t.encoded().len(),
        from(t.encoded(), p.end) == t.extended_body(),
{
    let medium = video_medium();
    let head = t.extended_head();
    let p = prelude_bytes(t.mod_ex, t.packet_type(), t.multitrack, t.fourcc, medium);
    let body = t.extended_body();
    let s = t.encoded();
    lemma_extended_head(t);
    lemma_prelude_round_trip(
        head,
        t.mod_ex,
        t.packet_type(),
        t.multitrack,
        t.fourcc,
        medium,
        body,
    );
    assert(s == seq![head] + p + body);
    assert(s[0] == head);
    assert(from(s, 1 + p.len() as int) =~= body);
    prelude_of(s, medium)->Ok_0
}

#[verifier::spinoff_prover]
#[verifier::rlimit(50)]
proof fn lemma_extended_round_trip(t: VideoView)
    requires
        video_fits(t),
        t.is_extended(),
    ensures
        video_of(t.encoded()) == Ok::<VideoView, Fault>(t),
{
    let s = t.encoded();
    let p = lemma_extended_prelude(t);
    let body = t.extended_body();
    match t.multitrack {
        Some(m) => {
            law_multitrack_round_trip(m);
        },
        None => {
            if has_cts(t.frame_type, t.packet_type(), t.fourcc->0) {
                let bits = be24_bytes(si24_bits(t.composition_time));
                assert(body.subrange(0, 3) =~= bits);
                assert(s.subrange(p.end, p.end + 3) =~= body.subrange(0, 3));
                lemma_si24_reads_back(s, p.end, t.composition_time);
                assert(from(body, 3) =~= t.body);
                assert(from(s, p.end + 3) =~= from(body, 3));
            } else {
                assert(body =~= t.body);
            }
        },
    }
}

#[verifier::spinoff_prover]
#[verifier::rlimit(50)]
proof fn lemma_avc_round_trip(t: VideoView)
    requires
        video_fits(t),
        !t.is_extended(),
        t.codec_id == VIDEO_CODEC_AVC && t.frame_type != VIDEO_FRAME_COMMAND,
    ensures
        video_of(t.encoded()) == Ok::<VideoView, Fault>(t),
{
    let s = t.encoded();
    let head = (t.frame_type * 16 + t.codec_id) as u8;
    assert(head / 16 == t.frame_type && head % 16 == t.codec_id);
    let bits = be24_bytes(si24_bits(t.composition_time));
    let kind = t.avc_packet_type->0;
    assert(s == seq![head] + (seq![kind] + bits) + t.body);
    assert(s[0] == head && s[1] == kind);
    assert(s.subrange(2, 5) =~= bits);
    lemma_si24_reads_back(s, 2, t.composition_time);
    assert(from(s, 5) =~= t.body);
}

#[verifier::spinoff_prover]
#[verifier::rlimit(50)]
proof fn lemma_plain_round_trip(t: VideoView)
    requires
        video_fits(t),
        !t.is_extended(),
    ensures
        video_of(t.encoded()) == Ok::<VideoView, Fault>(t),
{
    if t.codec_id == VIDEO_CODEC_AVC && t.frame_type != VIDEO_FRAME_COMMAND {
        lemma_avc_round_trip(t);
    } else {
        let s = t.encoded();
        let head = (t.frame_type * 16 + t.codec_id) as u8;
        assert(head / 16 == t.frame_type && head % 16 == t.codec_id);
        assert(s == seq![head] + Seq::<u8>::empty() + t.body);
        assert(s[0] == head);
        assert(from(s, 1) =~= t.body);
    }
}

/// A tag that fits reads back as it was written.
pub proof fn law_video_round_trip(t: VideoView)
    requires
        video_fits(t),
    ensures
        video_of(t.encoded()) == Ok::<VideoView, Fault>(t),
{
    if t.is_extended() {
        lemma_extended_round_trip(t);
    } else {
        lemma_plain_round_trip(t);
    }
}

/// Whatever payload parses, its tag fits, so that writing it and reading it
/// again gives the same tag.
#[verifier::spinoff_prover]
#[verifier::rlimit(50)]
pub proof fn law_parsed_video_fits(s: Seq<u8>)
    requires
        video_of(s) is Ok,
    ensures
        video_fits(video_of(s)->Ok_0),
        video_of(video_of(s)->Ok_0.encoded()) == video_of(s),
{
    let t = video_of(s)->Ok_0;
    reveal(be24);
    if s[0] >= 0x80 {
        let p = prelude_of(s, video_medium())->Ok_0;
        lemma_parsed_prelude_fits(s, video_medium(), t.multitrack);
        if let Some(mode) = p.multitrack_type {
            law_parsed_tracks_fit(from(s, p.end), mode);
        }
    }
    law_video_round_trip(t);
}

/// A plain tag never looks like an extended one, and the other way round.
pub proof fn law_video_forms_are_disjoint(t: VideoView)
    requires
        video_fits(t),
    ensures
        t.encoded().len() > 0,
        (t.encoded()[0] >= 0x80) == t.is_extended(),
{
}

proof fn lemma_si24_exact(s: Seq<u8>, i: int)
    requires
        0 <= i,
        i + 3 <= s.len(),
    ensures
        be24_bytes(si24_bits(si24(s, i))) == s.subrange(i, i + 3),
{
    lemma_be24_exact(s, i);
    assert(si24_bits(si24(s, i)) == be24(s, i));
}

#[verifier::spinoff_prover]
#[verifier::rlimit(50)]
proof fn lemma_extended_exact(s: Seq<u8>)
    requires
        s.len() > 0,
        s[0] >= 0x80,
        video_of(s) is Ok,
        video_of(s)->Ok_0.mod_ex.len() == 0,
    ensures
        video_of(s)->Ok_0.encoded() == s,
{
    let medium = video_medium();
    let p = prelude_of(s, medium)->Ok_0;
    let t = video_of(s)->Ok_0;
    lemma_bare_prelude_exact(s, medium, t.multitrack);
    let body = t.extended_body();
    match p.multitrack_type {
        Some(mode) => {
            law_multitrack_parse_is_exact(from(s, p.end), mode);
        },
        None => {
            if has_cts(t.frame_type, p.packet_type, p.fourcc->0) {
                lemma_si24_exact(s, p.end);
            }
            assert(body =~= from(s, p.end));
        },
    }
    assert(t.extended_head() == s[0]);
    assert(t.is_extended());
    assert(seq![s[0]] + s.subrange(1, p.end) + from(s, p.end) =~= s);
}

#[verifier::spinoff_prover]
#[verifier::rlimit(60)]
proof fn lemma_plain_exact(s: Seq<u8>)
    requires
        s.len() > 0,
        s[0] < 0x80,
        video_of(s) is Ok,
    ensures
        video_of(s)->Ok_0.encoded() == s,
{
    let t = video_of(s)->Ok_0;
    assert((t.frame_type % 16 * 16 + t.codec_id % 16) as u8 == s[0]);
    if t.codec_id == VIDEO_CODEC_AVC && t.frame_type != VIDEO_FRAME_COMMAND {
        lemma_si24_exact(s, 2);
        assert(seq![s[0]] + (seq![s[1]] + s.subrange(2, 5)) + from(s, 5) =~= s);
    } else {
        assert(seq![s[0]] + Seq::<u8>::empty() + from(s, 1) =~= s);
    }
}

/// Writing a tag that was read gives back the payload that it was read from, where that
/// had no modifier entries.
pub proof fn law_video_parse_is_exact(s: Seq<u8>)
    requires
        video_of(s) is Ok,
        video_of(s)->Ok_0.mod_ex.len() == 0,
    ensures
        video_of(s)->Ok_0.encoded() == s,
{
    if s[0] >= 0x80 {
        lemma_extended_exact(s);
    } else {
        lemma_plain_exact(s);
    }
}

} // verus!
