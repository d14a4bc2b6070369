//! What tags are, byte by byte.

use vstd::prelude::*;
#[allow(unused_imports)]
use crate::error::Fault;
#[allow(unused_imports)]
use crate::flv::audio::{audio_medium, audio_of, AudioView};
#[allow(unused_imports)]
use crate::flv::ex_header::{
    fourcc_bytes, head_packet_type, outer_packet_type, prelude_bytes, prelude_of, MediumView, PreludeView,
};
#[allow(unused_imports)]
use crate::flv::mod_ex::{chain_bytes, nano_total, ModExView};
#[allow(unused_imports)]
use crate::flv::multichannel::{multichannel_of, MultichannelView, OrderView};
#[allow(unused_imports)]
use crate::flv::multitrack::{
    counted_fourcc, multitrack_of, track_at, tracks_at, MultitrackView, TrackView,
};
#[allow(unused_imports)]
use crate::flv::video::{has_cts, si24, video_medium, video_of, VideoView};
#[allow(unused_imports)]
use crate::flv::{
    si24_bits, FOURCC_AAC, FOURCC_AC3, FOURCC_AV1, FOURCC_AVC, FOURCC_EAC3, FOURCC_FLAC,
    FOURCC_HEVC, FOURCC_MP3, FOURCC_OPUS, FOURCC_VP8, FOURCC_VP9, FOURCC_VVC,
};
#[allow(unused_imports)]
use crate::model::prepended;
#[allow(unused_imports)]
use crate::wire::{
    be24, be24_bytes, be32, from, law_bytes_by_their_value, law_fields_by_their_bytes,
};

verus! {

/// The value of three bytes, the first highest.
pub open spec fn value24(a: u8, b: u8, c: u8) -> int {
    a * 0x1_0000 + b * 0x100 + c
}

/// The signed value of three bytes, the first highest, in two's complement.
pub open spec fn signed24(a: u8, b: u8, c: u8) -> int {
    if a >= 0x80 {
        value24(a, b, c) - 0x100_0000
    } else {
        value24(a, b, c)
    }
}

/// Whether a FourCC names one of the three codecs that are made of NAL units: `hvc1`,
/// `avc1` and `vvc1`.
pub open spec fn is_nal_fourcc(f: Seq<u8>) -> bool {
    ||| f == seq![0x68u8, 0x76, 0x63, 0x31]
    ||| f == seq![0x61u8, 0x76, 0x63, 0x31]
    ||| f == seq![0x76u8, 0x76, 0x63, 0x31]
}

proof fn lemma_prelude_of_one(s: Seq<u8>, medium: MediumView, packet_type: u8, fourcc: Seq<u8>)
    requires
        s.len() >= 5,
        s[0] % 16 == packet_type,
        packet_type != medium.multitrack,
        packet_type != medium.mod_ex,
        s.subrange(1, 5) == fourcc,
    ensures
        prelude_of(s, medium) == Ok::<PreludeView, Fault>(
            PreludeView {
                mod_ex: Seq::empty(),
                packet_type,
                multitrack_type: None,
                fourcc: Some(fourcc),
                end: 5,
            },
        ),
{
}

proof fn lemma_prelude_of_tracks(
    s: Seq<u8>,
    medium: MediumView,
    mode: u8,
    inner: u8,
    fourcc: Seq<u8>,
)
    requires
        s.len() >= 2,
        s[0] % 16 == medium.multitrack,
        medium.multitrack != medium.mod_ex,
        s[1] == mode * 16 + inner,
        inner < 16,
        inner != medium.multitrack,
        mode != 2 ==> s.len() >= 6 && s.subrange(2, 6) == fourcc,
    ensures
        prelude_of(s, medium) == Ok::<PreludeView, Fault>(
            PreludeView {
                mod_ex: Seq::empty(),
                packet_type: inner,
                multitrack_type: Some(mode),
                fourcc: if mode == 2 {
                    None
                } else {
                    Some(fourcc)
                },
                end: if mode == 2 {
                    2
                } else {
                    6
                },
            },
        ),
{
}

// ---------------------------------------------------------------------------
// Reading video
// ---------------------------------------------------------------------------

/// A video tag of the plain form without a packet type is its first byte, frame type above
/// codec, and a body.
pub proof fn law_plain_video_bytes(frame_type: u8, codec: u8, body: Seq<u8>)
    requires
        frame_type < 8,
        codec < 16,
        codec != 7 || frame_type == 5,
    ensures
        video_of(seq![(frame_type * 16 + codec) as u8] + body) == Ok::<VideoView, Fault>(
            VideoView {
                frame_type,
                codec_id: codec,
                avc_packet_type: None,
                composition_time: 0,
                body,
                ex_packet_type: None,
                fourcc: None,
                mod_ex: Seq::empty(),
                multitrack: None,
            },
        ),
{
    let s = seq![(frame_type * 16 + codec) as u8] + body;
    assert(s[0] == frame_type * 16 + codec);
    assert(from(s, 1) =~= body);
}

/// An H.264 tag of the plain form has a packet type and a signed composition time before its
/// body, and is refused where they are not all there.
pub proof fn law_avc_bytes(frame_type: u8, kind: u8, a: u8, b: u8, c: u8, body: Seq<u8>)
    requires
        frame_type < 8,
        frame_type != 5,
    ensures
        ({
            let s = seq![(frame_type * 16 + 7) as u8, kind, a, b, c] + body;
            video_of(s) == Ok::<VideoView, Fault>(
                VideoView {
                    frame_type,
                    codec_id: 7,
                    avc_packet_type: Some(kind),
                    composition_time: signed24(a, b, c) as i32,
                    body,
                    ex_packet_type: None,
                    fourcc: None,
                    mod_ex: Seq::empty(),
                    multitrack: None,
                },
            )
        }),
        video_of(seq![(frame_type * 16 + 7) as u8, kind, a, b]) matches Err(f) && f is Other,
        video_of(seq![(frame_type * 16 + 7) as u8]) matches Err(f) && f is Other,
{
    let s = seq![(frame_type * 16 + 7) as u8, kind, a, b, c] + body;
    assert(s[0] == frame_type * 16 + 7 && s[1] == kind);
    assert(s[2] == a && s[3] == b && s[4] == c);
    law_fields_by_their_bytes(s, 2);
    assert(from(s, 5) =~= body);
}

/// A video tag of the extended form has a FourCC behind its first byte; coded frames of the
/// three codecs that are made of NAL units have a signed composition time behind that.
pub proof fn law_extended_video_bytes(
    frame_type: u8,
    packet_type: u8,
    fourcc: Seq<u8>,
    a: u8,
    b: u8,
    c: u8,
    body: Seq<u8>,
)
    requires
        frame_type < 8,
        packet_type < 16,
        packet_type != 6,
        packet_type != 7,
        fourcc.len() == 4,
    ensures
        ({
            let timed = packet_type == 1 && frame_type != 5 && is_nal_fourcc(fourcc);
            let s = seq![(0x80 + frame_type * 16 + packet_type) as u8] + fourcc + (if timed {
                seq![a, b, c] + body
            } else {
                body
            });
            video_of(s) == Ok::<VideoView, Fault>(
                VideoView {
                    frame_type,
                    codec_id: 0,
                    avc_packet_type: None,
                    composition_time: if timed {
                        signed24(a, b, c) as i32
                    } else {
                        0
                    },
                    body,
                    ex_packet_type: Some(packet_type),
                    fourcc: Some(fourcc),
                    mod_ex: Seq::empty(),
                    multitrack: None,
                },
            )
        }),
{
    law_fourccs();
    let timed = packet_type == 1 && frame_type != 5 && is_nal_fourcc(fourcc);
    let rest = if timed {
        seq![a, b, c] + body
    } else {
        body
    };
    let s = seq![(0x80 + frame_type * 16 + packet_type) as u8] + fourcc + rest;
    assert(s[0] == 0x80 + frame_type * 16 + packet_type);
    assert(s.subrange(1, 5) =~= fourcc);
    lemma_prelude_of_one(s, video_medium(), packet_type, fourcc);
    assert(has_cts(frame_type, packet_type, fourcc) == timed);
    if timed {
        assert(s[5] == a && s[6] == b && s[7] == c);
        law_fields_by_their_bytes(s, 5);
        assert(from(s, 8) =~= body);
    } else {
        assert(from(s, 5) =~= body);
    }
}

/// A video tag that holds tracks says so in its first byte; the next one has the mode above
/// the packet type of the tracks, and the FourCC that they share follows, unless each has
/// its own.
pub proof fn law_multitrack_video_bytes(
    frame_type: u8,
    mode: u8,
    inner: u8,
    fourcc: Seq<u8>,
    list: Seq<u8>,
)
    requires
        frame_type < 8,
        mode < 16,
        inner < 16,
        inner != 6,
        fourcc.len() == 4,
    ensures
        ({
            let s = seq![(0x86 + frame_type * 16) as u8, (mode * 16 + inner) as u8] + (if mode
                == 2 {
                list
            } else {
                fourcc + list
            });
            match multitrack_of(list, mode) {
                Err(f) => video_of(s) == Err::<VideoView, Fault>(f),
                Ok(m) => video_of(s) == Ok::<VideoView, Fault>(
                    VideoView {
                        frame_type,
                        codec_id: 0,
                        avc_packet_type: None,
                        composition_time: 0,
                        body: Seq::empty(),
                        ex_packet_type: Some(inner),
                        fourcc: if mode == 2 {
                            None
                        } else {
                            Some(fourcc)
                        },
                        mod_ex: Seq::empty(),
                        multitrack: Some(m),
                    },
                ),
            }
        }),
{
    let s = seq![(0x86 + frame_type * 16) as u8, (mode * 16 + inner) as u8] + (if mode == 2 {
        list
    } else {
        fourcc + list
    });
    assert(s[0] == 0x86 + frame_type * 16 && s[1] == mode * 16 + inner);
    if mode == 2 {
        assert(from(s, 2) =~= list);
    } else {
        assert(s.subrange(2, 6) =~= fourcc);
        assert(from(s, 6) =~= list);
    }
    lemma_prelude_of_tracks(s, video_medium(), mode, inner, fourcc);
}

// ---------------------------------------------------------------------------
// Writing video
// ---------------------------------------------------------------------------

/// What a video tag of the plain form is written as, whatever its fields hold: the low bits
/// of the frame type and the codec, and for H.264 the packet type, frames where it has
/// none, and the low bits of the composition time.
pub proof fn law_plain_video_is_written(t: VideoView)
    requires
        t.fourcc is None,
        t.multitrack is None,
    ensures
        ({
            let head = (t.frame_type % 16 * 16 + t.codec_id % 16) as u8;
            let c = t.composition_time as int % 0x100_0000;
            let kind = match t.avc_packet_type {
                Some(p) => p,
                None => 1,
            };
            t.encoded() == if t.codec_id == 7 && t.frame_type != 5 {
                seq![
                    head,
                    kind,
                    (c / 0x1_0000) as u8,
                    (c / 0x100 % 0x100) as u8,
                    (c % 0x100) as u8,
                ] + t.body
            } else {
                seq![head] + t.body
            }
        }),
{
    let c = t.composition_time as int % 0x100_0000;
    let b = be24_bytes(si24_bits(t.composition_time));
    assert(b[0] == (c / 0x1_0000) as u8 && b[1] == (c / 0x100 % 0x100) as u8 && b[2] == (c
        % 0x100) as u8);
    let head = (t.frame_type % 16 * 16 + t.codec_id % 16) as u8;
    let kind = match t.avc_packet_type {
        Some(p) => p,
        None => 1u8,
    };
    if t.codec_id == 7 && t.frame_type != 5 {
        assert(t.encoded() =~= seq![head, kind, b[0], b[1], b[2]] + t.body);
    } else {
        assert(t.encoded() =~= seq![head] + t.body);
    }
}

/// What a video tag of the extended form is written as, whatever its fields hold: coded frames
/// where it has no packet type, and the low bits of the composition time where one is due.
pub proof fn law_extended_video_is_written(t: VideoView)
    requires
        t.fourcc is Some,
        t.multitrack is None,
        t.mod_ex.len() == 0,
    ensures
        ({
            let kind = match t.ex_packet_type {
                Some(p) => p,
                None => 1,
            };
            let c = t.composition_time as int % 0x100_0000;
            let timed = kind == 1 && t.frame_type != 5 && is_nal_fourcc(t.fourcc->0);
            t.encoded() == seq![(0x80 + t.frame_type % 8 * 16 + kind % 16) as u8] + t.fourcc->0 + (
            if timed {
                seq![(c / 0x1_0000) as u8, (c / 0x100 % 0x100) as u8, (c % 0x100) as u8] + t.body
            } else {
                t.body
            })
        }),
{
    reveal(prelude_bytes);
    law_fourccs();
    let kind = t.packet_type();
    let c = t.composition_time as int % 0x100_0000;
    let b = be24_bytes(si24_bits(t.composition_time));
    assert(b =~= seq![(c / 0x1_0000) as u8, (c / 0x100 % 0x100) as u8, (c % 0x100) as u8]);
    assert(chain_bytes(t.mod_ex, 7, kind) =~= Seq::empty());
    let timed = kind == 1 && t.frame_type != 5 && is_nal_fourcc(t.fourcc->0);
    assert(has_cts(t.frame_type, kind, t.fourcc->0) == timed);
    assert(t.encoded() =~= seq![(0x80 + t.frame_type % 8 * 16 + kind % 16) as u8] + t.fourcc->0 + (
    if timed {
        b + t.body
    } else {
        t.body
    }));
}

/// A video tag that holds tracks is written as its first byte, the mode above the packet type
/// of the tracks, the FourCC that they share, and the tracks.
pub proof fn law_multitrack_video_is_written(t: VideoView)
    requires
        t.multitrack is Some,
        t.ex_packet_type is Some,
        t.fourcc is Some || t.multitrack->0.multitrack_type == 2,
        t.mod_ex.len() == 0,
    ensures
        ({
            let m = t.multitrack->0;
            let kind = t.ex_packet_type->0;
            t.encoded() == seq![
                (0x80 + t.frame_type % 8 * 16 + 6) as u8,
                (m.multitrack_type % 16 * 16 + kind % 16) as u8,
            ] + (if m.multitrack_type == 2 {
                m.encoded()
            } else {
                t.fourcc->0 + m.encoded()
            })
        }),
{
    reveal(prelude_bytes);
    let m = t.multitrack->0;
    let kind = t.ex_packet_type->0;
    assert(chain_bytes(t.mod_ex, 7, 6) =~= Seq::empty());
    assert(t.encoded() =~= seq![
        (0x80 + t.frame_type % 8 * 16 + 6) as u8,
        (m.multitrack_type % 16 * 16 + kind % 16) as u8,
    ] + (if m.multitrack_type == 2 {
        m.encoded()
    } else {
        t.fourcc->0 + m.encoded()
    }));
}

/// Modifier entries stand behind the first byte, which announces them; the last of them says
/// what the first byte would say without them, and the rest of the tag follows.
pub proof fn law_video_modifiers_stand_first(t: VideoView)
    requires
        t.mod_ex.len() > 0,
        t.fourcc is Some || t.multitrack is Some,
    ensures
        ({
            let bare = VideoView { mod_ex: Seq::empty(), ..t };
            let kind = if t.multitrack is Some {
                6
            } else {
                match t.ex_packet_type {
                    Some(p) => p,
                    None => 1,
                }
            };
            t.encoded() == seq![(0x87 + t.frame_type % 8 * 16) as u8] + chain_bytes(
                t.mod_ex,
                7,
                kind,
            ) + from(bare.encoded(), 1)
        }),
{
    reveal(prelude_bytes);
    let bare = VideoView { mod_ex: Seq::empty(), ..t };
    let kind = outer_packet_type(t.multitrack, t.packet_type(), video_medium());
    assert(chain_bytes(bare.mod_ex, 7, kind) =~= Seq::empty());
    assert(t.encoded() =~= seq![(0x87 + t.frame_type % 8 * 16) as u8] + chain_bytes(
        t.mod_ex,
        7,
        kind,
    ) + from(bare.encoded(), 1));
}

// ---------------------------------------------------------------------------
// Reading audio
// ---------------------------------------------------------------------------

/// An audio tag of the plain form has format, rate, size and channels in its first byte, from
/// the top; AAC has a packet type behind it.
pub proof fn law_plain_audio_bytes(
    format: u8,
    rate: u8,
    wide: bool,
    stereo: bool,
    kind: u8,
    body: Seq<u8>,
)
    requires
        format < 16,
        format != 9,
        rate < 4,
    ensures
        ({
            let head = format * 16 + rate * 4 + (if wide {
                2int
            } else {
                0
            }) + (if stereo {
                1int
            } else {
                0
            });
            let s = seq![head as u8] + (if format == 10 {
                seq![kind] + body
            } else {
                body
            });
            audio_of(s) == Ok::<AudioView, Fault>(
                AudioView {
                    sound_format: format,
                    sound_rate: rate,
                    sound_size_16bit: wide,
                    stereo,
                    aac_packet_type: if format == 10 {
                        Some(kind)
                    } else {
                        None
                    },
                    ex_packet_type: None,
                    audio_fourcc: None,
                    body,
                    mod_ex: Seq::empty(),
                    multitrack: None,
                },
            )
        }),
        format == 10 ==> (audio_of(seq![(format * 16 + rate * 4) as u8]) matches Err(f) && f
            is Other),
{
    let head = format * 16 + rate * 4 + (if wide {
        2int
    } else {
        0
    }) + (if stereo {
        1int
    } else {
        0
    });
    assert(head / 16 == format);
    assert(head / 4 % 4 == rate);
    assert((head / 2 % 2 == 1) == wide);
    assert((head % 2 == 1) == stereo);
    let s = seq![head as u8] + (if format == 10 {
        seq![kind] + body
    } else {
        body
    });
    assert(s[0] == head);
    if format == 10 {
        assert(s[1] == kind);
        assert(from(s, 2) =~= body);
    } else {
        assert(from(s, 1) =~= body);
    }
}

/// An audio tag of the extended form has a packet type in its first byte and a FourCC behind
/// it.
pub proof fn law_extended_audio_bytes(packet_type: u8, fourcc: Seq<u8>, body: Seq<u8>)
    requires
        packet_type < 16,
        packet_type != 5,
        packet_type != 7,
        fourcc.len() == 4,
    ensures
        audio_of(seq![(0x90 + packet_type) as u8] + fourcc + body) == Ok::<AudioView, Fault>(
            AudioView {
                sound_format: 9,
                sound_rate: 0,
                sound_size_16bit: false,
                stereo: false,
                aac_packet_type: None,
                ex_packet_type: Some(packet_type),
                audio_fourcc: Some(fourcc),
                body,
                mod_ex: Seq::empty(),
                multitrack: None,
            },
        ),
{
    let s = seq![(0x90 + packet_type) as u8] + fourcc + body;
    assert(s[0] == 0x90 + packet_type);
    assert(s.subrange(1, 5) =~= fourcc);
    assert(from(s, 5) =~= body);
}

/// An audio tag that holds tracks says so in its first byte; the next one has the mode above
/// the packet type of the tracks, and the FourCC that they share follows, unless each has
/// its own.
pub proof fn law_multitrack_audio_bytes(mode: u8, inner: u8, fourcc: Seq<u8>, list: Seq<u8>)
    requires
        mode < 16,
        inner < 16,
        inner != 5,
        fourcc.len() == 4,
    ensures
        ({
            let s = seq![0x95u8, (mode * 16 + inner) as u8] + (if mode == 2 {
                list
            } else {
                fourcc + list
            });
            match multitrack_of(list, mode) {
                Err(f) => audio_of(s) == Err::<AudioView, Fault>(f),
                Ok(m) => audio_of(s) == Ok::<AudioView, Fault>(
                    AudioView {
                        sound_format: 9,
                        sound_rate: 0,
                        sound_size_16bit: false,
                        stereo: false,
                        aac_packet_type: None,
                        ex_packet_type: Some(inner),
                        audio_fourcc: if mode == 2 {
                            None
                        } else {
                            Some(fourcc)
                        },
                        body: Seq::empty(),
                        mod_ex: Seq::empty(),
                        multitrack: Some(m),
                    },
                ),
            }
        }),
{
    let s = seq![0x95u8, (mode * 16 + inner) as u8] + (if mode == 2 {
        list
    } else {
        fourcc + list
    });
    assert(s[0] == 0x95 && s[1] == mode * 16 + inner);
    if mode == 2 {
        assert(from(s, 2) =~= list);
    } else {
        assert(s.subrange(2, 6) =~= fourcc);
        assert(from(s, 6) =~= list);
    }
}

// ---------------------------------------------------------------------------
// Writing audio
// ---------------------------------------------------------------------------

/// What an audio tag of the plain form is written as, whatever its fields hold: the low bits
/// of each, and for AAC the packet type, frames where it has none.
pub proof fn law_plain_audio_is_written(t: AudioView)
    requires
        t.audio_fourcc is None,
        t.multitrack is None,
    ensures
        ({
            let b = t.encoded();
            let n: int = if t.sound_format == 10 {
                2
            } else {
                1
            };
            &&& b.len() == n + t.body.len()
            &&& from(b, n) == t.body
            &&& b[0] / 16 == t.sound_format % 16
            &&& b[0] / 4 % 4 == t.sound_rate % 4
            &&& (b[0] / 2 % 2 == 1) == t.sound_size_16bit
            &&& (b[0] % 2 == 1) == t.stereo
            &&& t.sound_format == 10 ==> b[1] == match t.aac_packet_type {
                Some(p) => p,
                None => 1,
            }
        }),
{
    let b = t.encoded();
    let n: int = if t.sound_format == 10 {
        2
    } else {
        1
    };
    assert(b[0] == t.plain_head());
    assert(from(b, n) =~= t.body);
    lemma_head_bits((t.sound_format % 16) as u8, (t.sound_rate % 4) as u8, t.sound_size_16bit, t.stereo);
}

proof fn lemma_head_bits(format: u8, rate: u8, wide: bool, stereo: bool)
    requires
        format < 16,
        rate < 4,
    ensures
        ({
            let head = format * 16 + rate * 4 + (if wide {
                2int
            } else {
                0
            }) + (if stereo {
                1int
            } else {
                0
            });
            &&& 0 <= head < 256
            &&& head / 16 == format
            &&& head / 4 % 4 == rate
            &&& (head / 2 % 2 == 1) == wide
            &&& (head % 2 == 1) == stereo
        }),
{
}

/// What an audio tag of the extended form is written as: coded frames where it has no packet
/// type.
pub proof fn law_extended_audio_is_written(t: AudioView)
    requires
        t.audio_fourcc is Some,
        t.multitrack is None,
        t.mod_ex.len() == 0,
    ensures
        ({
            let kind = match t.ex_packet_type {
                Some(p) => p,
                None => 1,
            };
            t.encoded() == seq![(0x90 + kind % 16) as u8] + t.audio_fourcc->0 + t.body
        }),
{
    reveal(prelude_bytes);
    let kind = t.packet_type();
    assert(chain_bytes(t.mod_ex, 7, kind) =~= Seq::empty());
    assert(t.encoded() =~= seq![(0x90 + kind % 16) as u8] + t.audio_fourcc->0 + t.body);
}

/// An audio tag that holds tracks is written as its first byte, the mode above the packet type
/// of the tracks, the FourCC that they share, and the tracks.
pub proof fn law_multitrack_audio_is_written(t: AudioView)
    requires
        t.multitrack is Some,
        t.ex_packet_type is Some,
        t.audio_fourcc is Some || t.multitrack->0.multitrack_type == 2,
        t.mod_ex.len() == 0,
    ensures
        ({
            let m = t.multitrack->0;
            let kind = t.ex_packet_type->0;
            t.encoded() == seq![0x95u8, (m.multitrack_type % 16 * 16 + kind % 16) as u8] + (
            if m.multitrack_type == 2 {
                m.encoded()
            } else {
                t.audio_fourcc->0 + m.encoded()
            })
        }),
{
    reveal(prelude_bytes);
    let m = t.multitrack->0;
    let kind = t.ex_packet_type->0;
    assert(chain_bytes(t.mod_ex, 7, 5) =~= Seq::empty());
    assert(t.encoded() =~= seq![0x95u8, (m.multitrack_type % 16 * 16 + kind % 16) as u8] + (
    if m.multitrack_type == 2 {
        m.encoded()
    } else {
        t.audio_fourcc->0 + m.encoded()
    }));
}

/// Modifier entries stand behind the first byte, which announces them; the last of them says
/// what the first byte would say without them, and the rest of the tag follows.
pub proof fn law_audio_modifiers_stand_first(t: AudioView)
    requires
        t.mod_ex.len() > 0,
        t.audio_fourcc is Some || t.multitrack is Some,
    ensures
        ({
            let bare = AudioView { mod_ex: Seq::empty(), ..t };
            let kind = if t.multitrack is Some {
                5
            } else {
                match t.ex_packet_type {
                    Some(p) => p,
                    None => 1,
                }
            };
            t.encoded() == seq![0x97u8] + chain_bytes(t.mod_ex, 7, kind) + from(bare.encoded(), 1)
        }),
{
    reveal(prelude_bytes);
    let bare = AudioView { mod_ex: Seq::empty(), ..t };
    let kind = outer_packet_type(t.multitrack, t.packet_type(), audio_medium());
    assert(chain_bytes(bare.mod_ex, 7, kind) =~= Seq::empty());
    assert(t.encoded() =~= seq![0x97u8] + chain_bytes(t.mod_ex, 7, kind) + from(bare.encoded(), 1));
}

// ---------------------------------------------------------------------------
// Modifier entries
// ---------------------------------------------------------------------------

/// A modifier entry is its size less one, in one byte up to 255 bytes and else in two behind
/// a byte of ones, the data, and a byte with its type above the packet type that follows.
pub proof fn law_modifier_bytes(e: ModExView, again: u8, ending: u8)
    requires
        1 <= e.data.len() <= 0x1_0000,
    ensures
        ({
            let n = e.data.len() - 1;
            chain_bytes(seq![e], again, ending) == (if n < 255 {
                seq![n as u8]
            } else {
                seq![255u8, (n / 256) as u8, (n % 256) as u8]
            }) + e.data + seq![(e.mod_ex_type % 16 * 16 + ending % 16) as u8]
        }),
{
    let one = seq![e];
    let none = one.subrange(1, 1);
    assert(none =~= Seq::empty());
    assert(chain_bytes(none, again, ending) == Seq::<u8>::empty());
    assert(one[0] == e);
    let n = e.data.len() - 1;
    assert(chain_bytes(one, again, ending) =~= (if n < 255 {
        seq![n as u8]
    } else {
        seq![255u8, (n / 256) as u8, (n % 256) as u8]
    }) + e.data + seq![(e.mod_ex_type % 16 * 16 + ending % 16) as u8]);
}

/// Of several modifier entries, each but the last announces another.
pub proof fn law_modifiers_follow_each_other(
    e: ModExView,
    rest: Seq<ModExView>,
    again: u8,
    ending: u8,
)
    requires
        rest.len() > 0,
    ensures
        chain_bytes(seq![e] + rest, again, ending) == chain_bytes(seq![e], again, again)
            + chain_bytes(rest, again, ending),
{
    let all = seq![e] + rest;
    assert(all.subrange(1, all.len() as int) =~= rest);
    let one = seq![e];
    assert(one.subrange(1, 1) =~= Seq::empty());
    assert(chain_bytes(one.subrange(1, 1), again, again) == Seq::<u8>::empty());
    assert(all[0] == e && one[0] == e);
    assert(chain_bytes(one, again, again) =~= chain_bytes(one, again, again)
        + Seq::<u8>::empty());
    assert(chain_bytes(all, again, ending) =~= chain_bytes(one, again, again) + chain_bytes(
        rest,
        again,
        ending,
    ));
}

/// An entry of type 0 with at least three bytes moves the time by the nanoseconds that the
/// first three say; any other by none. The offsets of a run add up, to the largest 32-bit
/// value at most.
pub proof fn law_nanoseconds_add_up(chain: Seq<ModExView>, e: ModExView)
    ensures
        nano_total(Seq::empty()) == 0,
        ({
            let n = if e.mod_ex_type == 0 && e.data.len() >= 3 {
                value24(e.data[0], e.data[1], e.data[2])
            } else {
                0
            };
            let sum = nano_total(chain) + n;
            nano_total(chain.push(e)) == if sum > 0xFFFF_FFFF {
                0xFFFF_FFFF
            } else {
                sum
            }
        }),
{
    let all = chain.push(e);
    assert(all.drop_last() =~= chain);
    assert(all.last() == e);
    if e.data.len() >= 3 {
        law_fields_by_their_bytes(e.data, 0);
    }
}

// ---------------------------------------------------------------------------
// Tracks
// ---------------------------------------------------------------------------

/// A track that stands alone is an id and a body to the end.
pub proof fn law_single_track_bytes(id: u8, body: Seq<u8>)
    ensures
        multitrack_of(seq![id] + body, 0) == Ok::<MultitrackView, Fault>(
            MultitrackView {
                multitrack_type: 0,
                tracks: seq![TrackView { fourcc: None, track_id: id, body }],
            },
        ),
        multitrack_of(Seq::empty(), 0) is Err,
{
    let s = seq![id] + body;
    assert(from(s, 1) =~= body);
    let t = TrackView { fourcc: None, track_id: id, body };
    assert(track_at(s, 0, 0) == Ok::<(TrackView, int), Fault>((t, s.len() as int)));
    assert(tracks_at(s, s.len() as int, 0) == Ok::<Seq<TrackView>, Fault>(Seq::empty()));
    assert(seq![t] + Seq::<TrackView>::empty() =~= seq![t]);
}

/// A track among several is a FourCC, where each has its own, an id, a size in three bytes and
/// the body; the next one follows it.
pub proof fn law_track_among_several(
    mode: u8,
    fourcc: Seq<u8>,
    id: u8,
    a: u8,
    b: u8,
    c: u8,
    body: Seq<u8>,
    rest: Seq<u8>,
)
    requires
        mode != 0,
        fourcc.len() == 4,
        body.len() == value24(a, b, c),
    ensures
        ({
            let s = (if mode == 2 {
                fourcc
            } else {
                Seq::empty()
            }) + seq![id, a, b, c] + body;
            let t = TrackView {
                fourcc: if mode == 2 {
                    Some(fourcc)
                } else {
                    None
                },
                track_id: id,
                body,
            };
            &&& multitrack_of(s, mode) == Ok::<MultitrackView, Fault>(
                MultitrackView { multitrack_type: mode, tracks: seq![t] },
            )
            &&& track_at(s + rest, 0, mode) == Ok::<(TrackView, int), Fault>(
                (t, s.len() as int),
            )
        }),
{
    let front = if mode == 2 {
        fourcc
    } else {
        Seq::empty()
    };
    let s = front + seq![id, a, b, c] + body;
    let t = TrackView {
        fourcc: if mode == 2 {
            Some(fourcc)
        } else {
            None
        },
        track_id: id,
        body,
    };
    lemma_track_there(s + rest, mode, front, t, a, b, c, rest);
    assert(s + Seq::<u8>::empty() =~= s);
    lemma_track_there(s, mode, front, t, a, b, c, Seq::empty());
    assert(tracks_at(s, s.len() as int, mode) == Ok::<Seq<TrackView>, Fault>(Seq::empty()));
    assert(seq![t] + Seq::<TrackView>::empty() =~= seq![t]);
}

proof fn lemma_track_there(
    s: Seq<u8>,
    mode: u8,
    front: Seq<u8>,
    t: TrackView,
    a: u8,
    b: u8,
    c: u8,
    rest: Seq<u8>,
)
    requires
        mode != 0,
        mode == 2 ==> front.len() == 4 && t.fourcc == Some(front),
        mode != 2 ==> front.len() == 0 && t.fourcc is None,
        t.body.len() == value24(a, b, c),
        s == front + seq![t.track_id, a, b, c] + t.body + rest,
    ensures
        track_at(s, 0, mode) == Ok::<(TrackView, int), Fault>(
            (t, (front.len() + 4 + t.body.len()) as int),
        ),
{
    let p = front.len() as int;
    assert(s[p] == t.track_id && s[p + 1] == a && s[p + 2] == b && s[p + 3] == c);
    law_fields_by_their_bytes(s, p + 1);
    if mode == 2 {
        assert(s.subrange(0, 4) =~= front);
    }
    assert(s.subrange(p + 4, p + 4 + t.body.len()) =~= t.body);
}

/// Which FourCC counts for a track: only its own where each has a codec of its own; the
/// shared one before its own where they share one; and else its own before the shared one.
pub proof fn law_fourcc_that_counts(own: Seq<u8>, shared: Seq<u8>, mode: u8)
    ensures
        counted_fourcc(2, None, Some(shared)) is None,
        counted_fourcc(2, Some(own), Some(shared)) == Some(own),
        mode <= 1 ==> counted_fourcc(mode, Some(own), Some(shared)) == Some(shared),
        mode > 2 ==> counted_fourcc(mode, Some(own), Some(shared)) == Some(own),
        mode != 2 ==> counted_fourcc(mode, Some(own), None) == Some(own),
        mode != 2 ==> counted_fourcc(mode, None, Some(shared)) == Some(shared),
        counted_fourcc(mode, None, None) is None,
{
}

// ---------------------------------------------------------------------------
// Channels
// ---------------------------------------------------------------------------

/// A channel configuration is the order, the number of channels, and what the order asks for:
/// nothing, a 32-bit mask, or a position for each channel. Bytes too many or too few are
/// refused; an order without a meaning keeps what follows.
pub proof fn law_channel_configuration_bytes(body: Seq<u8>)
    ensures
        body.len() < 2 ==> multichannel_of(body) is Err,
        body.len() >= 2 ==> ({
            let r = multichannel_of(body);
            let with = |order: OrderView|
                Ok::<MultichannelView, Fault>(
                    MultichannelView { order, channel_count: body[1], extra: Seq::empty() },
                );
            &&& body[0] == 0 ==> (r is Ok <==> body.len() == 2)
            &&& body[0] == 0 && r is Ok ==> r == with(OrderView::Unspecified)
            &&& body[0] == 1 ==> (r is Ok <==> body.len() == 6)
            &&& body[0] == 1 && r is Ok ==> r == with(
                OrderView::Native {
                    flags: (body[2] * 0x100_0000 + body[3] * 0x1_0000 + body[4] * 0x100
                        + body[5]) as u32,
                },
            )
            &&& body[0] == 2 ==> (r is Ok <==> body.len() == 2 + body[1])
            &&& body[0] == 2 && r is Ok ==> r == with(OrderView::Custom { mapping: from(body, 2) })
            &&& body[0] > 2 ==> r == Ok::<MultichannelView, Fault>(
                MultichannelView {
                    order: OrderView::Reserved(body[0]),
                    channel_count: body[1],
                    extra: from(body, 2),
                },
            )
        }),
{
    if body.len() == 6 {
        law_fields_by_their_bytes(body, 2);
    }
}

// ---------------------------------------------------------------------------
// FourCCs
// ---------------------------------------------------------------------------

/// The FourCCs of the codecs, as the characters of their names.
pub proof fn law_fourccs()
    ensures
        FOURCC_AV1@ == seq![0x61u8, 0x76, 0x30, 0x31],
        FOURCC_VP9@ == seq![0x76u8, 0x70, 0x30, 0x39],
        FOURCC_HEVC@ == seq![0x68u8, 0x76, 0x63, 0x31],
        FOURCC_VP8@ == seq![0x76u8, 0x70, 0x30, 0x38],
        FOURCC_AVC@ == seq![0x61u8, 0x76, 0x63, 0x31],
        FOURCC_VVC@ == seq![0x76u8, 0x76, 0x63, 0x31],
        FOURCC_AC3@ == seq![0x61u8, 0x63, 0x2d, 0x33],
        FOURCC_EAC3@ == seq![0x65u8, 0x63, 0x2d, 0x33],
        FOURCC_OPUS@ == seq![0x4fu8, 0x70, 0x75, 0x73],
        FOURCC_MP3@ == seq![0x2eu8, 0x6d, 0x70, 0x33],
        FOURCC_FLAC@ == seq![0x66u8, 0x4c, 0x61, 0x43],
        FOURCC_AAC@ == seq![0x6du8, 0x70, 0x34, 0x61],
{
    assert(FOURCC_AV1@ =~= seq![0x61u8, 0x76, 0x30, 0x31]);
    assert(FOURCC_VP9@ =~= seq![0x76u8, 0x70, 0x30, 0x39]);
    assert(FOURCC_HEVC@ =~= seq![0x68u8, 0x76, 0x63, 0x31]);
    assert(FOURCC_VP8@ =~= seq![0x76u8, 0x70, 0x30, 0x38]);
    assert(FOURCC_AVC@ =~= seq![0x61u8, 0x76, 0x63, 0x31]);
    assert(FOURCC_VVC@ =~= seq![0x76u8, 0x76, 0x63, 0x31]);
    assert(FOURCC_AC3@ =~= seq![0x61u8, 0x63, 0x2d, 0x33]);
    assert(FOURCC_EAC3@ =~= seq![0x65u8, 0x63, 0x2d, 0x33]);
    assert(FOURCC_OPUS@ =~= seq![0x4fu8, 0x70, 0x75, 0x73]);
    assert(FOURCC_MP3@ =~= seq![0x2eu8, 0x6d, 0x70, 0x33]);
    assert(FOURCC_FLAC@ =~= seq![0x66u8, 0x4c, 0x61, 0x43]);
    assert(FOURCC_AAC@ =~= seq![0x6du8, 0x70, 0x34, 0x61]);
}

} // verus!
