//! Audio tags and audio messages.

use vstd::prelude::*;
use crate::error::{other, Result};
#[allow(unused_imports)]
use crate::error::{outcome, Fault};
use crate::flv::ex_header::{build_prelude, parse_prelude};
#[allow(unused_imports)]
use crate::flv::ex_header::{
    head_packet_type, lemma_bare_prelude_exact, lemma_parsed_prelude_fits,
    lemma_prelude_round_trip, outer_packet_type, prelude_bytes, prelude_fits, prelude_of,
    MediumView, PreludeView,
};
use crate::flv::mod_ex::{total_offset_nano, ModEx};
#[allow(unused_imports)]
use crate::flv::mod_ex::{nano_total, ModExView};
use crate::flv::multichannel::MultichannelConfig;
#[allow(unused_imports)]
use crate::flv::multichannel::{
    consistent, law_multichannel_round_trip, multichannel_of, MultichannelView,
};
use crate::flv::multitrack::Multitrack;
#[allow(unused_imports)]
use crate::flv::multitrack::{
    law_multitrack_parse_is_exact, law_multitrack_round_trip, law_parsed_tracks_fit,
    multitrack_of, tracks_fit, MultitrackView,
};
use crate::flv::{
    AAC_PACKET_TYPE_RAW, AAC_PACKET_TYPE_SEQUENCE_HEADER, AUDIO_FORMAT_AAC,
    AUDIO_FORMAT_EX_HEADER, AUDIO_PACKET_TYPE_CODED_FRAMES, AUDIO_PACKET_TYPE_MOD_EX,
    AUDIO_PACKET_TYPE_MULTICHANNEL_CONFIG, AUDIO_PACKET_TYPE_MULTITRACK,
    AUDIO_PACKET_TYPE_SEQUENCE_END, AUDIO_PACKET_TYPE_SEQUENCE_START,
};
#[allow(unused_imports)]
use crate::flv::fourcc_view;
#[allow(unused_imports)]
use crate::model::{opt_view, views};
use crate::wire::{copy_range, put_bytes};
#[allow(unused_imports)]
use crate::wire::from;

verus! {

/// The payload of an audio message.
#[derive(Debug, Clone, PartialEq, Eq)]
pub struct AudioTag {
    pub sound_format: u8,
    pub sound_rate: u8,
    pub sound_size_16bit: bool,
    pub stereo: bool,
    /// AAC in the plain form.
    pub aac_packet_type: Option<u8>,
    /// Extended form: what the body holds.
    pub ex_packet_type: Option<u8>,
    /// Extended form: the codec.
    pub audio_fourcc: Option<[u8; 4]>,
    pub body: Vec<u8>,
    pub mod_ex: Vec<ModEx>,
    pub multitrack: Option<Multitrack>,
}

/// The mathematical view of [`AudioTag`].
pub struct AudioView {
    pub sound_format: u8,
    pub sound_rate: u8,
    pub sound_size_16bit: bool,
    pub stereo: bool,
    pub aac_packet_type: Option<u8>,
    pub ex_packet_type: Option<u8>,
    pub audio_fourcc: Option<Seq<u8>>,
    pub body: Seq<u8>,
    pub mod_ex: Seq<ModExView>,
    pub multitrack: Option<MultitrackView>,
}

impl View for AudioTag {
    type V = AudioView;

    open spec fn view(&self) -> AudioView {
        AudioView {
            sound_format: self.sound_format,
            sound_rate: self.sound_rate,
            sound_size_16bit: self.sound_size_16bit,
            stereo: self.stereo,
            aac_packet_type: self.aac_packet_type,
            ex_packet_type: self.ex_packet_type,
            audio_fourcc: fourcc_view(self.audio_fourcc),
            body: self.body@,
            mod_ex: views(self.mod_ex@),
            multitrack: opt_view(self.multitrack),
        }
    }
}

// ---------------------------------------------------------------------------
// The model
// ---------------------------------------------------------------------------

/// The packet types of extended audio headers.
pub open spec fn audio_medium() -> MediumView {
    MediumView {
        multitrack: AUDIO_PACKET_TYPE_MULTITRACK,
        mod_ex: AUDIO_PACKET_TYPE_MOD_EX,
        what: "audio"@,
    }
}

/// An extended tag with nothing but these parts.
pub open spec fn extended_audio_tag(
    packet_type: u8,
    fourcc: Option<Seq<u8>>,
    body: Seq<u8>,
) -> AudioView {
    AudioView {
        sound_format: AUDIO_FORMAT_EX_HEADER,
        sound_rate: 0,
        sound_size_16bit: false,
        stereo: false,
        aac_packet_type: None,
        ex_packet_type: Some(packet_type),
        audio_fourcc: fourcc,
        body,
        mod_ex: Seq::empty(),
        multitrack: None,
    }
}

/// A tag of the extended form, from what stands before its body.
pub open spec fn extended_audio(s: Seq<u8>, p: PreludeView) -> core::result::Result<
    AudioView,
    Fault,
> {
    let tag = AudioView {
        mod_ex: p.mod_ex,
        ..extended_audio_tag(p.packet_type, p.fourcc, Seq::empty())
    };
    match p.multitrack_type {
        Some(mode) => match multitrack_of(from(s, p.end), mode) {
            Err(e) => Err(e),
            Ok(m) => Ok(AudioView { multitrack: Some(m), ..tag }),
        },
        None => Ok(AudioView { body: from(s, p.end), ..tag }),
    }
}

/// A tag of the plain form. AAC has a packet type before the body.
pub open spec fn plain_audio(s: Seq<u8>) -> core::result::Result<AudioView, Fault> {
    let aac = s[0] / 16 == AUDIO_FORMAT_AAC;
    if aac && s.len() < 2 {
        Err(Fault::Other("FLV/AAC tag: need 2+ bytes"@))
    } else {
        Ok(
            AudioView {
                sound_format: s[0] / 16,
                sound_rate: s[0] / 4 % 4,
                sound_size_16bit: s[0] / 2 % 2 == 1,
                stereo: s[0] % 2 == 1,
                aac_packet_type: if aac {
                    Some(s[1])
                } else {
                    None
                },
                ex_packet_type: None,
                audio_fourcc: None,
                body: from(
                    s,
                    if aac {
                        2
                    } else {
                        1
                    },
                ),
                mod_ex: Seq::empty(),
                multitrack: None,
            },
        )
    }
}

/// The tag that a payload holds.
pub open spec fn audio_of(s: Seq<u8>) -> core::result::Result<AudioView, Fault> {
    if s.len() == 0 {
        Err(Fault::Other("FLV audio tag: empty"@))
    } else if s[0] / 16 == AUDIO_FORMAT_EX_HEADER {
        match prelude_of(s, audio_medium()) {
            Err(e) => Err(e),
            Ok(p) => extended_audio(s, p),
        }
    } else {
        plain_audio(s)
    }
}

impl AudioView {
    /// Whether this tag takes the extended form.
    pub open spec fn is_extended(self) -> bool {
        self.audio_fourcc is Some || self.multitrack is Some
    }

    /// The packet type of an extended tag; coded frames if it has none.
    pub open spec fn packet_type(self) -> u8 {
        match self.ex_packet_type {
            Some(p) => p,
            None => AUDIO_PACKET_TYPE_CODED_FRAMES,
        }
    }

    /// The first byte of an extended tag.
    pub open spec fn extended_head(self) -> u8 {
        (AUDIO_FORMAT_EX_HEADER * 16 + head_packet_type(
            self.mod_ex,
            outer_packet_type(self.multitrack, self.packet_type(), audio_medium()),
            audio_medium(),
        ) % 16) as u8
    }

    /// What follows the FourCC of an extended tag.
    pub open spec fn extended_body(self) -> Seq<u8> {
        match self.multitrack {
            Some(m) => m.encoded(),
            None => self.body,
        }
    }

    /// The first byte of a plain tag.
    pub open spec fn plain_head(self) -> u8 {
        (self.sound_format % 16 * 16 + self.sound_rate % 4 * 4 + if self.sound_size_16bit {
            2int
        } else {
            0
        } + if self.stereo {
            1int
        } else {
            0
        }) as u8
    }

    /// The payload of this tag.
    pub open spec fn encoded(self) -> Seq<u8> {
        if self.is_extended() {
            seq![self.extended_head()] + prelude_bytes(
                self.mod_ex,
                self.packet_type(),
                self.multitrack,
                self.audio_fourcc,
                audio_medium(),
            ) + self.extended_body()
        } else {
            seq![self.plain_head()] + (if self.sound_format == AUDIO_FORMAT_AAC {
                seq![
                    match self.aac_packet_type {
                        Some(p) => p,
                        None => AAC_PACKET_TYPE_RAW,
                    },
                ]
            } else {
                Seq::empty()
            }) + self.body
        }
    }
}

// ---------------------------------------------------------------------------
// The code
// ---------------------------------------------------------------------------

fn parse_extended(payload: &[u8]) -> (r: Result<AudioTag>)
    requires
        payload@.len() > 0,
        payload@[0] / 16 == AUDIO_FORMAT_EX_HEADER,
    ensures
        outcome(r) == audio_of(payload@),
{
    let n: usize = payload.len();
    let p = match parse_prelude(
        payload,
        AUDIO_PACKET_TYPE_MULTITRACK,
        AUDIO_PACKET_TYPE_MOD_EX,
        "audio",
    ) {
        Ok(p) => p,
        Err(e) => {
            return Err(e);
        },
    };
    let mut body: Vec<u8> = Vec::new();
    assert(body@ =~= Seq::empty());
    let mut multitrack: Option<Multitrack> = None;
    if let Some(mode) = p.multitrack_type {
        let list = vstd::slice::slice_subrange(payload, p.end, n);
        assert(list@ == from(payload@, p.end as int));
        match Multitrack::parse(list, mode) {
            Err(e) => {
                return Err(e);
            },
            Ok(m) => {
                multitrack = Some(m);
            },
        }
    } else {
        body = copy_range(payload, p.end, n);
    }
    Ok(
        AudioTag {
            sound_format: AUDIO_FORMAT_EX_HEADER,
            sound_rate: 0,
            sound_size_16bit: false,
            stereo: false,
            aac_packet_type: None,
            ex_packet_type: Some(p.packet_type),
            audio_fourcc: p.fourcc,
            body,
            mod_ex: p.mod_ex,
            multitrack,
        },
    )
}

/// The tag that the payload of an audio message holds.
pub fn parse_audio(payload: &[u8]) -> (r: Result<AudioTag>)
    ensures
        outcome(r) == audio_of(payload@),
{
    let n: usize = payload.len();
    if n == 0 {
        return Err(other("FLV audio tag: empty"));
    }
    let b0: u8 = payload[0];
    let sound_format: u8 = b0 / 16;
    if sound_format == AUDIO_FORMAT_EX_HEADER {
        return parse_extended(payload);
    }
    let mut aac_packet_type: Option<u8> = None;
    let mut start: usize = 1;
    if sound_format == AUDIO_FORMAT_AAC {
        if n < 2 {
            return Err(other("FLV/AAC tag: need 2+ bytes"));
        }
        aac_packet_type = Some(payload[1]);
        start = 2;
    }
    let mod_ex: Vec<ModEx> = Vec::new();
    assert(views(mod_ex@) =~= Seq::empty());
    Ok(
        AudioTag {
            sound_format,
            sound_rate: b0 / 4 % 4,
            sound_size_16bit: b0 / 2 % 2 == 1,
            stereo: b0 % 2 == 1,
            aac_packet_type,
            ex_packet_type: None,
            audio_fourcc: None,
            body: copy_range(payload, start, n),
            mod_ex,
            multitrack: None,
        },
    )
}

fn build_extended(tag: &AudioTag) -> (out: Vec<u8>)
    requires
        tag@.is_extended(),
    ensures
        out@ == tag@.encoded(),
{
    let packet_type: u8 = match tag.ex_packet_type {
        Some(p) => p,
        None => AUDIO_PACKET_TYPE_CODED_FRAMES,
    };
    let outer: u8 = if tag.multitrack.is_some() {
        AUDIO_PACKET_TYPE_MULTITRACK
    } else {
        packet_type
    };
    let first: u8 = if tag.mod_ex.len() == 0 {
        outer
    } else {
        AUDIO_PACKET_TYPE_MOD_EX
    };
    let mut out: Vec<u8> = Vec::new();
    out.push(AUDIO_FORMAT_EX_HEADER * 16 + first % 16);
    build_prelude(
        &mut out,
        &tag.mod_ex,
        packet_type,
        &tag.multitrack,
        &tag.audio_fourcc,
        AUDIO_PACKET_TYPE_MULTITRACK,
        AUDIO_PACKET_TYPE_MOD_EX,
        Ghost(audio_medium()),
    );
    match &tag.multitrack {
        Some(m) => {
            let list = m.encode();
            put_bytes(&mut out, list.as_slice());
        },
        None => {
            put_bytes(&mut out, tag.body.as_slice());
        },
    }
    assert(out@ =~= tag@.encoded());
    out
}

/// The payload of an audio tag. The extended form is taken where there is a
/// FourCC or there are tracks.
pub fn build_audio(tag: &AudioTag) -> (out: Vec<u8>)
    ensures
        out@ == tag@.encoded(),
{
    if tag.audio_fourcc.is_some() || tag.multitrack.is_some() {
        return build_extended(tag);
    }
    let size: u8 = if tag.sound_size_16bit {
        2
    } else {
        0
    };
    let channels: u8 = if tag.stereo {
        1
    } else {
        0
    };
    let mut out: Vec<u8> = Vec::new();
    out.push(tag.sound_format % 16 * 16 + tag.sound_rate % 4 * 4 + size + channels);
    if tag.sound_format == AUDIO_FORMAT_AAC {
        out.push(
            match tag.aac_packet_type {
                Some(p) => p,
                None => AAC_PACKET_TYPE_RAW,
            },
        );
    }
    put_bytes(&mut out, tag.body.as_slice());
    assert(out@ =~= tag@.encoded());
    out
}

fn extended(packet_type: u8, fourcc: Option<[u8; 4]>, body: Vec<u8>) -> (t: AudioTag)
    ensures
        t@ == extended_audio_tag(packet_type, fourcc_view(fourcc), body@),
{
    let mod_ex: Vec<ModEx> = Vec::new();
    assert(views(mod_ex@) =~= Seq::empty());
    AudioTag {
        sound_format: AUDIO_FORMAT_EX_HEADER,
        sound_rate: 0,
        sound_size_16bit: false,
        stereo: false,
        aac_packet_type: None,
        ex_packet_type: Some(packet_type),
        audio_fourcc: fourcc,
        body,
        mod_ex,
        multitrack: None,
    }
}

/// Whether an extended tag is of the given packet type.
pub open spec fn is_audio_of_type(t: AudioView, packet_type: u8) -> bool {
    t.audio_fourcc is Some && t.ex_packet_type == Some(packet_type)
}

/// The configuration that a tag holds: none if it is of another type.
pub open spec fn config_of(t: AudioView) -> core::result::Result<Option<MultichannelView>, Fault> {
    if is_audio_of_type(t, AUDIO_PACKET_TYPE_MULTICHANNEL_CONFIG) {
        match multichannel_of(t.body) {
            Ok(c) => Ok(Some(c)),
            Err(e) => Err(e),
        }
    } else {
        Ok(None)
    }
}

impl AudioTag {
    fn has_type(&self, packet_type: u8) -> (b: bool)
        ensures
            b == is_audio_of_type(self@, packet_type),
    {
        let same = match self.ex_packet_type {
            Some(p) => p == packet_type,
            None => false,
        };
        self.audio_fourcc.is_some() && same
    }

    /// Whether a FourCC names the codec.
    pub fn is_enhanced(&self) -> (b: bool)
        ensures
            b == (self@.audio_fourcc is Some),
    {
        self.audio_fourcc.is_some()
    }

    /// Whether this is the AAC configuration, in the plain form.
    pub fn is_aac_sequence_header(&self) -> (b: bool)
        ensures
            b == (self.sound_format == AUDIO_FORMAT_AAC && self.aac_packet_type == Some(
                AAC_PACKET_TYPE_SEQUENCE_HEADER,
            )),
    {
        let header = match self.aac_packet_type {
            Some(p) => p == AAC_PACKET_TYPE_SEQUENCE_HEADER,
            None => false,
        };
        self.sound_format == AUDIO_FORMAT_AAC && header
    }

    /// Whether this is a codec configuration, in the extended form.
    pub fn is_ex_sequence_header(&self) -> (b: bool)
        ensures
            b == is_audio_of_type(self@, AUDIO_PACKET_TYPE_SEQUENCE_START),
    {
        self.has_type(AUDIO_PACKET_TYPE_SEQUENCE_START)
    }

    /// Whether this tag ends a sequence.
    pub fn is_ex_sequence_end(&self) -> (b: bool)
        ensures
            b == is_audio_of_type(self@, AUDIO_PACKET_TYPE_SEQUENCE_END),
    {
        self.has_type(AUDIO_PACKET_TYPE_SEQUENCE_END)
    }

    /// The tag that ends a sequence.
    pub fn sequence_end_tag(fourcc: [u8; 4]) -> (t: AudioTag)
        ensures
            t@ == extended_audio_tag(AUDIO_PACKET_TYPE_SEQUENCE_END, Some(fourcc@), Seq::empty()),
    {
        let none: Vec<u8> = Vec::new();
        assert(none@ =~= Seq::empty());
        extended(AUDIO_PACKET_TYPE_SEQUENCE_END, Some(fourcc), none)
    }

    /// The nanosecond offset of this tag: the sum over its modifier entries.
    pub fn timestamp_offset_nano(&self) -> (n: u32)
        ensures
            n == nano_total(self@.mod_ex),
    {
        total_offset_nano(&self.mod_ex)
    }

    /// Whether this tag holds a multichannel configuration.
    pub fn is_multichannel_config(&self) -> (b: bool)
        ensures
            b == is_audio_of_type(self@, AUDIO_PACKET_TYPE_MULTICHANNEL_CONFIG),
    {
        self.has_type(AUDIO_PACKET_TYPE_MULTICHANNEL_CONFIG)
    }

    /// The multichannel configuration that this tag holds.
    pub fn multichannel_config(&self) -> (r: Result<Option<MultichannelConfig>>)
        ensures
            match r {
                Ok(c) => config_of(self@) == Ok::<Option<MultichannelView>, Fault>(opt_view(c)),
                Err(e) => config_of(self@) == Err::<Option<MultichannelView>, Fault>(e@),
            },
    {
        if self.is_multichannel_config() {
            match MultichannelConfig::parse(self.body.as_slice()) {
                Ok(c) => Ok(Some(c)),
                Err(e) => Err(e),
            }
        } else {
            Ok(None)
        }
    }

    /// A tag that holds a multichannel configuration.
    pub fn multichannel_config_tag(fourcc: [u8; 4], cfg: &MultichannelConfig) -> (t: AudioTag)
        ensures
            t@ == extended_audio_tag(
                AUDIO_PACKET_TYPE_MULTICHANNEL_CONFIG,
                Some(fourcc@),
                cfg@.encoded(),
            ),
    {
        extended(AUDIO_PACKET_TYPE_MULTICHANNEL_CONFIG, Some(fourcc), cfg.encode())
    }

    /// Whether this tag holds several tracks.
    pub fn is_multitrack(&self) -> (b: bool)
        ensures
            b == (self@.multitrack is Some),
    {
        self.multitrack.is_some()
    }

    /// A tag that holds tracks.
    pub fn multitrack_tag(
        real_packet_type: u8,
        shared_fourcc: Option<[u8; 4]>,
        mt: Multitrack,
    ) -> (t: AudioTag)
        ensures
            t@ == (AudioView {
                multitrack: Some(mt@),
                ..extended_audio_tag(real_packet_type, fourcc_view(shared_fourcc), Seq::empty())
            }),
    {
        let none: Vec<u8> = Vec::new();
        assert(none@ =~= Seq::empty());
        let mut t = extended(real_packet_type, shared_fourcc, none);
        t.multitrack = Some(mt);
        t
    }
}

// ---------------------------------------------------------------------------
// Messages
// ---------------------------------------------------------------------------

/// What an audio message says: a tag, or by an empty payload, silence.
#[derive(Debug, Clone, PartialEq, Eq)]
pub enum AudioMessage {
    Tag(AudioTag),
    Silence,
}

/// The mathematical view of [`AudioMessage`].
pub enum AudioMessageView {
    Tag(AudioView),
    Silence,
}

impl View for AudioMessage {
    type V = AudioMessageView;

    open spec fn view(&self) -> AudioMessageView {
        match *self {
            AudioMessage::Tag(t) => AudioMessageView::Tag(t@),
            AudioMessage::Silence => AudioMessageView::Silence,
        }
    }
}

impl AudioMessage {
    /// Whether this message says silence.
    pub fn is_silence(&self) -> (b: bool)
        ensures
            b == (self is Silence),
    {
        matches!(self, AudioMessage::Silence)
    }

    /// The tag, unless this message says silence.
    pub fn as_tag(&self) -> (r: Option<&AudioTag>)
        ensures
            match r {
                Some(t) => *self == AudioMessage::Tag(*t),
                None => self is Silence,
            },
    {
        match self {
            AudioMessage::Tag(t) => Some(t),
            AudioMessage::Silence => None,
        }
    }
}

/// Whether a payload says silence.
pub fn is_silence_payload(payload: &[u8]) -> (b: bool)
    ensures
        b == (payload@.len() == 0),
{
    payload.len() == 0
}

/// The payload that says silence.
pub fn build_silence_audio() -> (out: Vec<u8>)
    ensures
        out@ == Seq::<u8>::empty(),
{
    Vec::new()
}

/// What the payload of an audio message says.
pub open spec fn audio_message_of(s: Seq<u8>) -> core::result::Result<AudioMessageView, Fault> {
    if s.len() == 0 {
        Ok(AudioMessageView::Silence)
    } else {
        match audio_of(s) {
            Ok(t) => Ok(AudioMessageView::Tag(t)),
            Err(e) => Err(e),
        }
    }
}

/// The payload of an audio message.
pub open spec fn audio_message_bytes(m: AudioMessageView) -> Seq<u8> {
    match m {
        AudioMessageView::Tag(t) => t.encoded(),
        AudioMessageView::Silence => Seq::empty(),
    }
}

/// What the payload of an audio message says.
pub fn parse_audio_message(payload: &[u8]) -> (r: Result<AudioMessage>)
    ensures
        outcome(r) == audio_message_of(payload@),
{
    if is_silence_payload(payload) {
        Ok(AudioMessage::Silence)
    } else {
        match parse_audio(payload) {
            Ok(t) => Ok(AudioMessage::Tag(t)),
            Err(e) => Err(e),
        }
    }
}

/// The payload of an audio message.
pub fn build_audio_message(msg: &AudioMessage) -> (out: Vec<u8>)
    ensures
        out@ == audio_message_bytes(msg@),
{
    match msg {
        AudioMessage::Silence => build_silence_audio(),
        AudioMessage::Tag(tag) => build_audio(tag),
    }
}

// ---------------------------------------------------------------------------
// Laws
// ---------------------------------------------------------------------------

/// Whether a tag can be put on the wire as it is: no field is wider than its
/// place, and nothing is set that has no place.
pub open spec fn audio_fits(t: AudioView) -> bool {
    if t.is_extended() {
        &&& t.sound_format == AUDIO_FORMAT_EX_HEADER
        &&& t.sound_rate == 0 && !t.sound_size_16bit && !t.stereo
        &&& t.aac_packet_type is None
        &&& t.ex_packet_type is Some
        &&& prelude_fits(t.mod_ex, t.packet_type(), t.multitrack, t.audio_fourcc, audio_medium())
        &&& match t.multitrack {
            Some(m) => tracks_fit(m) && t.body == Seq::<u8>::empty(),
            None => true,
        }
    } else {
        &&& t.sound_format < 16
        &&& t.sound_format != AUDIO_FORMAT_EX_HEADER
        &&& t.sound_rate < 4
        &&& t.ex_packet_type is None
        &&& t.mod_ex == Seq::<ModExView>::empty()
        &&& t.aac_packet_type is Some <==> t.sound_format == AUDIO_FORMAT_AAC
    }
}

#[verifier::spinoff_prover]
#[verifier::rlimit(50)]
proof fn lemma_extended_round_trip(t: AudioView)
    requires
        audio_fits(t),
        t.is_extended(),
    ensures
        audio_of(t.encoded()) == Ok::<AudioView, Fault>(t),
{
    let medium = audio_medium();
    let head = t.extended_head();
    let p = prelude_bytes(t.mod_ex, t.packet_type(), t.multitrack, t.audio_fourcc, medium);
    let body = t.extended_body();
    let s = t.encoded();
    assert(head / 16 == AUDIO_FORMAT_EX_HEADER);
    lemma_prelude_round_trip(
        head,
        t.mod_ex,
        t.packet_type(),
        t.multitrack,
        t.audio_fourcc,
        medium,
        body,
    );
    assert(s == seq![head] + p + body);
    assert(s[0] == head);
    assert(from(s, 1 + p.len() as int) =~= body);
    if let Some(m) = t.multitrack {
        law_multitrack_round_trip(m);
    }
}

proof fn lemma_plain_head(t: AudioView)
    requires
        t.sound_format < 16,
        t.sound_rate < 4,
    ensures
        t.plain_head() / 16 == t.sound_format,
        t.plain_head() / 4 % 4 == t.sound_rate,
        (t.plain_head() / 2 % 2 == 1) == t.sound_size_16bit,
        (t.plain_head() % 2 == 1) == t.stereo,
{
}

#[verifier::spinoff_prover]
#[verifier::rlimit(50)]
proof fn lemma_aac_round_trip(t: AudioView)
    requires
        audio_fits(t),
        !t.is_extended(),
        t.sound_format == AUDIO_FORMAT_AAC,
    ensures
        audio_of(t.encoded()) == Ok::<AudioView, Fault>(t),
{
    let s = t.encoded();
    let head = t.plain_head();
    lemma_plain_head(t);
    assert(s == seq![head] + seq![t.aac_packet_type->0] + t.body);
    assert(s[0] == head && s[1] == t.aac_packet_type->0);
    assert(from(s, 2) =~= t.body);
}

#[verifier::spinoff_prover]
#[verifier::rlimit(50)]
proof fn lemma_plain_round_trip(t: AudioView)
    requires
        audio_fits(t),
        !t.is_extended(),
    ensures
        audio_of(t.encoded()) == Ok::<AudioView, Fault>(t),
{
    if t.sound_format == AUDIO_FORMAT_AAC {
        lemma_aac_round_trip(t);
    } else {
        let s = t.encoded();
        let head = t.plain_head();
        lemma_plain_head(t);
        assert(s == seq![head] + Seq::<u8>::empty() + t.body);
        assert(s[0] == head);
        assert(from(s, 1) =~= t.body);
    }
}

/// A tag that fits reads back as it was written.
pub proof fn law_audio_round_trip(t: AudioView)
    requires
        audio_fits(t),
    ensures
        audio_of(t.encoded()) == Ok::<AudioView, Fault>(t),
{
    if t.is_extended() {
        lemma_extended_round_trip(t);
    } else {
        lemma_plain_round_trip(t);
    }
}

/// Whatever payload parses, its tag fits, so that writing it and reading it
/// again gives the same tag.
#[verifier::spinoff_prover]
#[verifier::rlimit(50)]
pub proof fn law_parsed_audio_fits(s: Seq<u8>)
    requires
        audio_of(s) is Ok,
    ensures
        audio_fits(audio_of(s)->Ok_0),
        audio_of(audio_of(s)->Ok_0.encoded()) == audio_of(s),
{
    let t = audio_of(s)->Ok_0;
    if s[0] / 16 == AUDIO_FORMAT_EX_HEADER {
        let p = prelude_of(s, audio_medium())->Ok_0;
        lemma_parsed_prelude_fits(s, audio_medium(), t.multitrack);
        if let Some(mode) = p.multitrack_type {
            law_parsed_tracks_fit(from(s, p.end), mode);
        }
    }
    law_audio_round_trip(t);
}

#[verifier::spinoff_prover]
#[verifier::rlimit(50)]
proof fn lemma_extended_exact(s: Seq<u8>)
    requires
        s.len() > 0,
        s[0] / 16 == AUDIO_FORMAT_EX_HEADER,
        audio_of(s) is Ok,
        audio_of(s)->Ok_0.mod_ex.len() == 0,
    ensures
        audio_of(s)->Ok_0.encoded() == s,
{
    let medium = audio_medium();
    let p = prelude_of(s, medium)->Ok_0;
    let t = audio_of(s)->Ok_0;
    lemma_bare_prelude_exact(s, medium, t.multitrack);
    if let Some(mode) = p.multitrack_type {
        law_multitrack_parse_is_exact(from(s, p.end), mode);
    }
    assert(t.extended_head() == s[0]);
    assert(t.is_extended());
    assert(seq![s[0]] + s.subrange(1, p.end) + from(s, p.end) =~= s);
}

proof fn lemma_head_parts(b: u8)
    ensures
        b == b / 16 * 16 + b / 4 % 4 * 4 + b / 2 % 2 * 2 + b % 2,
        b / 16 < 16,
{
    let half = b / 2;
    let quarter = b / 4;
    assert(half == quarter * 2 + half % 2);
    assert(b / 16 == quarter / 4);
}

#[verifier::spinoff_prover]
#[verifier::rlimit(60)]
proof fn lemma_plain_exact(s: Seq<u8>)
    requires
        s.len() > 0,
        s[0] / 16 != AUDIO_FORMAT_EX_HEADER,
        audio_of(s) is Ok,
    ensures
        audio_of(s)->Ok_0.encoded() == s,
{
    let t = audio_of(s)->Ok_0;
    lemma_head_parts(s[0]);
    assert(t.plain_head() == s[0]);
    if t.sound_format == AUDIO_FORMAT_AAC {
        assert(seq![s[0]] + seq![s[1]] + from(s, 2) =~= s);
    } else {
        assert(seq![s[0]] + Seq::<u8>::empty() + from(s, 1) =~= s);
    }
}

/// Writing a tag that was read gives back the payload that it was read from, where that
/// had no modifier entries.
pub proof fn law_audio_parse_is_exact(s: Seq<u8>)
    requires
        audio_of(s) is Ok,
        audio_of(s)->Ok_0.mod_ex.len() == 0,
    ensures
        audio_of(s)->Ok_0.encoded() == s,
{
    if s[0] / 16 == AUDIO_FORMAT_EX_HEADER {
        lemma_extended_exact(s);
    } else {
        lemma_plain_exact(s);
    }
}

/// An audio message reads back as it was written, silence included.
pub proof fn law_audio_message_round_trip(m: AudioMessageView)
    requires
        m matches AudioMessageView::Tag(t) ==> audio_fits(t),
    ensures
        audio_message_of(audio_message_bytes(m)) == Ok::<AudioMessageView, Fault>(m),
{
    if let AudioMessageView::Tag(t) = m {
        law_audio_round_trip(t);
    }
}

/// The empty payload is the only one that says silence.
pub proof fn law_only_empty_is_silence(s: Seq<u8>)
    ensures
        audio_message_of(s) == Ok::<AudioMessageView, Fault>(AudioMessageView::Silence)
            <==> s.len() == 0,
{
}

/// A multichannel configuration comes back out of the tag that was made for it.
pub proof fn law_config_tag_round_trip(fourcc: Seq<u8>, c: MultichannelView)
    requires
        consistent(c),
    ensures
        config_of(
            extended_audio_tag(AUDIO_PACKET_TYPE_MULTICHANNEL_CONFIG, Some(fourcc), c.encoded()),
        ) == Ok::<Option<MultichannelView>, Fault>(Some(c)),
{
    law_multichannel_round_trip(c);
}

} // verus!
