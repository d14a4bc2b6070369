//! From media events to streams and packets.
//!
//! A feed takes one event after the other and gives a packet for each tag. It can be
//! probed first: then the packets of the first events are kept back until the streams
//! are known, and replayed in order.

use std::collections::VecDeque;
use vstd::prelude::*;
use oxideav_core::{CodecParameters, Packet, StreamInfo};
use crate::adapter::codec::{audio_codec_params, video_codec_params};
#[allow(unused_imports)]
use crate::adapter::codec::{audio_params, video_params};
#[allow(unused_imports)]
use crate::adapter::core_types::{
    packet_view, packet_views, params_view, stream_view, stream_views, PacketView, ParamsView,
    StreamView,
};
use crate::adapter::packet::{
    audio_times_fit, audio_to_packet, rtmp_time_base, video_times_fit, video_to_packet,
    AUDIO_STREAM_INDEX, VIDEO_STREAM_INDEX,
};
#[allow(unused_imports)]
use crate::adapter::packet::{
    audio_fits, audio_packet, video_fits, video_packet, TICKS_PER_SECOND,
};
use crate::adapter::timeline::TimestampUnwrapper;
#[allow(unused_imports)]
use crate::adapter::timeline::placed;
use crate::amf::Amf0Value;
#[allow(unused_imports)]
use crate::amf::{pair_views, Amf0};
#[allow(unused_imports)]
use crate::amf3::bridge::gives;
use crate::error::{Error, IoErrorKind};
#[allow(unused_imports)]
use crate::error::Fault;
use crate::flv::{AudioTag, VideoTag};
#[allow(unused_imports)]
use crate::flv::audio::AudioView;
#[allow(unused_imports)]
use crate::flv::video::VideoView;
use crate::number::Double;

verus! {

/// How many events are looked at to find the streams.
pub const PROBE_LIMIT: usize = 32;

// ---------------------------------------------------------------------------
// Metadata
// ---------------------------------------------------------------------------

/// The text of a scalar, where `text` gives the text of a number.
pub open spec fn scalar_text(v: Amf0, text: spec_fn(u64) -> Seq<char>) -> Option<Seq<char>> {
    match v {
        Amf0::Number(bits) => Some(text(bits)),
        Amf0::Boolean(true) => Some("true"@),
        Amf0::Boolean(false) => Some("false"@),
        Amf0::String(s) => Some(s),
        _ => None,
    }
}

/// The scalars among named values, as texts.
pub open spec fn flat_pairs(
    pairs: Seq<(Seq<char>, Amf0)>,
    text: spec_fn(u64) -> Seq<char>,
) -> Seq<(Seq<char>, Seq<char>)>
    decreases pairs.len(),
{
    if pairs.len() == 0 {
        Seq::empty()
    } else {
        let before = flat_pairs(pairs.drop_last(), text);
        match scalar_text(pairs.last().1, text) {
            Some(s) => before.push((pairs.last().0, s)),
            None => before,
        }
    }
}

/// The scalars of an object or an ECMA array, as texts; nothing of any other value.
pub open spec fn flattened(v: Amf0, text: spec_fn(u64) -> Seq<char>) -> Seq<(
    Seq<char>,
    Seq<char>,
)> {
    match v {
        Amf0::Object(pairs) => flat_pairs(pairs, text),
        Amf0::EcmaArray(pairs) => flat_pairs(pairs, text),
        _ => Seq::empty(),
    }
}

/// The views of pairs of texts.
pub open spec fn text_pairs(s: Seq<(String, String)>) -> Seq<(Seq<char>, Seq<char>)> {
    Seq::new(s.len(), |i: int| (s[i].0@, s[i].1@))
}

/// Whether a value is a scalar.
pub open spec fn is_scalar(v: Amf0) -> bool {
    v is Number || v is Boolean || v is String
}

/// The scalars among named values.
pub open spec fn scalar_pairs(pairs: Seq<(Seq<char>, Amf0)>) -> Seq<(Seq<char>, Amf0)>
    decreases pairs.len(),
{
    if pairs.len() == 0 {
        Seq::empty()
    } else {
        let before = scalar_pairs(pairs.drop_last());
        if is_scalar(pairs.last().1) {
            before.push(pairs.last())
        } else {
            before
        }
    }
}

/// The scalars of an object or an ECMA array; nothing of any other value.
pub open spec fn scalars_of(v: Amf0) -> Seq<(Seq<char>, Amf0)> {
    match v {
        Amf0::Object(pairs) => scalar_pairs(pairs),
        Amf0::EcmaArray(pairs) => scalar_pairs(pairs),
        _ => Seq::empty(),
    }
}

/// Whether `s` is a text that `number_text` gives for a number.
pub open spec fn is_number_text<F: Fn(Double) -> String>(
    number_text: F,
    d: Double,
    s: Seq<char>,
) -> bool {
    exists|t: String| #[trigger] call_ensures(number_text, (d,), t) && t@ == s
}

/// Whether `s` is the text of a scalar, or for a number one that `number_text` gives.
pub open spec fn is_text_of<F: Fn(Double) -> String>(number_text: F, v: Amf0, s: Seq<char>) -> bool {
    match v {
        Amf0::Number(bits) => is_number_text(number_text, Double { bits }, s),
        Amf0::Boolean(true) => s == "true"@,
        Amf0::Boolean(false) => s == "false"@,
        Amf0::String(t) => s == t,
        _ => false,
    }
}

/// Whether `out` names each of `scalars` in order, with its text.
pub open spec fn written_out<F: Fn(Double) -> String>(
    number_text: F,
    scalars: Seq<(Seq<char>, Amf0)>,
    out: Seq<(Seq<char>, Seq<char>)>,
) -> bool {
    &&& out.len() == scalars.len()
    &&& forall|i: int|
        0 <= i < out.len() ==> (#[trigger] out[i]).0 == scalars[i].0 && is_text_of(
            number_text,
            scalars[i].1,
            out[i].1,
        )
}

/// Where the text of every number is fixed, so are the texts of all scalars.
pub proof fn law_fixed_texts_fix_the_pairs<F: Fn(Double) -> String>(
    number_text: F,
    text: spec_fn(u64) -> Seq<char>,
    v: Amf0,
    out: Seq<(Seq<char>, Seq<char>)>,
)
    requires
        gives(number_text, text),
        written_out(number_text, scalars_of(v), out),
    ensures
        out == flattened(v, text),
{
    match v {
        Amf0::Object(pairs) => {
            lemma_fixed_pairs(number_text, text, pairs, out);
        },
        Amf0::EcmaArray(pairs) => {
            lemma_fixed_pairs(number_text, text, pairs, out);
        },
        _ => {
            assert(out =~= Seq::empty());
        },
    }
}

proof fn lemma_fixed_pairs<F: Fn(Double) -> String>(
    number_text: F,
    text: spec_fn(u64) -> Seq<char>,
    pairs: Seq<(Seq<char>, Amf0)>,
    out: Seq<(Seq<char>, Seq<char>)>,
)
    requires
        gives(number_text, text),
        written_out(number_text, scalar_pairs(pairs), out),
    ensures
        out == flat_pairs(pairs, text),
    decreases pairs.len(),
{
    if pairs.len() == 0 {
        assert(out =~= Seq::empty());
    } else if is_scalar(pairs.last().1) {
        let front = out.drop_last();
        let scalars = scalar_pairs(pairs);
        assert(scalars.drop_last() =~= scalar_pairs(pairs.drop_last()));
        assert forall|i: int| 0 <= i < front.len() implies (#[trigger] front[i]).0
            == scalars.drop_last()[i].0 && is_text_of(
            number_text,
            scalars.drop_last()[i].1,
            front[i].1,
        ) by {
            assert(front[i] == out[i]);
        }
        lemma_fixed_pairs(number_text, text, pairs.drop_last(), front);
        assert(out.last() == out[out.len() - 1]);
        assert(Some(out.last().1) == scalar_text(pairs.last().1, text));
        assert(out =~= front.push(out.last()));
    } else {
        lemma_fixed_pairs(number_text, text, pairs.drop_last(), out);
    }
}

fn text_of<F: Fn(Double) -> String>(v: &Amf0Value, number_text: &F) -> (r: Option<String>)
    requires
        forall|d: Double| call_requires(*number_text, (d,)),
    ensures
        match r {
            Some(s) => is_text_of(*number_text, v@, s@),
            None => !is_scalar(v@),
        },
{
    match v {
        Amf0Value::Number(n) => {
            let t = number_text(*n);
            assert(call_ensures(*number_text, (*n,), t));
            assert(is_number_text(*number_text, *n, t@));
            Some(t)
        },
        Amf0Value::Boolean(b) => Some(
            if *b {
                "true".to_owned()
            } else {
                "false".to_owned()
            },
        ),
        Amf0Value::String(s) => Some(s.clone()),
        _ => None,
    }
}

fn flatten_pairs<F: Fn(Double) -> String>(
    pairs: &Vec<(String, Amf0Value)>,
    number_text: &F,
) -> (out: Vec<(String, String)>)
    requires
        forall|d: Double| call_requires(*number_text, (d,)),
    ensures
        written_out(*number_text, scalar_pairs(pair_views(pairs@)), text_pairs(out@)),
{
    let ghost all = pair_views(pairs@);
    let mut out: Vec<(String, String)> = Vec::new();
    let mut i: usize = 0;
    while i < pairs.len()
        invariant
            i <= pairs@.len(),
            all == pair_views(pairs@),
            forall|d: Double| call_requires(*number_text, (d,)),
            written_out(
                *number_text,
                scalar_pairs(all.subrange(0, i as int)),
                text_pairs(out@),
            ),
        decreases pairs@.len() - i,
    {
        let ghost before = text_pairs(out@);
        let text = text_of(&pairs[i].1, number_text);
        proof {
            let next = all.subrange(0, i + 1);
            assert(next.drop_last() =~= all.subrange(0, i as int));
            assert(next.last() == (pairs@[i as int].0@, pairs@[i as int].1@));
        }
        match text {
            Some(s) => {
                out.push((pairs[i].0.clone(), s));
                assert(text_pairs(out@) =~= before.push((pairs@[i as int].0@, s@)));
            },
            None => {},
        }
        i = i + 1;
    }
    assert(all.subrange(0, i as int) =~= all);
    out
}

/// Append the scalars of an object or an ECMA array, as texts. What is no scalar is
/// dropped. `number_text` gives the text of a number.
pub fn flatten_metadata<F: Fn(Double) -> String>(
    value: &Amf0Value,
    number_text: &F,
    out: &mut Vec<(String, String)>,
)
    requires
        forall|d: Double| call_requires(*number_text, (d,)),
    ensures
        exists|added: Seq<(Seq<char>, Seq<char>)>|
            written_out(*number_text, scalars_of(value@), added) && text_pairs(final(out)@)
                == text_pairs(old(out)@) + added,
        forall|text: spec_fn(u64) -> Seq<char>|
            gives(*number_text, text) ==> text_pairs(final(out)@) == text_pairs(old(out)@)
                + #[trigger] flattened(value@, text),
{
    let mut more = scalar_texts(value, number_text);
    let ghost added = text_pairs(more@);
    proof {
        assert forall|text: spec_fn(u64) -> Seq<char>| gives(*number_text, text) implies added
            == #[trigger] flattened(value@, text) by {
            law_fixed_texts_fix_the_pairs(*number_text, text, value@, added);
        }
    }
    out.append(&mut more);
    assert(text_pairs(out@) =~= text_pairs(old(out)@) + added);
}

fn scalar_texts<F: Fn(Double) -> String>(value: &Amf0Value, number_text: &F) -> (out: Vec<
    (String, String),
>)
    requires
        forall|d: Double| call_requires(*number_text, (d,)),
    ensures
        written_out(*number_text, scalars_of(value@), text_pairs(out@)),
{
    proof {
        crate::amf::lemma_container_views(*value);
    }
    match value {
        Amf0Value::Object(p) => flatten_pairs(p, number_text),
        Amf0Value::EcmaArray(p) => flatten_pairs(p, number_text),
        _ => Vec::new(),
    }
}

// ---------------------------------------------------------------------------
// Events
// ---------------------------------------------------------------------------

/// What a session or a player hands over.
#[allow(inconsistent_fields)]
#[derive(Debug)]
pub enum MediaSourceEvent {
    Audio { timestamp: u32, tag: AudioTag },
    Video { timestamp: u32, tag: VideoTag },
    /// Metadata, as flat pairs of texts.
    Metadata(Vec<(String, String)>),
    /// Something that is no media.
    Skip,
    /// The stream has ended.
    End,
}

/// The mathematical view of [`MediaSourceEvent`].
#[allow(inconsistent_fields)]
pub enum EventView {
    Audio { timestamp: u32, tag: AudioView },
    Video { timestamp: u32, tag: VideoView },
    Metadata(Seq<(Seq<char>, Seq<char>)>),
    Skip,
    End,
}

impl View for MediaSourceEvent {
    type V = EventView;

    open spec fn view(&self) -> EventView {
        match *self {
            MediaSourceEvent::Audio { timestamp, tag } => EventView::Audio { timestamp, tag: tag@ },
            MediaSourceEvent::Video { timestamp, tag } => EventView::Video { timestamp, tag: tag@ },
            MediaSourceEvent::Metadata(pairs) => EventView::Metadata(text_pairs(pairs@)),
            MediaSourceEvent::Skip => EventView::Skip,
            MediaSourceEvent::End => EventView::End,
        }
    }
}

impl MediaSourceEvent {
    /// The event of a metadata value.
    pub fn metadata<F: Fn(Double) -> String>(value: &Amf0Value, number_text: &F) -> (
        e: MediaSourceEvent)
        requires
            forall|d: Double| call_requires(*number_text, (d,)),
        ensures
            e@ matches EventView::Metadata(pairs) && written_out(
                *number_text,
                scalars_of(value@),
                pairs,
            ),
            forall|text: spec_fn(u64) -> Seq<char>|
                gives(*number_text, text) ==> e@ == EventView::Metadata(
                    #[trigger] flattened(value@, text),
                ),
    {
        let pairs = scalar_texts(value, number_text);
        proof {
            assert forall|text: spec_fn(u64) -> Seq<char>|
                gives(*number_text, text) implies text_pairs(pairs@) == #[trigger] flattened(
                value@,
                text,
            ) by {
                law_fixed_texts_fix_the_pairs(*number_text, text, value@, text_pairs(pairs@));
            }
        }
        MediaSourceEvent::Metadata(pairs)
    }
}

/// Whether the times of an event have a place on the timeline.
pub open spec fn event_fits(last: Option<(u32, i64)>, e: EventView) -> bool {
    match e {
        EventView::Audio { timestamp, tag } => {
            let place = placed(last, timestamp);
            i64::MIN <= place <= i64::MAX && audio_fits(place, tag)
        },
        EventView::Video { timestamp, tag } => {
            let place = placed(last, timestamp);
            i64::MIN <= place <= i64::MAX && video_fits(place, tag)
        },
        _ => true,
    }
}

// ---------------------------------------------------------------------------
// The feed
// ---------------------------------------------------------------------------

/// Whether a stream of the given index is among `streams`.
pub open spec fn has_stream(streams: Seq<StreamView>, index: u32) -> bool {
    exists|i: int| 0 <= i < streams.len() && (#[trigger] streams[i]).index == index
}

/// How many streams stand before the place of a stream of the given index: those at
/// the front whose index is not greater.
pub open spec fn place_of(streams: Seq<StreamView>, index: u32) -> int
    decreases streams.len(),
{
    if streams.len() == 0 || streams[0].index > index {
        0
    } else {
        1 + place_of(streams.subrange(1, streams.len() as int), index)
    }
}

/// The stream of the given index and parameters.
pub open spec fn new_stream(index: u32, params: ParamsView) -> StreamView {
    StreamView {
        index,
        time_base: (1, TICKS_PER_SECOND),
        duration: None,
        start_time: None,
        params,
    }
}

/// The streams after a tag of the stream `index`: a new one is put in its place by
/// index.
pub open spec fn with_stream(streams: Seq<StreamView>, index: u32, params: ParamsView) -> Seq<
    StreamView,
> {
    if has_stream(streams, index) {
        streams
    } else {
        streams.insert(place_of(streams, index), new_stream(index, params))
    }
}

/// The mathematical view of [`PacketFeed`].
pub struct FeedView {
    pub streams: Seq<StreamView>,
    pub metadata: Seq<(Seq<char>, Seq<char>)>,
    pub buffered: Seq<PacketView>,
    pub ended: bool,
    /// The last timestamp and its place.
    pub last: Option<(u32, i64)>,
}

/// A feed that has seen nothing.
pub open spec fn fresh_feed() -> FeedView {
    FeedView {
        streams: Seq::empty(),
        metadata: Seq::empty(),
        buffered: Seq::empty(),
        ended: false,
        last: None,
    }
}

/// A feed after an event, and the packet that the event gives.
pub open spec fn observed(v: FeedView, e: EventView) -> (FeedView, Option<PacketView>) {
    match e {
        EventView::Audio { timestamp, tag } => {
            let place = placed(v.last, timestamp);
            (
                FeedView {
                    streams: with_stream(v.streams, AUDIO_STREAM_INDEX, audio_params(tag)),
                    last: Some((timestamp, place as i64)),
                    ..v
                },
                Some(audio_packet(place, tag)),
            )
        },
        EventView::Video { timestamp, tag } => {
            let place = placed(v.last, timestamp);
            (
                FeedView {
                    streams: with_stream(v.streams, VIDEO_STREAM_INDEX, video_params(tag)),
                    last: Some((timestamp, place as i64)),
                    ..v
                },
                Some(video_packet(place, tag)),
            )
        },
        EventView::Metadata(pairs) => (FeedView { metadata: v.metadata + pairs, ..v }, None),
        EventView::Skip => (v, None),
        EventView::End => (FeedView { ended: true, ..v }, None),
    }
}

/// What a feed has to say.
#[derive(Debug)]
pub enum FeedStep {
    Packet(Packet),
    /// The next event has to come.
    NeedEvent,
    /// The stream has ended.
    Eof,
}

/// The mathematical view of [`FeedStep`].
pub enum FeedStepView {
    Packet(PacketView),
    NeedEvent,
    Eof,
}

impl View for FeedStep {
    type V = FeedStepView;

    open spec fn view(&self) -> FeedStepView {
        match *self {
            FeedStep::Packet(p) => FeedStepView::Packet(packet_view(p)),
            FeedStep::NeedEvent => FeedStepView::NeedEvent,
            FeedStep::Eof => FeedStepView::Eof,
        }
    }
}

/// What a feed says to an event.
pub open spec fn answer(e: EventView, packet: Option<PacketView>) -> FeedStepView {
    match (e, packet) {
        (EventView::End, _) => FeedStepView::Eof,
        (_, Some(p)) => FeedStepView::Packet(p),
        (_, None) => FeedStepView::NeedEvent,
    }
}

/// What a feed says by itself, and the feed afterwards.
pub open spec fn polled(v: FeedView) -> (FeedStepView, FeedView) {
    if v.buffered.len() > 0 {
        (
            FeedStepView::Packet(v.buffered[0]),
            FeedView { buffered: v.buffered.subrange(1, v.buffered.len() as int), ..v },
        )
    } else if v.ended {
        (FeedStepView::Eof, v)
    } else {
        (FeedStepView::NeedEvent, v)
    }
}

/// The streams, the metadata and the packets of a session or a player.
pub struct PacketFeed {
    streams: Vec<StreamInfo>,
    metadata: Vec<(String, String)>,
    buffered: VecDeque<Packet>,
    ended: bool,
    ts: TimestampUnwrapper,
}

impl View for PacketFeed {
    type V = FeedView;

    closed spec fn view(&self) -> FeedView {
        FeedView {
            streams: stream_views(self.streams@),
            metadata: text_pairs(self.metadata@),
            buffered: packet_views(self.buffered@),
            ended: self.ended,
            last: self.ts@,
        }
    }
}

fn has_index(streams: &Vec<StreamInfo>, index: u32) -> (b: bool)
    ensures
        b == has_stream(stream_views(streams@), index),
{
    let ghost all = stream_views(streams@);
    let mut i: usize = 0;
    while i < streams.len()
        invariant
            i <= streams@.len(),
            all == stream_views(streams@),
            forall|k: int| 0 <= k < i ==> (#[trigger] all[k]).index != index,
        decreases streams@.len() - i,
    {
        assert(all[i as int].index == streams@[i as int].index);
        if streams[i].index == index {
            return true;
        }
        i = i + 1;
    }
    false
}

fn place_for(streams: &Vec<StreamInfo>, index: u32) -> (n: usize)
    ensures
        n == place_of(stream_views(streams@), index),
        n <= streams@.len(),
{
    let ghost all = stream_views(streams@);
    let mut i: usize = 0;
    assert(all.subrange(0, all.len() as int) =~= all);
    while i < streams.len()
        invariant
            i <= streams@.len(),
            all == stream_views(streams@),
            place_of(all, index) == i + place_of(all.subrange(i as int, all.len() as int), index),
        decreases streams@.len() - i,
    {
        let ghost rest = all.subrange(i as int, all.len() as int);
        assert(rest[0].index == streams@[i as int].index);
        if streams[i].index > index {
            return i;
        }
        assert(rest.subrange(1, rest.len() as int) =~= all.subrange(i + 1, all.len() as int));
        i = i + 1;
    }
    i
}

fn note_stream(streams: &mut Vec<StreamInfo>, index: u32, params: CodecParameters)
    ensures
        stream_views(final(streams)@) == with_stream(
            stream_views(old(streams)@),
            index,
            params_view(params),
        ),
{
    if has_index(streams, index) {
        return;
    }
    let info = StreamInfo {
        index,
        time_base: rtmp_time_base(),
        duration: None,
        start_time: None,
        params,
    };
    let at: usize = place_for(streams, index);
    let ghost before = stream_views(streams@);
    streams.insert(at, info);
    assert(stream_views(streams@) =~= before.insert(at as int, stream_view(info)));
}

fn append_texts(out: &mut Vec<(String, String)>, pairs: Vec<(String, String)>)
    ensures
        text_pairs(final(out)@) == text_pairs(old(out)@) + text_pairs(pairs@),
{
    let mut more = pairs;
    out.append(&mut more);
    assert(text_pairs(out@) =~= text_pairs(old(out)@) + text_pairs(pairs@));
}

impl PacketFeed {
    /// A feed that has seen nothing.
    pub fn new() -> (f: PacketFeed)
        ensures
            f@ == fresh_feed(),
    {
        let f = PacketFeed {
            streams: Vec::new(),
            metadata: Vec::new(),
            buffered: VecDeque::new(),
            ended: false,
            ts: TimestampUnwrapper::new(),
        };
        assert(stream_views(f.streams@) =~= Seq::empty());
        assert(text_pairs(f.metadata@) =~= Seq::empty());
        assert(packet_views(f.buffered@) =~= Seq::empty());
        f
    }

    /// The streams that were seen, by index.
    pub fn streams(&self) -> (s: &[StreamInfo])
        ensures
            stream_views(s@) == self@.streams,
    {
        self.streams.as_slice()
    }

    /// The metadata that was seen.
    pub fn metadata(&self) -> (s: &[(String, String)])
        ensures
            text_pairs(s@) == self@.metadata,
    {
        self.metadata.as_slice()
    }

    /// Whether the stream has ended.
    pub fn ended(&self) -> (b: bool)
        ensures
            b == self@.ended,
    {
        self.ended
    }

    /// Whether the times of an event have a place on the timeline.
    pub fn accepts(&self, event: &MediaSourceEvent) -> (b: bool)
        ensures
            b == event_fits(self@.last, event@),
    {
        match event {
            MediaSourceEvent::Audio { timestamp, tag } => match self.ts.peek_ms(*timestamp) {
                Some(place) => audio_times_fit(place, tag),
                None => false,
            },
            MediaSourceEvent::Video { timestamp, tag } => match self.ts.peek_ms(*timestamp) {
                Some(place) => video_times_fit(place, tag),
                None => false,
            },
            _ => true,
        }
    }

    fn observe(&mut self, event: MediaSourceEvent) -> (packet: Option<Packet>)
        requires
            event_fits(old(self)@.last, event@),
        ensures
            final(self)@ == observed(old(self)@, event@).0,
            observed(old(self)@, event@).1 == match packet {
                Some(p) => Some(packet_view(p)),
                None => None::<PacketView>,
            },
    {
        match event {
            MediaSourceEvent::Audio { timestamp, tag } => {
                note_stream(&mut self.streams, AUDIO_STREAM_INDEX, audio_codec_params(&tag));
                let place: i64 = self.ts.unwrap_ms(timestamp);
                Some(audio_to_packet(place, &tag))
            },
            MediaSourceEvent::Video { timestamp, tag } => {
                note_stream(&mut self.streams, VIDEO_STREAM_INDEX, video_codec_params(&tag));
                let place: i64 = self.ts.unwrap_ms(timestamp);
                Some(video_to_packet(place, &tag))
            },
            MediaSourceEvent::Metadata(pairs) => {
                append_texts(&mut self.metadata, pairs);
                None
            },
            MediaSourceEvent::Skip => None,
            MediaSourceEvent::End => {
                self.ended = true;
                None
            },
        }
    }

    /// What the feed has to say without an event: the next packet that was kept back,
    /// or that the stream has ended.
    pub fn poll(&mut self) -> (r: FeedStep)
        ensures
            r@ == polled(old(self)@).0,
            final(self)@ == polled(old(self)@).1,
    {
        let ghost all = packet_views(self.buffered@);
        match self.buffered.pop_front() {
            Some(p) => {
                assert(all[0] == packet_view(p));
                assert(packet_views(self.buffered@) =~= all.subrange(1, all.len() as int));
                FeedStep::Packet(p)
            },
            None => if self.ended {
                FeedStep::Eof
            } else {
                FeedStep::NeedEvent
            },
        }
    }

    /// Take an event.
    pub fn on_event(&mut self, event: MediaSourceEvent) -> (r: FeedStep)
        requires
            event_fits(old(self)@.last, event@),
        ensures
            final(self)@ == observed(old(self)@, event@).0,
            r@ == answer(event@, observed(old(self)@, event@).1),
    {
        let is_end = match &event {
            MediaSourceEvent::End => true,
            _ => false,
        };
        match self.observe(event) {
            Some(p) => FeedStep::Packet(p),
            None => if is_end {
                FeedStep::Eof
            } else {
                FeedStep::NeedEvent
            },
        }
    }
}

// ---------------------------------------------------------------------------
// Probing
// ---------------------------------------------------------------------------

/// The mathematical view of [`Probe`].
pub struct ProbeView {
    pub feed: FeedView,
    pub left: nat,
}

/// Whether a probe wants another event: there are events left to look at, one of the
/// streams is missing, and the stream has not ended.
pub open spec fn wants(p: ProbeView) -> bool {
    p.left > 0 && !p.feed.ended && !(has_stream(p.feed.streams, AUDIO_STREAM_INDEX) && has_stream(
        p.feed.streams,
        VIDEO_STREAM_INDEX,
    ))
}

/// A probe after an event: the packet is kept back.
pub open spec fn probed(p: ProbeView, e: EventView) -> ProbeView {
    let (feed, packet) = observed(p.feed, e);
    ProbeView {
        feed: FeedView {
            buffered: match packet {
                Some(x) => p.feed.buffered.push(x),
                None => p.feed.buffered,
            },
            ..feed
        },
        left: (p.left - 1) as nat,
    }
}

/// Whether an error while probing only means that nothing more came in time.
pub open spec fn is_pause(e: Fault) -> bool {
    e matches Fault::Io(kind, _) && (kind == IoErrorKind::WouldBlock || kind
        == IoErrorKind::TimedOut)
}

/// Whether an error while probing only means that nothing more came in time. The
/// probe is then over, with what it has seen.
pub fn ends_probe(e: &Error) -> (b: bool)
    ensures
        b == is_pause(e@),
{
    match e {
        Error::Io(io) => match io.kind {
            IoErrorKind::WouldBlock => true,
            IoErrorKind::TimedOut => true,
            _ => false,
        },
        _ => false,
    }
}

/// Looks at the first events to find the streams, and keeps their packets back.
pub struct Probe {
    feed: PacketFeed,
    left: usize,
}

impl View for Probe {
    type V = ProbeView;

    closed spec fn view(&self) -> ProbeView {
        ProbeView { feed: self.feed@, left: self.left as nat }
    }
}

impl Probe {
    pub fn new() -> (p: Probe)
        ensures
            p@ == (ProbeView { feed: fresh_feed(), left: PROBE_LIMIT as nat }),
    {
        Probe { feed: PacketFeed::new(), left: PROBE_LIMIT }
    }

    /// Whether another event is wanted.
    pub fn wants_more(&self) -> (b: bool)
        ensures
            b == wants(self@),
    {
        self.left > 0 && !self.feed.ended && !(has_index(&self.feed.streams, AUDIO_STREAM_INDEX)
            && has_index(&self.feed.streams, VIDEO_STREAM_INDEX))
    }

    /// Whether the times of an event have a place on the timeline.
    pub fn accepts(&self, event: &MediaSourceEvent) -> (b: bool)
        ensures
            b == event_fits(self@.feed.last, event@),
    {
        self.feed.accepts(event)
    }

    /// Take an event that was wanted.
    pub fn on_event(&mut self, event: MediaSourceEvent)
        requires
            wants(old(self)@),
            event_fits(old(self)@.feed.last, event@),
        ensures
            final(self)@ == probed(old(self)@, event@),
    {
        let ghost kept = packet_views(self.feed.buffered@);
        self.left = self.left - 1;
        match self.feed.observe(event) {
            Some(p) => {
                let ghost between = self.feed.buffered@;
                self.feed.buffered.push_back(p);
                assert(packet_views(self.feed.buffered@) =~= packet_views(between).push(
                    packet_view(p),
                ));
            },
            None => {},
        }
    }

    /// The feed, with the packets that were kept back.
    pub fn finish(self) -> (f: PacketFeed)
        ensures
            f@ == self@.feed,
    {
        self.feed
    }
}

// ---------------------------------------------------------------------------
// Laws
// ---------------------------------------------------------------------------

/// Whether streams stand in the order of their indices, none twice.
pub open spec fn in_order(streams: Seq<StreamView>) -> bool {
    forall|i: int, j: int|
        0 <= i < j < streams.len() ==> (#[trigger] streams[i]).index < (#[trigger] streams[j]).index
}

proof fn lemma_place(streams: Seq<StreamView>, index: u32)
    requires
        in_order(streams),
    ensures
        0 <= place_of(streams, index) <= streams.len(),
        forall|i: int|
            0 <= i < place_of(streams, index) ==> (#[trigger] streams[i]).index <= index,
        forall|i: int|
            place_of(streams, index) <= i < streams.len() ==> (#[trigger] streams[i]).index > index,
    decreases streams.len(),
{
    if streams.len() > 0 && streams[0].index <= index {
        let rest = streams.subrange(1, streams.len() as int);
        lemma_place(rest, index);
        let n = place_of(streams, index);
        assert forall|i: int| 0 <= i < n implies (#[trigger] streams[i]).index <= index by {
            if i > 0 {
                assert(rest[i - 1] == streams[i]);
            }
        }
        assert forall|i: int| n <= i < streams.len() implies (#[trigger] streams[i]).index
            > index by {
            assert(rest[i - 1] == streams[i]);
        }
    }
}

/// The streams of a feed stay in the order of their indices, none twice, so that
/// audio stands before video; and a stream that was seen stays as it was first seen.
pub proof fn law_streams_stay_in_order(v: FeedView, e: EventView)
    requires
        in_order(v.streams),
    ensures
        in_order(observed(v, e).0.streams),
        forall|i: int|
            0 <= i < v.streams.len() ==> observed(v, e).0.streams.contains(
                #[trigger] v.streams[i],
            ),
{
    let after = observed(v, e).0.streams;
    let index = match e {
        EventView::Audio { .. } => AUDIO_STREAM_INDEX,
        _ => VIDEO_STREAM_INDEX,
    };
    lemma_place(v.streams, index);
    let n = place_of(v.streams, index);
    assert forall|i: int| 0 <= i < v.streams.len() implies after.contains(
        #[trigger] v.streams[i],
    ) by {
        if after == v.streams || i < n {
            assert(after[i] == v.streams[i]);
        } else {
            assert(after[i + 1] == v.streams[i]);
        }
    }
    if after != v.streams {
        assert forall|i: int| 0 <= i < v.streams.len() implies (#[trigger] v.streams[i]).index
            != index by {}
    }
}

/// A feed after a run of events.
pub open spec fn fed(v: FeedView, events: Seq<EventView>) -> FeedView
    decreases events.len(),
{
    if events.len() == 0 {
        v
    } else {
        observed(fed(v, events.drop_last()), events.last()).0
    }
}

/// The packets that a run of events gives.
pub open spec fn given(v: FeedView, events: Seq<EventView>) -> Seq<PacketView>
    decreases events.len(),
{
    if events.len() == 0 {
        Seq::empty()
    } else {
        let before = given(v, events.drop_last());
        match observed(fed(v, events.drop_last()), events.last()).1 {
            Some(p) => before.push(p),
            None => before,
        }
    }
}

/// A probe after a run of events.
pub open spec fn probed_with(p: ProbeView, events: Seq<EventView>) -> ProbeView
    decreases events.len(),
{
    if events.len() == 0 {
        p
    } else {
        probed(probed_with(p, events.drop_last()), events.last())
    }
}

/// Probing loses and reorders nothing: a feed that was probed with a run of events
/// has kept back exactly the packets that the same events give without probing, in
/// the same order, and is otherwise the same feed.
pub proof fn law_probing_keeps_every_packet(p: ProbeView, events: Seq<EventView>)
    ensures
        probed_with(p, events).feed == (FeedView {
            buffered: p.feed.buffered + given(p.feed, events),
            ..fed(p.feed, events)
        }),
    decreases events.len(),
{
    if events.len() == 0 {
        assert(p.feed.buffered + given(p.feed, events) =~= p.feed.buffered);
    } else {
        let before = events.drop_last();
        law_probing_keeps_every_packet(p, before);
        let a = probed_with(p, before).feed;
        let b = fed(p.feed, before);
        assert(observed(a, events.last()).1 == observed(b, events.last()).1);
        let front = given(p.feed, before);
        match observed(b, events.last()).1 {
            Some(x) => {
                assert((p.feed.buffered + front).push(x) =~= p.feed.buffered + front.push(x));
            },
            None => {},
        }
    }
}

/// A probe that has taken [`PROBE_LIMIT`] events wants no more.
pub proof fn law_probe_ends(events: Seq<EventView>)
    requires
        events.len() == PROBE_LIMIT,
    ensures
        !wants(probed_with(ProbeView { feed: fresh_feed(), left: PROBE_LIMIT as nat }, events)),
{
    lemma_left(ProbeView { feed: fresh_feed(), left: PROBE_LIMIT as nat }, events);
}

proof fn lemma_left(p: ProbeView, events: Seq<EventView>)
    requires
        events.len() <= p.left,
    ensures
        probed_with(p, events).left == p.left - events.len(),
    decreases events.len(),
{
    if events.len() > 0 {
        lemma_left(p, events.drop_last());
    }
}

/// Once the stream has ended and every packet that was kept back is out, a feed says
/// so, and says so for ever.
pub proof fn law_end_of_feed_stays(v: FeedView)
    requires
        v.ended,
        v.buffered.len() == 0,
    ensures
        polled(v) == (FeedStepView::Eof, v),
{
}

/// A feed after `n` polls.
pub open spec fn polled_times(v: FeedView, n: nat) -> FeedView
    decreases n,
{
    if n == 0 {
        v
    } else {
        polled(polled_times(v, (n - 1) as nat)).1
    }
}

/// Packets that were kept back come out in order, and nothing else changes: after `n`
/// polls the next one is packet `n`, as long as there is one.
pub proof fn law_replay_in_order(v: FeedView, n: nat)
    requires
        n <= v.buffered.len(),
    ensures
        polled_times(v, n) == (FeedView {
            buffered: v.buffered.subrange(n as int, v.buffered.len() as int),
            ..v
        }),
        n < v.buffered.len() ==> polled(polled_times(v, n)).0 == FeedStepView::Packet(
            v.buffered[n as int],
        ),
    decreases n,
{
    let len = v.buffered.len() as int;
    if n == 0 {
        assert(v.buffered.subrange(0, len) =~= v.buffered);
    } else {
        law_replay_in_order(v, (n - 1) as nat);
        let rest = v.buffered.subrange(n - 1, len);
        assert(rest.subrange(1, rest.len() as int) =~= v.buffered.subrange(n as int, len));
    }
}

} // verus!
