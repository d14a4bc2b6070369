//! Audio tags that hold several tracks: taking them apart and packing them.

use vstd::prelude::*;
use crate::error::{other, Error, Result};
#[allow(unused_imports)]
use crate::error::{outcome, Fault};
#[allow(unused_imports)]
use crate::flv::ex_header::prelude_bytes;
#[allow(unused_imports)]
use crate::flv::mod_ex::chain_bytes;
use crate::flv::multitrack::{
    fourcc_that_counts, plan_multitrack, Multitrack, MultitrackTrack, TrackSummary,
};
#[allow(unused_imports)]
use crate::flv::multitrack::{
    counted_fourcc, first_misfit, first_other_codec, misfit, plan_of, MultitrackView, PlanView,
    SummaryView, TrackView,
};
use crate::flv::audio::{build_audio, parse_audio, AudioTag};
#[allow(unused_imports)]
use crate::flv::audio::{extended_audio_tag, law_audio_round_trip, audio_fits, audio_of, AudioView};
use crate::flv::{put_fourcc, AUDIO_PACKET_TYPE_MOD_EX, AUDIO_PACKET_TYPE_MULTITRACK};
#[allow(unused_imports)]
use crate::model::{
    lemma_around_nothing, lemma_prepend_nothing, lemma_prepend_twice, prepended, views,
};
use crate::text::{cat3, cat4, decimal_text};
#[allow(unused_imports)]
use crate::text::decimal;
use crate::wire::{copy_range, put_bytes};
#[allow(unused_imports)]
use crate::wire::from;

verus! {

// ---------------------------------------------------------------------------
// Taking apart
// ---------------------------------------------------------------------------

/// The payload that a track would have as a message of its own.
pub open spec fn track_payload(inner: u8, fourcc: Seq<u8>, body: Seq<u8>) -> Seq<u8> {
    seq![(0x90 + inner % 16) as u8] + fourcc + body
}

/// One track of `t`, which is packed in the given mode, as a tag of its own. The FourCC
/// that counts must be there.
pub open spec fn track_tag(
    t: AudioView,
    mode: u8,
    inner: u8,
    track: TrackView,
) -> core::result::Result<AudioView, Fault> {
    match counted_fourcc(mode, track.fourcc, t.audio_fourcc) {
        None => Err(
            Fault::Other(
                "AudioTag::demux_tracks: track "@ + decimal(track.track_id as nat)
                    + " has no FourCC (neither per-track nor shared)"@,
            ),
        ),
        Some(f) => match audio_of(track_payload(inner, f, track.body)) {
            Err(e) => Err(
                Fault::Other(
                    "AudioTag::demux_tracks: track "@ + decimal(track.track_id as nat)
                        + " body failed to parse: "@ + e.message(),
                ),
            ),
            Ok(v) => Ok(v),
        },
    }
}

/// The tracks of `t` from the `i`th on, packed in the given mode, each as a tag of its
/// own.
pub open spec fn track_tags(
    t: AudioView,
    mode: u8,
    inner: u8,
    tracks: Seq<TrackView>,
    i: int,
) -> core::result::Result<Seq<(u8, AudioView)>, Fault>
    decreases tracks.len() - i,
{
    if i >= tracks.len() {
        Ok(Seq::empty())
    } else {
        match track_tag(t, mode, inner, tracks[i]) {
            Err(e) => Err(e),
            Ok(v) => prepended(
                seq![(tracks[i].track_id, v)],
                track_tags(t, mode, inner, tracks, i + 1),
            ),
        }
    }
}

/// The tracks of `t`, each as a tag of its own.
pub open spec fn demuxed(t: AudioView) -> core::result::Result<Seq<(u8, AudioView)>, Fault> {
    match t.multitrack {
        None => Err(Fault::Other("AudioTag::demux_tracks: tag is not a Multitrack message"@)),
        Some(m) => match t.ex_packet_type {
            None => Err(
                Fault::Other("AudioTag::demux_tracks: multitrack tag lacks inner PacketType"@),
            ),
            Some(inner) => track_tags(t, m.multitrack_type, inner, m.tracks, 0),
        },
    }
}

/// Tags with their ids, by their views.
pub open spec fn id_views(s: Seq<(u8, AudioTag)>) -> Seq<(u8, AudioView)> {
    Seq::new(s.len(), |i: int| (s[i].0, s[i].1@))
}

// ---------------------------------------------------------------------------
// Packing
// ---------------------------------------------------------------------------

/// What packing needs to know of a tag.
pub open spec fn summary(id: u8, t: AudioView) -> SummaryView {
    SummaryView {
        track_id: id,
        fourcc: t.audio_fourcc,
        ex_packet_type: t.ex_packet_type,
        is_multitrack: t.multitrack is Some,
        has_mod_ex: t.mod_ex.len() > 0,
    }
}

/// What packing needs to know of tags.
pub open spec fn summaries(tags: Seq<(u8, AudioView)>) -> Seq<SummaryView> {
    Seq::new(tags.len(), |i: int| summary(tags[i].0, tags[i].1))
}

/// A tag as a track: its payload without the first byte and the FourCC.
pub open spec fn packed_track(id: u8, t: AudioView, own_fourcc: bool) -> TrackView {
    TrackView {
        fourcc: if own_fourcc {
            t.audio_fourcc
        } else {
            None
        },
        track_id: id,
        body: from(t.encoded(), 5),
    }
}

/// One tag that holds `tags` as its tracks.
pub open spec fn muxed(mode: u8, tags: Seq<(u8, AudioView)>) -> core::result::Result<
    AudioView,
    Fault,
> {
    match plan_of(
        mode,
        summaries(tags),
        AUDIO_PACKET_TYPE_MULTITRACK,
        AUDIO_PACKET_TYPE_MOD_EX,
        "audio"@,
    ) {
        Err(e) => Err(e),
        Ok(plan) => Ok(
            AudioView {
                multitrack: Some(
                    MultitrackView {
                        multitrack_type: mode,
                        tracks: Seq::new(
                            tags.len(),
                            |i: int| packed_track(tags[i].0, tags[i].1, plan.per_track_fourcc),
                        ),
                    },
                ),
                ..extended_audio_tag(plan.inner_packet_type, plan.shared_fourcc, Seq::empty())
            },
        ),
    }
}

/// Tags with their ids, by their views.
pub open spec fn ref_views(s: Seq<(u8, &AudioTag)>) -> Seq<(u8, AudioView)> {
    Seq::new(s.len(), |i: int| (s[i].0, s[i].1@))
}

proof fn lemma_no_misfit(tracks: Seq<SummaryView>, i: int, k: int, inner: u8, kind: Seq<char>)
    requires
        0 <= i <= k < tracks.len(),
        first_misfit(tracks, i, inner, kind) is None,
    ensures
        misfit(tracks[k], inner, kind) is None,
    decreases k - i,
{
    if i < k {
        lemma_no_misfit(tracks, i + 1, k, inner, kind);
    }
}

proof fn lemma_single_tag_shape(t: AudioView)
    requires
        t.audio_fourcc is Some,
        t.audio_fourcc->0.len() == 4,
        t.multitrack is None,
        t.mod_ex.len() == 0,
        t.ex_packet_type is Some,
    ensures
        t.encoded().len() >= 5,
        t.encoded() == track_payload(
            t.ex_packet_type->0,
            t.audio_fourcc->0,
            from(t.encoded(), 5),
        ),
{
    reveal(prelude_bytes);
    assert(chain_bytes(t.mod_ex, AUDIO_PACKET_TYPE_MOD_EX, t.packet_type()) =~= Seq::empty());
    assert(t.encoded() =~= track_payload(
        t.ex_packet_type->0,
        t.audio_fourcc->0,
        from(t.encoded(), 5),
    ));
}

impl AudioTag {
    /// The tracks of this tag, each as a tag of its own with its id. The FourCC is that
    /// of the track where each track has a codec of its own. Where they share one it is the
    /// shared one, or else that of the track; in a reserved mode it is that of the track, or
    /// else the shared one. A track without the FourCC that counts is an error.
    pub fn demux_tracks(&self) -> (r: Result<Vec<(u8, AudioTag)>>)
        ensures
            match r {
                Ok(v) => demuxed(self@) == Ok::<Seq<(u8, AudioView)>, Fault>(id_views(v@)),
                Err(e) => demuxed(self@) == Err::<Seq<(u8, AudioView)>, Fault>(e@),
            },
    {
        let m = match &self.multitrack {
            None => {
                return Err(other("AudioTag::demux_tracks: tag is not a Multitrack message"));
            },
            Some(m) => m,
        };
        let inner: u8 = match self.ex_packet_type {
            None => {
                return Err(other("AudioTag::demux_tracks: multitrack tag lacks inner PacketType"));
            },
            Some(p) => p,
        };
        let ghost t = self@;
        let ghost tracks = views(m.tracks@);
        let mode: u8 = m.multitrack_type;
        let mut out: Vec<(u8, AudioTag)> = Vec::new();
        let mut i: usize = 0;
        proof {
            assert(id_views(out@) =~= Seq::empty());
            lemma_prepend_nothing(track_tags(t, mode, inner, tracks, 0));
        }
        while i < m.tracks.len()
            invariant
                t == self@,
                tracks == views(m.tracks@),
                mode == m.multitrack_type,
                demuxed(t) == track_tags(t, mode, inner, tracks, 0),
                i <= m.tracks@.len(),
                track_tags(t, mode, inner, tracks, 0) == prepended(
                    id_views(out@),
                    track_tags(t, mode, inner, tracks, i as int),
                ),
            decreases m.tracks@.len() - i,
        {
            let track = &m.tracks[i];
            assert(tracks[i as int] == track@);
            let f: [u8; 4] = match fourcc_that_counts(mode, track.fourcc, self.audio_fourcc) {
                None => {
                    let id = decimal_text(track.track_id as u64);
                    return Err(
                        Error::Other(
                            cat3(
                                "AudioTag::demux_tracks: track ",
                                id.as_str(),
                                " has no FourCC (neither per-track nor shared)",
                            ),
                        ),
                    );
                },
                Some(f) => f,
            };
            let mut payload: Vec<u8> = Vec::new();
            payload.push(0x90 + inner % 16);
            put_fourcc(&mut payload, &f);
            put_bytes(&mut payload, track.body.as_slice());
            assert(payload@ =~= track_payload(inner, f@, track.body@));
            match parse_audio(payload.as_slice()) {
                Err(e) => {
                    let id = decimal_text(track.track_id as u64);
                    let why = e.message();
                    return Err(
                        Error::Other(
                            cat4(
                                "AudioTag::demux_tracks: track ",
                                id.as_str(),
                                " body failed to parse: ",
                                why.as_str(),
                            ),
                        ),
                    );
                },
                Ok(tag) => {
                    let ghost before = id_views(out@);
                    let ghost here = (track.track_id, tag@);
                    out.push((track.track_id, tag));
                    proof {
                        assert(id_views(out@) =~= before + seq![here]);
                        lemma_prepend_twice(
                            before,
                            seq![here],
                            track_tags(t, mode, inner, tracks, i + 1),
                        );
                    }
                },
            }
            i = i + 1;
        }
        proof {
            lemma_around_nothing(id_views(out@));
        }
        Ok(out)
    }

    /// One tag that holds the given tags as its tracks. They have to agree on
    /// packet type, and on the FourCC unless each track keeps its own.
    pub fn multitrack_from_tags(multitrack_type: u8, tracks: &[(u8, &AudioTag)]) -> (r: Result<
        AudioTag,
    >)
        ensures
            outcome(r) == muxed(multitrack_type, ref_views(tracks@)),
    {
        let ghost tags = ref_views(tracks@);
        let mut list: Vec<TrackSummary> = Vec::new();
        let mut i: usize = 0;
        while i < tracks.len()
            invariant
                tags == ref_views(tracks@),
                i <= tracks@.len(),
                views(list@) == summaries(tags).subrange(0, i as int),
            decreases tracks@.len() - i,
        {
            let (id, tag) = &tracks[i];
            let ghost before = views(list@);
            let s = TrackSummary {
                track_id: *id,
                fourcc: tag.audio_fourcc,
                ex_packet_type: tag.ex_packet_type,
                is_multitrack: tag.multitrack.is_some(),
                has_mod_ex: tag.mod_ex.len() > 0,
            };
            assert(s@ == summaries(tags)[i as int]);
            list.push(s);
            assert(views(list@) =~= before.push(s@));
            assert(views(list@) =~= summaries(tags).subrange(0, i + 1));
            i = i + 1;
        }
        assert(summaries(tags).subrange(0, i as int) =~= summaries(tags));
        let plan = match plan_multitrack(
            multitrack_type,
            &list,
            AUDIO_PACKET_TYPE_MULTITRACK,
            AUDIO_PACKET_TYPE_MOD_EX,
            "audio",
        ) {
            Err(e) => {
                return Err(e);
            },
            Ok(p) => p,
        };
        let ghost own = plan.per_track_fourcc;
        let ghost want = Seq::new(
            tags.len(),
            |k: int| packed_track(tags[k].0, tags[k].1, own),
        );
        let mut out: Vec<MultitrackTrack> = Vec::new();
        let mut k: usize = 0;
        while k < tracks.len()
            invariant
                tags == ref_views(tracks@),
                k <= tracks@.len(),
                own == plan.per_track_fourcc,
                want == Seq::new(tags.len(), |k: int| packed_track(tags[k].0, tags[k].1, own)),
                plan_of(
                    multitrack_type,
                    summaries(tags),
                    AUDIO_PACKET_TYPE_MULTITRACK,
                    AUDIO_PACKET_TYPE_MOD_EX,
                    "audio"@,
                ) == Ok::<PlanView, Fault>(plan@),
                views(out@) == want.subrange(0, k as int),
            decreases tracks@.len() - k,
        {
            let (id, tag) = &tracks[k];
            let wire = build_audio(tag);
            proof {
                lemma_no_misfit(
                    summaries(tags),
                    0,
                    k as int,
                    plan.inner_packet_type,
                    "audio"@,
                );
                assert(summaries(tags)[k as int] == summary(*id, tag@));
                lemma_single_tag_shape(tag@);
            }
            let track = MultitrackTrack {
                fourcc: if plan.per_track_fourcc {
                    tag.audio_fourcc
                } else {
                    None
                },
                track_id: *id,
                body: copy_range(wire.as_slice(), 5, wire.len()),
            };
            let ghost before = views(out@);
            assert(track@ == want[k as int]);
            out.push(track);
            assert(views(out@) =~= before.push(want[k as int]));
            assert(views(out@) =~= want.subrange(0, k + 1));
            k = k + 1;
        }
        assert(want.subrange(0, k as int) =~= want);
        Ok(
            AudioTag::multitrack_tag(
                plan.inner_packet_type,
                plan.shared_fourcc,
                Multitrack { multitrack_type, tracks: out },
            ),
        )
    }
}

// ---------------------------------------------------------------------------
// Laws
// ---------------------------------------------------------------------------

proof fn lemma_same_codec(tracks: Seq<SummaryView>, i: int, k: int, f: Option<Seq<u8>>)
    requires
        0 <= i <= k < tracks.len(),
        first_other_codec(tracks, i, f) is None,
    ensures
        tracks[k].fourcc == f,
    decreases k - i,
{
    if i < k {
        lemma_same_codec(tracks, i + 1, k, f);
    }
}

proof fn lemma_tracks_come_back(mode: u8, tags: Seq<(u8, AudioView)>, i: int)
    requires
        muxed(mode, tags) is Ok,
        forall|k: int| 0 <= k < tags.len() ==> audio_fits((#[trigger] tags[k]).1),
        0 <= i <= tags.len(),
    ensures
        ({
            let t = muxed(mode, tags)->Ok_0;
            track_tags(t, mode, t.ex_packet_type->0, t.multitrack->0.tracks, i) == Ok::<
                Seq<(u8, AudioView)>,
                Fault,
            >(tags.subrange(i, tags.len() as int))
        }),
    decreases tags.len() - i,
{
    let t = muxed(mode, tags)->Ok_0;
    let plan = plan_of(
        mode,
        summaries(tags),
        AUDIO_PACKET_TYPE_MULTITRACK,
        AUDIO_PACKET_TYPE_MOD_EX,
        "audio"@,
    )->Ok_0;
    if i < tags.len() {
        let tag = tags[i].1;
        lemma_no_misfit(summaries(tags), 0, i, plan.inner_packet_type, "audio"@);
        assert(summaries(tags)[i] == summary(tags[i].0, tag));
        if !plan.per_track_fourcc {
            lemma_same_codec(summaries(tags), 0, i, summaries(tags)[0].fourcc);
        }
        lemma_single_tag_shape(tag);
        law_audio_round_trip(tag);
        lemma_tracks_come_back(mode, tags, i + 1);
        assert(seq![tags[i]] + tags.subrange(i + 1, tags.len() as int) =~= tags.subrange(
            i,
            tags.len() as int,
        ));
    } else {
        assert(tags.subrange(i, tags.len() as int) =~= Seq::empty());
    }
}

/// Taking a packed tag apart gives back the tags that were packed, with their
/// ids and in order.
pub proof fn law_audio_tracks_round_trip(mode: u8, tags: Seq<(u8, AudioView)>)
    requires
        muxed(mode, tags) is Ok,
        forall|k: int| 0 <= k < tags.len() ==> audio_fits((#[trigger] tags[k]).1),
    ensures
        demuxed(muxed(mode, tags)->Ok_0) == Ok::<Seq<(u8, AudioView)>, Fault>(tags),
{
    lemma_tracks_come_back(mode, tags, 0);
    assert(tags.subrange(0, tags.len() as int) =~= tags);
}

} // verus!
