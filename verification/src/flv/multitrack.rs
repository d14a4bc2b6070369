//! Several tracks in the body of one audio or video message.
//!
//! One track alone runs to the end of the body; several each have a 24-bit
//! size. Tracks share the FourCC of the message, unless each has its own.

use vstd::prelude::*;
use crate::error::{other, Error, Result};
#[allow(unused_imports)]
use crate::error::{outcome, Fault};
use crate::flv::{
    get_fourcc, put_fourcc, same_fourcc_opt, AV_MULTITRACK_TYPE_MANY_TRACKS,
    AV_MULTITRACK_TYPE_MANY_TRACKS_MANY_CODECS, AV_MULTITRACK_TYPE_ONE_TRACK,
};
#[allow(unused_imports)]
use crate::flv::fourcc_view;
#[allow(unused_imports)]
use crate::model::{
    lemma_around_nothing, lemma_associative, lemma_prepend_nothing, lemma_prepend_twice, prepended,
    views,
};
use crate::text::{cat3, cat5, decimal_text};
#[allow(unused_imports)]
use crate::text::decimal;
use crate::wire::{copy_range, get_be24, put_be24, put_bytes};
#[allow(unused_imports)]
use crate::wire::{be24, be24_bytes, from, lemma_be24, lemma_be24_exact};

verus! {

/// The tracks of a message.
#[derive(Debug, Clone, PartialEq, Eq)]
pub struct Multitrack {
    pub multitrack_type: u8,
    pub tracks: Vec<MultitrackTrack>,
}

/// One track: its own FourCC where each track has one, its id and its body.
#[derive(Debug, Clone, PartialEq, Eq)]
pub struct MultitrackTrack {
    pub fourcc: Option<[u8; 4]>,
    pub track_id: u8,
    pub body: Vec<u8>,
}

/// The mathematical view of [`MultitrackTrack`].
pub struct TrackView {
    pub fourcc: Option<Seq<u8>>,
    pub track_id: u8,
    pub body: Seq<u8>,
}

/// The mathematical view of [`Multitrack`].
pub struct MultitrackView {
    pub multitrack_type: u8,
    pub tracks: Seq<TrackView>,
}

impl View for MultitrackTrack {
    type V = TrackView;

    open spec fn view(&self) -> TrackView {
        TrackView {
            fourcc: fourcc_view(self.fourcc),
            track_id: self.track_id,
            body: self.body@,
        }
    }
}

impl View for Multitrack {
    type V = MultitrackView;

    open spec fn view(&self) -> MultitrackView {
        MultitrackView { multitrack_type: self.multitrack_type, tracks: views(self.tracks@) }
    }
}

/// Whether a message of this type has exactly one track.
pub open spec fn is_one(mode: u8) -> bool {
    mode == AV_MULTITRACK_TYPE_ONE_TRACK
}

/// Whether in a message of this type each track has a FourCC of its own.
pub open spec fn is_many_codecs(mode: u8) -> bool {
    mode == AV_MULTITRACK_TYPE_MANY_TRACKS_MANY_CODECS
}

/// The FourCC that counts for a track, from its own and the one that the message
/// shares. Where each track has a codec of its own, only its own counts. Where they share
/// one, the shared one comes first, and in a reserved mode the track's own does; the other
/// stands in for one that is missing.
pub open spec fn counted_fourcc(
    mode: u8,
    own: Option<Seq<u8>>,
    shared: Option<Seq<u8>>,
) -> Option<Seq<u8>> {
    if is_many_codecs(mode) {
        own
    } else if is_one(mode) || mode == AV_MULTITRACK_TYPE_MANY_TRACKS {
        if shared is Some {
            shared
        } else {
            own
        }
    } else if own is Some {
        own
    } else {
        shared
    }
}

/// The FourCC that counts for a track.
pub(crate) fn fourcc_that_counts(mode: u8, own: Option<[u8; 4]>, shared: Option<[u8; 4]>) -> (f:
    Option<[u8; 4]>)
    ensures
        fourcc_view(f) == counted_fourcc(mode, fourcc_view(own), fourcc_view(shared)),
{
    if mode == AV_MULTITRACK_TYPE_MANY_TRACKS_MANY_CODECS {
        own
    } else if mode == AV_MULTITRACK_TYPE_ONE_TRACK || mode == AV_MULTITRACK_TYPE_MANY_TRACKS {
        if shared.is_some() {
            shared
        } else {
            own
        }
    } else if own.is_some() {
        own
    } else {
        shared
    }
}

// ---------------------------------------------------------------------------
// Parsing
// ---------------------------------------------------------------------------

/// The track at offset `pos`, and where the next one starts.
pub open spec fn track_at(s: Seq<u8>, pos: int, mode: u8) -> core::result::Result<
    (TrackView, int),
    Fault,
> {
    let p = if is_many_codecs(mode) {
        pos + 4
    } else {
        pos
    };
    let fourcc = if is_many_codecs(mode) {
        Some(s.subrange(pos, pos + 4))
    } else {
        None
    };
    let size = be24(s, p + 1) as int;
    if s.len() < p {
        Err(Fault::Other("Multitrack: truncated reading per-track FourCC"@))
    } else if s.len() <= p {
        Err(Fault::Other("Multitrack: truncated reading trackId"@))
    } else if is_one(mode) {
        Ok((TrackView { fourcc, track_id: s[p], body: from(s, p + 1) }, s.len() as int))
    } else if s.len() < p + 4 {
        Err(Fault::Other("Multitrack: truncated reading sizeOfTrack UI24"@))
    } else if s.len() < p + 4 + size {
        Err(
            Fault::Other(
                "Multitrack: sizeOfTrack="@ + decimal(size as nat) + " overruns remaining "@
                    + decimal((s.len() - p - 4) as nat) + " bytes"@,
            ),
        )
    } else {
        Ok(
            (
                TrackView {
                    fourcc,
                    track_id: s[p],
                    body: s.subrange(p + 4, p + 4 + size),
                },
                p + 4 + size,
            ),
        )
    }
}

/// The tracks from offset `pos` to the end.
pub open spec fn tracks_at(s: Seq<u8>, pos: int, mode: u8) -> core::result::Result<
    Seq<TrackView>,
    Fault,
>
    decreases s.len() - pos,
{
    if pos >= s.len() {
        Ok(Seq::empty())
    } else {
        match track_at(s, pos, mode) {
            Err(e) => Err(e),
            Ok((t, end)) => if end <= pos {
                Err(Fault::UnexpectedEof)
            } else {
                prepended(seq![t], tracks_at(s, end, mode))
            },
        }
    }
}

/// The tracks that `body` holds.
pub open spec fn multitrack_of(body: Seq<u8>, mode: u8) -> core::result::Result<
    MultitrackView,
    Fault,
> {
    if body.len() == 0 {
        Err(Fault::Other("Multitrack: empty track list (need at least one track)"@))
    } else {
        match tracks_at(body, 0, mode) {
            Err(e) => Err(e),
            Ok(tracks) => Ok(MultitrackView { multitrack_type: mode, tracks }),
        }
    }
}

fn parse_track(s: &[u8], pos: usize, mode: u8) -> (r: Result<(MultitrackTrack, usize)>)
    requires
        pos < s@.len(),
    ensures
        match r {
            Ok((t, end)) => pos < end <= s@.len() && track_at(s@, pos as int, mode) == Ok::<
                (TrackView, int),
                Fault,
            >((t@, end as int)),
            Err(e) => track_at(s@, pos as int, mode) == Err::<(TrackView, int), Fault>(e@),
        },
{
    let n: usize = s.len();
    let many_codecs = mode == AV_MULTITRACK_TYPE_MANY_TRACKS_MANY_CODECS;
    let mut p: usize = pos;
    let mut fourcc: Option<[u8; 4]> = None;
    if many_codecs {
        if n - pos < 4 {
            return Err(other("Multitrack: truncated reading per-track FourCC"));
        }
        fourcc = Some(get_fourcc(s, pos));
        p = pos + 4;
    }
    if p >= n {
        return Err(other("Multitrack: truncated reading trackId"));
    }
    let track_id: u8 = s[p];
    if mode == AV_MULTITRACK_TYPE_ONE_TRACK {
        let body = copy_range(s, p + 1, n);
        return Ok((MultitrackTrack { fourcc, track_id, body }, n));
    }
    if n - p < 4 {
        return Err(other("Multitrack: truncated reading sizeOfTrack UI24"));
    }
    let size: usize = get_be24(s, p + 1) as usize;
    let start: usize = p + 4;
    if n - start < size {
        let said = decimal_text(size as u64);
        let left = decimal_text((n - start) as u64);
        return Err(
            Error::Other(
                cat5(
                    "Multitrack: sizeOfTrack=",
                    said.as_str(),
                    " overruns remaining ",
                    left.as_str(),
                    " bytes",
                ),
            ),
        );
    }
    let body = copy_range(s, start, start + size);
    Ok((MultitrackTrack { fourcc, track_id, body }, start + size))
}

impl Multitrack {
    /// The tracks that `body` holds, in a message of the given type.
    pub fn parse(body: &[u8], multitrack_type: u8) -> (r: Result<Multitrack>)
        ensures
            outcome(r) == multitrack_of(body@, multitrack_type),
    {
        let ghost s = body@;
        let n: usize = body.len();
        if n == 0 {
            return Err(other("Multitrack: empty track list (need at least one track)"));
        }
        let mut pos: usize = 0;
        let mut tracks: Vec<MultitrackTrack> = Vec::new();
        proof {
            assert(views(tracks@) =~= Seq::empty());
            lemma_prepend_nothing(tracks_at(s, 0, multitrack_type));
        }
        while pos < n
            invariant
                s == body@,
                n == s.len(),
                n > 0,
                pos <= n,
                tracks_at(s, 0, multitrack_type) == prepended(
                    views(tracks@),
                    tracks_at(s, pos as int, multitrack_type),
                ),
            decreases n - pos,
        {
            match parse_track(body, pos, multitrack_type) {
                Err(e) => {
                    return Err(e);
                },
                Ok((t, end)) => {
                    let ghost before = views(tracks@);
                    let ghost here = t@;
                    tracks.push(t);
                    proof {
                        assert(views(tracks@) =~= before + seq![here]);
                        lemma_prepend_twice(
                            before,
                            seq![here],
                            tracks_at(s, end as int, multitrack_type),
                        );
                    }
                    pos = end;
                },
            }
        }
        proof {
            lemma_around_nothing(views(tracks@));
        }
        Ok(Multitrack { multitrack_type, tracks })
    }

    /// The bytes of these tracks.
    pub fn encode(&self) -> (out: Vec<u8>)
        ensures
            out@ == self@.encoded(),
    {
        let ghost mode = self.multitrack_type;
        let ghost all = views(self.tracks@);
        let mut out: Vec<u8> = Vec::new();
        if self.multitrack_type == AV_MULTITRACK_TYPE_ONE_TRACK {
            if self.tracks.len() > 0 {
                put_track(&mut out, &self.tracks[0], self.multitrack_type);
            }
            assert(out@ =~= self@.encoded());
            return out;
        }
        let mut i: usize = 0;
        proof {
            assert(all.subrange(0, all.len() as int) =~= all);
            lemma_around_nothing(tracks_bytes(all, mode));
            assert(out@ =~= Seq::empty());
        }
        while i < self.tracks.len()
            invariant
                mode == self.multitrack_type,
                all == views(self.tracks@),
                i <= self.tracks@.len(),
                out@ + tracks_bytes(all.subrange(i as int, all.len() as int), mode)
                    == tracks_bytes(all, mode),
            decreases self.tracks@.len() - i,
        {
            let ghost was = out@;
            let ghost rest = all.subrange(i as int, all.len() as int);
            put_track(&mut out, &self.tracks[i], self.multitrack_type);
            proof {
                let more = all.subrange(i + 1, all.len() as int);
                assert(rest.subrange(1, rest.len() as int) =~= more);
                lemma_associative(was, track_bytes(rest[0], mode), tracks_bytes(more, mode));
            }
            i = i + 1;
        }
        proof {
            lemma_around_nothing(out@);
        }
        out
    }
}

// ---------------------------------------------------------------------------
// Building
// ---------------------------------------------------------------------------

/// The bytes of one track. A body longer than 24 bits can say is announced by
/// the low bits of its length.
#[verifier::opaque]
pub open spec fn track_bytes(t: TrackView, mode: u8) -> Seq<u8> {
    let fourcc = if !is_many_codecs(mode) {
        Seq::empty()
    } else {
        match t.fourcc {
            Some(f) => f,
            None => seq![0u8, 0, 0, 0],
        }
    };
    let size = if is_one(mode) {
        Seq::empty()
    } else {
        be24_bytes((t.body.len() % 0x100_0000) as u32)
    };
    fourcc + seq![t.track_id] + size + t.body
}

/// The bytes of a run of tracks.
pub open spec fn tracks_bytes(tracks: Seq<TrackView>, mode: u8) -> Seq<u8>
    decreases tracks.len(),
{
    if tracks.len() == 0 {
        Seq::empty()
    } else {
        track_bytes(tracks[0], mode) + tracks_bytes(tracks.subrange(1, tracks.len() as int), mode)
    }
}

impl MultitrackView {
    /// The bytes of these tracks: of the first alone, where there may be only
    /// one.
    pub open spec fn encoded(self) -> Seq<u8> {
        if !is_one(self.multitrack_type) {
            tracks_bytes(self.tracks, self.multitrack_type)
        } else if self.tracks.len() == 0 {
            Seq::empty()
        } else {
            track_bytes(self.tracks[0], self.multitrack_type)
        }
    }
}

fn put_track(out: &mut Vec<u8>, t: &MultitrackTrack, mode: u8)
    ensures
        final(out)@ == old(out)@ + track_bytes(t@, mode),
{
    if mode == AV_MULTITRACK_TYPE_MANY_TRACKS_MANY_CODECS {
        match &t.fourcc {
            Some(f) => put_fourcc(out, f),
            None => {
                put_bytes(out, [0u8, 0, 0, 0].as_slice());
            },
        }
    }
    out.push(t.track_id);
    if mode != AV_MULTITRACK_TYPE_ONE_TRACK {
        put_be24(out, (t.body.len() % 0x100_0000) as u32);
    }
    put_bytes(out, t.body.as_slice());
    proof {
        reveal(track_bytes);
        assert(out@ =~= old(out)@ + track_bytes(t@, mode));
    }
}

// ---------------------------------------------------------------------------
// Packing tags
// ---------------------------------------------------------------------------

/// What packing needs to know of a tag.
#[derive(Debug, Clone, Copy)]
pub struct TrackSummary {
    pub track_id: u8,
    pub fourcc: Option<[u8; 4]>,
    pub ex_packet_type: Option<u8>,
    pub is_multitrack: bool,
    pub has_mod_ex: bool,
}

/// The mathematical view of [`TrackSummary`].
pub struct SummaryView {
    pub track_id: u8,
    pub fourcc: Option<Seq<u8>>,
    pub ex_packet_type: Option<u8>,
    pub is_multitrack: bool,
    pub has_mod_ex: bool,
}

impl View for TrackSummary {
    type V = SummaryView;

    open spec fn view(&self) -> SummaryView {
        SummaryView {
            track_id: self.track_id,
            fourcc: fourcc_view(self.fourcc),
            ex_packet_type: self.ex_packet_type,
            is_multitrack: self.is_multitrack,
            has_mod_ex: self.has_mod_ex,
        }
    }
}

/// How tags are packed: the packet type that they have in common, and the FourCC
/// that they share unless each keeps its own.
#[derive(Debug, Clone, Copy)]
pub struct MultitrackPlan {
    pub inner_packet_type: u8,
    pub shared_fourcc: Option<[u8; 4]>,
    pub per_track_fourcc: bool,
}

/// The mathematical view of [`MultitrackPlan`].
pub struct PlanView {
    pub inner_packet_type: u8,
    pub shared_fourcc: Option<Seq<u8>>,
    pub per_track_fourcc: bool,
}

impl View for MultitrackPlan {
    type V = PlanView;

    open spec fn view(&self) -> PlanView {
        PlanView {
            inner_packet_type: self.inner_packet_type,
            shared_fourcc: fourcc_view(self.shared_fourcc),
            per_track_fourcc: self.per_track_fourcc,
        }
    }
}

/// An error about packing as a whole; `kind` is `video` or `audio`.
pub open spec fn pack_fault(kind: Seq<char>, m: Seq<char>) -> Fault {
    Fault::Other("multitrack_from_tags ("@ + kind + m)
}

/// An error about one track.
pub open spec fn track_fault(kind: Seq<char>, id: u8, m: Seq<char>) -> Fault {
    pack_fault(kind, "): track "@ + decimal(id as nat) + m)
}

/// Why a tag cannot stand beside tags of packet type `inner`.
pub open spec fn misfit(t: SummaryView, inner: u8, kind: Seq<char>) -> Option<Fault> {
    if t.is_multitrack {
        Some(track_fault(kind, t.track_id, " is itself a Multitrack tag"@))
    } else if t.has_mod_ex {
        Some(
            track_fault(
                kind,
                t.track_id,
                " carries a ModEx prelude (message-level ModEx belongs on the outer tag)"@,
            ),
        )
    } else if t.ex_packet_type != Some(inner) {
        Some(
            track_fault(
                kind,
                t.track_id,
                " PacketType differs (the wire carries one inner PacketType per message)"@,
            ),
        )
    } else if t.fourcc is None {
        Some(track_fault(kind, t.track_id, " is not an Enhanced-RTMP tag (no FourCC)"@))
    } else {
        None
    }
}

/// The first misfit from track `i` on.
pub open spec fn first_misfit(
    tracks: Seq<SummaryView>,
    i: int,
    inner: u8,
    kind: Seq<char>,
) -> Option<Fault>
    decreases tracks.len() - i,
{
    if i >= tracks.len() {
        None
    } else {
        match misfit(tracks[i], inner, kind) {
            Some(f) => Some(f),
            None => first_misfit(tracks, i + 1, inner, kind),
        }
    }
}

/// The first track from `i` on whose FourCC is not `fourcc`.
pub open spec fn first_other_codec(
    tracks: Seq<SummaryView>,
    i: int,
    fourcc: Option<Seq<u8>>,
) -> Option<u8>
    decreases tracks.len() - i,
{
    if i >= tracks.len() {
        None
    } else if tracks[i].fourcc != fourcc {
        Some(tracks[i].track_id)
    } else {
        first_other_codec(tracks, i + 1, fourcc)
    }
}

/// How these tags are packed into a message of the given type, or why they
/// cannot be. `pt_multitrack` and `pt_mod_ex` are the packet types that cannot
/// nest.
pub open spec fn plan_of(
    mode: u8,
    tracks: Seq<SummaryView>,
    pt_multitrack: u8,
    pt_mod_ex: u8,
    kind: Seq<char>,
) -> core::result::Result<PlanView, Fault> {
    if tracks.len() == 0 {
        Err(pack_fault(kind, "): need at least one track"@))
    } else if is_one(mode) && tracks.len() != 1 {
        Err(
            pack_fault(
                kind,
                "): OneTrack mode carries exactly one track, got "@ + decimal(tracks.len()),
            ),
        )
    } else {
        match tracks[0].ex_packet_type {
            None => Err(
                track_fault(
                    kind,
                    tracks[0].track_id,
                    " is not an Enhanced-RTMP tag (no PacketType)"@,
                ),
            ),
            Some(inner) => if inner == pt_multitrack || inner == pt_mod_ex {
                Err(
                    pack_fault(
                        kind,
                        "): inner PacketType "@ + decimal(inner as nat)
                            + " is reserved (Multitrack / ModEx cannot nest)"@,
                    ),
                )
            } else {
                match first_misfit(tracks, 0, inner, kind) {
                    Some(f) => Err(f),
                    None => if is_many_codecs(mode) {
                        Ok(
                            PlanView {
                                inner_packet_type: inner,
                                shared_fourcc: None,
                                per_track_fourcc: true,
                            },
                        )
                    } else {
                        match first_other_codec(tracks, 0, tracks[0].fourcc) {
                            Some(id) => Err(
                                track_fault(
                                    kind,
                                    id,
                                    " FourCC differs — OneTrack / ManyTracks share one codec; use ManyTracksManyCodecs"@,
                                ),
                            ),
                            None => Ok(
                                PlanView {
                                    inner_packet_type: inner,
                                    shared_fourcc: tracks[0].fourcc,
                                    per_track_fourcc: false,
                                },
                            ),
                        }
                    },
                }
            },
        }
    }
}

fn pack_error(kind: &str, m: &str) -> (e: Error)
    ensures
        e@ == pack_fault(kind@, m@),
{
    Error::Other(cat3("multitrack_from_tags (", kind, m))
}

fn track_error(kind: &str, id: u8, m: &str) -> (e: Error)
    ensures
        e@ == track_fault(kind@, id, m@),
{
    let digits = decimal_text(id as u64);
    let part = cat3("): track ", digits.as_str(), m);
    pack_error(kind, part.as_str())
}

fn check_track(t: &TrackSummary, inner: u8, kind: &str) -> (r: Option<Error>)
    ensures
        match r {
            Some(e) => misfit(t@, inner, kind@) == Some(e@),
            None => misfit(t@, inner, kind@) is None,
        },
{
    if t.is_multitrack {
        return Some(track_error(kind, t.track_id, " is itself a Multitrack tag"));
    }
    if t.has_mod_ex {
        return Some(
            track_error(
                kind,
                t.track_id,
                " carries a ModEx prelude (message-level ModEx belongs on the outer tag)",
            ),
        );
    }
    let same = match t.ex_packet_type {
        Some(p) => p == inner,
        None => false,
    };
    if !same {
        return Some(
            track_error(
                kind,
                t.track_id,
                " PacketType differs (the wire carries one inner PacketType per message)",
            ),
        );
    }
    if t.fourcc.is_none() {
        return Some(track_error(kind, t.track_id, " is not an Enhanced-RTMP tag (no FourCC)"));
    }
    None
}

/// How these tags are packed into one message, or why they cannot be.
pub(crate) fn plan_multitrack(
    multitrack_type: u8,
    tracks: &Vec<TrackSummary>,
    pt_multitrack: u8,
    pt_mod_ex: u8,
    kind: &str,
) -> (r: Result<MultitrackPlan>)
    ensures
        outcome(r) == plan_of(
            multitrack_type,
            views(tracks@),
            pt_multitrack,
            pt_mod_ex,
            kind@,
        ),
{
    let ghost all = views(tracks@);
    if tracks.len() == 0 {
        return Err(pack_error(kind, "): need at least one track"));
    }
    if multitrack_type == AV_MULTITRACK_TYPE_ONE_TRACK && tracks.len() != 1 {
        let count = decimal_text(tracks.len() as u64);
        let m = crate::text::cat(
            "): OneTrack mode carries exactly one track, got ",
            count.as_str(),
        );
        return Err(pack_error(kind, m.as_str()));
    }
    assert(all[0] == tracks@[0]@);
    let inner: u8 = match tracks[0].ex_packet_type {
        None => {
            return Err(
                track_error(
                    kind,
                    tracks[0].track_id,
                    " is not an Enhanced-RTMP tag (no PacketType)",
                ),
            );
        },
        Some(p) => p,
    };
    if inner == pt_multitrack || inner == pt_mod_ex {
        let digits = decimal_text(inner as u64);
        let m = cat3(
            "): inner PacketType ",
            digits.as_str(),
            " is reserved (Multitrack / ModEx cannot nest)",
        );
        return Err(pack_error(kind, m.as_str()));
    }
    let mut i: usize = 0;
    while i < tracks.len()
        invariant
            all == views(tracks@),
            i <= tracks@.len(),
            first_misfit(all, 0, inner, kind@) == first_misfit(all, i as int, inner, kind@),
            plan_of(multitrack_type, all, pt_multitrack, pt_mod_ex, kind@) == match first_misfit(
                all,
                0,
                inner,
                kind@,
            ) {
                Some(f) => Err::<PlanView, Fault>(f),
                None => plan_of(multitrack_type, all, pt_multitrack, pt_mod_ex, kind@),
            },
        decreases tracks@.len() - i,
    {
        assert(all[i as int] == tracks@[i as int]@);
        if let Some(e) = check_track(&tracks[i], inner, kind) {
            return Err(e);
        }
        i = i + 1;
    }
    if multitrack_type == AV_MULTITRACK_TYPE_MANY_TRACKS_MANY_CODECS {
        return Ok(
            MultitrackPlan {
                inner_packet_type: inner,
                shared_fourcc: None,
                per_track_fourcc: true,
            },
        );
    }
    let shared = tracks[0].fourcc;
    let mut j: usize = 0;
    while j < tracks.len()
        invariant
            all == views(tracks@),
            j <= tracks@.len(),
            fourcc_view(shared) == all[0].fourcc,
            first_other_codec(all, 0, all[0].fourcc) == first_other_codec(
                all,
                j as int,
                all[0].fourcc,
            ),
            plan_of(multitrack_type, all, pt_multitrack, pt_mod_ex, kind@)
                == match first_other_codec(all, 0, all[0].fourcc) {
                Some(id) => Err::<PlanView, Fault>(
                    track_fault(
                        kind@,
                        id,
                        " FourCC differs — OneTrack / ManyTracks share one codec; use ManyTracksManyCodecs"@,
                    ),
                ),
                None => plan_of(multitrack_type, all, pt_multitrack, pt_mod_ex, kind@),
            },
        decreases tracks@.len() - j,
    {
        assert(all[j as int] == tracks@[j as int]@);
        if !same_fourcc_opt(&tracks[j].fourcc, &shared) {
            return Err(
                track_error(
                    kind,
                    tracks[j].track_id,
                    " FourCC differs — OneTrack / ManyTracks share one codec; use ManyTracksManyCodecs",
                ),
            );
        }
        j = j + 1;
    }
    Ok(MultitrackPlan { inner_packet_type: inner, shared_fourcc: shared, per_track_fourcc: false })
}

// ---------------------------------------------------------------------------
// Laws
// ---------------------------------------------------------------------------

/// Whether a track can be put into a message of the given type as it is.
pub open spec fn track_fits(t: TrackView, mode: u8) -> bool {
    &&& is_many_codecs(mode) ==> t.fourcc is Some && t.fourcc->0.len() == 4
    &&& !is_many_codecs(mode) ==> t.fourcc is None
    &&& !is_one(mode) ==> t.body.len() < 0x100_0000
}

/// Whether tracks can be put into a message of their type as they are.
pub open spec fn tracks_fit(m: MultitrackView) -> bool {
    &&& m.tracks.len() > 0
    &&& is_one(m.multitrack_type) ==> m.tracks.len() == 1
    &&& forall|i: int|
        0 <= i < m.tracks.len() ==> track_fits(#[trigger] m.tracks[i], m.multitrack_type)
}

proof fn lemma_track_reads_back(pre: Seq<u8>, t: TrackView, mode: u8, post: Seq<u8>)
    requires
        track_fits(t, mode),
        is_one(mode) ==> post.len() == 0,
    ensures
        track_at(pre + track_bytes(t, mode) + post, pre.len() as int, mode) == Ok::<
            (TrackView, int),
            Fault,
        >((t, (pre.len() + track_bytes(t, mode).len()) as int)),
        track_bytes(t, mode).len() > 0,
{
    reveal(track_bytes);
    let b = track_bytes(t, mode);
    let s = pre + b + post;
    let pos = pre.len() as int;
    let p = if is_many_codecs(mode) {
        pos + 4
    } else {
        pos
    };
    if is_many_codecs(mode) {
        assert(s.subrange(pos, pos + 4) =~= t.fourcc->0);
    }
    assert(s[p] == b[p - pos]);
    if is_one(mode) {
        assert(from(s, p + 1) =~= t.body);
    } else {
        let len = t.body.len() as u32;
        assert(s.subrange(p + 1, p + 4) =~= be24_bytes(len));
        lemma_be24(s, p + 1, len);
        assert(s.subrange(p + 4, p + 4 + len) =~= t.body);
    }
}

proof fn lemma_tracks_read_back(pre: Seq<u8>, tracks: Seq<TrackView>, mode: u8)
    requires
        is_one(mode) ==> tracks.len() <= 1,
        forall|i: int| 0 <= i < tracks.len() ==> track_fits(#[trigger] tracks[i], mode),
    ensures
        tracks_at(pre + tracks_bytes(tracks, mode), pre.len() as int, mode) == Ok::<
            Seq<TrackView>,
            Fault,
        >(tracks),
    decreases tracks.len(),
{
    if tracks.len() == 0 {
        assert(tracks =~= Seq::empty());
    } else {
        let tail = tracks.subrange(1, tracks.len() as int);
        let first = track_bytes(tracks[0], mode);
        let rest = tracks_bytes(tail, mode);
        lemma_associative(pre, first, rest);
        lemma_track_reads_back(pre, tracks[0], mode, rest);
        assert forall|i: int| 0 <= i < tail.len() implies track_fits(#[trigger] tail[i], mode) by {
            assert(tail[i] == tracks[i + 1]);
        }
        lemma_tracks_read_back(pre + first, tail, mode);
        assert(seq![tracks[0]] + tail =~= tracks);
    }
}

/// Tracks that fit read back as they were written.
pub proof fn law_multitrack_round_trip(m: MultitrackView)
    requires
        tracks_fit(m),
    ensures
        multitrack_of(m.encoded(), m.multitrack_type) == Ok::<MultitrackView, Fault>(m),
        m.encoded().len() > 0,
{
    let mode = m.multitrack_type;
    let all = tracks_bytes(m.tracks, mode);
    lemma_around_nothing(all);
    lemma_tracks_read_back(Seq::empty(), m.tracks, mode);
    lemma_around_nothing(track_bytes(m.tracks[0], mode));
    if is_one(mode) {
        assert(m.tracks.subrange(1, 1) =~= Seq::empty());
        assert(tracks_bytes(m.tracks.subrange(1, 1), mode) == Seq::<u8>::empty());
        assert(all == track_bytes(m.tracks[0], mode) + Seq::<u8>::empty());
    }
    lemma_track_reads_back(
        Seq::empty(),
        m.tracks[0],
        mode,
        if is_one(mode) {
            Seq::empty()
        } else {
            tracks_bytes(m.tracks.subrange(1, m.tracks.len() as int), mode)
        },
    );
}

/// Whatever tracks parse, there is at least one of them, and they fit.
pub proof fn law_parsed_tracks_fit(body: Seq<u8>, mode: u8)
    requires
        multitrack_of(body, mode) is Ok,
    ensures
        tracks_fit(multitrack_of(body, mode)->Ok_0),
{
    lemma_parsed_tracks_fit(body, 0, mode);
}

proof fn lemma_parsed_tracks_fit(s: Seq<u8>, pos: int, mode: u8)
    requires
        0 <= pos,
        tracks_at(s, pos, mode) is Ok,
    ensures
        ({
            let tracks = tracks_at(s, pos, mode)->Ok_0;
            &&& pos < s.len() ==> tracks.len() > 0
            &&& is_one(mode) ==> tracks.len() <= 1
            &&& forall|i: int| 0 <= i < tracks.len() ==> track_fits(#[trigger] tracks[i], mode)
        }),
    decreases s.len() - pos,
{
    if pos < s.len() {
        let (t, end) = track_at(s, pos, mode)->Ok_0;
        lemma_parsed_tracks_fit(s, end, mode);
        reveal(be24);
        assert(track_fits(t, mode));
    }
}

proof fn lemma_track_bytes_exact(s: Seq<u8>, pos: int, mode: u8)
    requires
        0 <= pos,
        track_at(s, pos, mode) is Ok,
    ensures
        ({
            let (t, end) = track_at(s, pos, mode)->Ok_0;
            &&& pos < end <= s.len()
            &&& track_bytes(t, mode) == s.subrange(pos, end)
        }),
{
    reveal(track_bytes);
    let (t, end) = track_at(s, pos, mode)->Ok_0;
    let p = if is_many_codecs(mode) {
        pos + 4
    } else {
        pos
    };
    if !is_one(mode) {
        lemma_be24_exact(s, p + 1);
        assert(t.body.len() == be24(s, p + 1));
    }
    assert(track_bytes(t, mode) =~= s.subrange(pos, end));
}

proof fn lemma_tracks_bytes_exact(s: Seq<u8>, pos: int, mode: u8)
    requires
        0 <= pos <= s.len(),
        tracks_at(s, pos, mode) is Ok,
    ensures
        tracks_bytes(tracks_at(s, pos, mode)->Ok_0, mode) == from(s, pos),
    decreases s.len() - pos,
{
    let tracks = tracks_at(s, pos, mode)->Ok_0;
    if pos < s.len() {
        let (t, end) = track_at(s, pos, mode)->Ok_0;
        let rest = tracks_at(s, end, mode)->Ok_0;
        lemma_track_bytes_exact(s, pos, mode);
        lemma_tracks_bytes_exact(s, end, mode);
        assert(tracks == seq![t] + rest);
        assert(tracks.subrange(1, tracks.len() as int) =~= rest);
        assert(s.subrange(pos, end) + from(s, end) =~= from(s, pos));
    } else {
        assert(from(s, pos) =~= Seq::empty());
    }
}

/// Writing tracks that were read gives back the bytes that they were read from.
pub proof fn law_multitrack_parse_is_exact(body: Seq<u8>, mode: u8)
    requires
        multitrack_of(body, mode) is Ok,
    ensures
        multitrack_of(body, mode)->Ok_0.encoded() == body,
{
    let m = multitrack_of(body, mode)->Ok_0;
    lemma_tracks_bytes_exact(body, 0, mode);
    law_parsed_tracks_fit(body, mode);
    assert(from(body, 0) =~= body);
    if is_one(mode) {
        let first = track_bytes(m.tracks[0], mode);
        assert(m.tracks.subrange(1, 1) =~= Seq::empty());
        assert(tracks_bytes(m.tracks.subrange(1, 1), mode) == Seq::<u8>::empty());
        lemma_around_nothing(first);
        assert(m.encoded() == first);
    }
}

} // verus!
