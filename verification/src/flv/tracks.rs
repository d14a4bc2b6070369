//! Messages with several tracks, taken apart and put together.

use vstd::prelude::*;
#[allow(unused_imports)]
use crate::error::{Error, Fault, Result};
#[allow(unused_imports)]
use crate::flv::audio::{audio_of, AudioTag, AudioView};
#[allow(unused_imports)]
use crate::flv::multitrack::{
    counted_fourcc, first_misfit, first_other_codec, misfit, MultitrackView, SummaryView, TrackView,
};
#[allow(unused_imports)]
use crate::flv::video::{video_of, VideoTag, VideoView};
#[allow(unused_imports)]
use crate::flv::video_tracks::first_other_frame_type;
#[allow(unused_imports)]
use crate::wire::from;

verus! {

proof fn lemma_misfits(s: Seq<SummaryView>, k: int, inner: u8, kind: Seq<char>)
    requires
        0 <= k <= s.len(),
    ensures
        first_misfit(s, k, inner, kind) is None <==> forall|i: int|
            k <= i < s.len() ==> misfit(#[trigger] s[i], inner, kind) is None,
    decreases s.len() - k,
{
    if k < s.len() {
        lemma_misfits(s, k + 1, inner, kind);
    }
}

proof fn lemma_codecs(s: Seq<SummaryView>, k: int, f: Option<Seq<u8>>)
    requires
        0 <= k <= s.len(),
    ensures
        first_other_codec(s, k, f) is None <==> forall|i: int|
            k <= i < s.len() ==> (#[trigger] s[i]).fourcc == f,
    decreases s.len() - k,
{
    if k < s.len() {
        lemma_codecs(s, k + 1, f);
    }
}

proof fn lemma_frame_types(s: Seq<(u8, VideoView)>, k: int, f: u8)
    requires
        0 <= k <= s.len(),
    ensures
        first_other_frame_type(s, k, f) is None <==> forall|i: int|
            k <= i < s.len() ==> (#[trigger] s[i]).1.frame_type == f,
    decreases s.len() - k,
{
    if k < s.len() {
        lemma_frame_types(s, k + 1, f);
    }
}

// ---------------------------------------------------------------------------
// Video
// ---------------------------------------------------------------------------

/// The payload that one track would have alone: the frame type and packet type of the whole, the
/// FourCC that counts for the track, and its body.
pub open spec fn video_alone(t: VideoView, track: TrackView, fourcc: Seq<u8>) -> Seq<u8> {
    let inner = t.ex_packet_type->0;
    seq![(0x80 + t.frame_type % 8 * 16 + inner % 16) as u8] + fourcc + track.body
}

/// A tag with several tracks of pictures gives one tag for each, in order and under its id:
/// the one that its payload alone would be. It fails where a track has no FourCC, or where
/// its payload is no tag.
pub proof fn law_video_tracks_come_apart(
    tag: &VideoTag,
    r: Result<Vec<(u8, VideoTag)>>,
    i: int,
    mode: u8,
    tracks: Seq<TrackView>,
)
    requires
        call_ensures(VideoTag::demux_tracks, (tag,), r),
        tag@.multitrack == Some(MultitrackView { multitrack_type: mode, tracks }),
        tag@.ex_packet_type is Some,
    ensures
        r matches Ok(v) ==> v@.len() == tracks.len() && (0 <= i < v@.len() ==> {
            let f = counted_fourcc(mode, tracks[i].fourcc, tag@.fourcc);
            &&& v@[i].0 == tracks[i].track_id
            &&& f is Some
            &&& video_of(video_alone(tag@, tracks[i], f->0)) == Ok::<VideoView, Fault>(v@[i].1@)
        }),
        r is Err && tracks.len() > 0 ==> exists|k: int|
            0 <= k < tracks.len() && {
                let f = counted_fourcc(mode, (#[trigger] tracks[k]).fourcc, tag@.fourcc);
                f is None || video_of(video_alone(tag@, tracks[k], f->0)) is Err
            },
        tracks.len() == 0 ==> r is Ok,
{
    lemma_video_apart(tag@, mode, tracks, 0, i);
}

proof fn lemma_video_apart(t: VideoView, mode: u8, tracks: Seq<TrackView>, k: int, i: int)
    requires
        0 <= k <= tracks.len(),
        t.ex_packet_type is Some,
    ensures
        ({
            let r = crate::flv::video_tracks::track_tags(t, mode, t.ex_packet_type->0, tracks, k);
            &&& r matches Ok(v) ==> v.len() == tracks.len() - k && (k <= i < tracks.len() ==> {
                let f = counted_fourcc(mode, tracks[i].fourcc, t.fourcc);
                &&& v[i - k].0 == tracks[i].track_id
                &&& f is Some
                &&& video_of(video_alone(t, tracks[i], f->0)) == Ok::<VideoView, Fault>(v[i - k].1)
            })
            &&& r is Err ==> exists|j: int|
                k <= j < tracks.len() && {
                    let f = counted_fourcc(mode, (#[trigger] tracks[j]).fourcc, t.fourcc);
                    f is None || video_of(video_alone(t, tracks[j], f->0)) is Err
                }
        }),
    decreases tracks.len() - k,
{
    if k < tracks.len() {
        let inner = t.ex_packet_type->0;
        let one = crate::flv::video_tracks::track_tag(t, mode, inner, tracks[k]);
        if one is Err {
            let f = counted_fourcc(mode, tracks[k].fourcc, t.fourcc);
            assert(f is None || video_of(video_alone(t, tracks[k], f->0)) is Err);
        }
        lemma_video_apart(t, mode, tracks, k + 1, i);
    }
}

/// A tag without tracks does not come apart.
pub proof fn law_video_without_tracks(tag: &VideoTag, r: Result<Vec<(u8, VideoTag)>>)
    requires
        call_ensures(VideoTag::demux_tracks, (tag,), r),
    ensures
        tag@.multitrack is None ==> (r matches Err(e) && e@ == Fault::Other(
            "VideoTag::demux_tracks: tag is not a Multitrack message"@,
        )),
        tag@.multitrack is Some && tag@.ex_packet_type is None ==> (r matches Err(e) && e@
            == Fault::Other("VideoTag::demux_tracks: multitrack tag lacks inner PacketType"@)),
{
}

/// Whether tags of pictures can stand in one message: there is one at least, and only one in
/// mode 0; each has a FourCC and the packet type of the first, which is none of those that
/// nest, 6 and 7; none has tracks or modifiers of its own; unless the mode is 2 they have
/// one codec; and they have one frame type.
pub open spec fn video_stands_together(mode: u8, tags: Seq<(u8, VideoView)>) -> bool {
    &&& tags.len() > 0
    &&& mode == 0 ==> tags.len() == 1
    &&& tags[0].1.ex_packet_type is Some
    &&& tags[0].1.ex_packet_type != Some(6u8)
    &&& tags[0].1.ex_packet_type != Some(7u8)
    &&& forall|i: int|
        0 <= i < tags.len() ==> {
            let t = (#[trigger] tags[i]).1;
            &&& t.fourcc is Some
            &&& t.ex_packet_type == tags[0].1.ex_packet_type
            &&& t.multitrack is None
            &&& t.mod_ex.len() == 0
            &&& mode != 2 ==> t.fourcc == tags[0].1.fourcc
            &&& t.frame_type == tags[0].1.frame_type
        }
}

/// Tags of pictures are packed exactly where they can stand together. Each becomes a track
/// under its id, without its first five bytes; in mode 2 each keeps its FourCC, else they
/// share that of the first.
pub proof fn law_video_tracks_are_packed(
    mode: u8,
    tags: &[(u8, &VideoTag)],
    r: Result<VideoTag>,
    i: int,
)
    requires
        call_ensures(VideoTag::multitrack_from_tags, (mode, tags), r),
    ensures
        ({
            let all = crate::flv::video_tracks::ref_views(tags@);
            &&& r is Ok <==> video_stands_together(mode, all)
            &&& r matches Ok(t) ==> {
                &&& t@.multitrack matches Some(m) && m.multitrack_type == mode && m.tracks.len()
                    == all.len() && (0 <= i < all.len() ==> {
                    let track = m.tracks[i];
                    &&& track.track_id == all[i].0
                    &&& track.body == from(all[i].1.encoded(), 5)
                    &&& mode == 2 ==> track.fourcc == all[i].1.fourcc
                    &&& mode != 2 ==> track.fourcc is None
                })
                &&& t@.ex_packet_type == all[0].1.ex_packet_type
                &&& mode == 2 ==> t@.fourcc is None
                &&& mode != 2 ==> t@.fourcc == all[0].1.fourcc
                &&& t@.mod_ex.len() == 0
                &&& t@.body.len() == 0
                &&& t@.frame_type == all[0].1.frame_type
            }
        }),
{
    let all = crate::flv::video_tracks::ref_views(tags@);
    let s = crate::flv::video_tracks::summaries(all);
    if all.len() > 0 && all[0].1.ex_packet_type is Some {
        let inner = all[0].1.ex_packet_type->0;
        lemma_misfits(s, 0, inner, "video"@);
        lemma_codecs(s, 0, s[0].fourcc);
        lemma_frame_types(all, 0, all[0].1.frame_type);
        lemma_video_plan(mode, all);
    }
}

proof fn lemma_video_plan(mode: u8, all: Seq<(u8, VideoView)>)
    requires
        all.len() > 0,
        all[0].1.ex_packet_type is Some,
    ensures
        crate::flv::video_tracks::muxed(mode, all) is Ok <==> video_stands_together(mode, all),
{
    let s = crate::flv::video_tracks::summaries(all);
    let inner = all[0].1.ex_packet_type->0;
    lemma_misfits(s, 0, inner, "video"@);
    lemma_codecs(s, 0, s[0].fourcc);
    lemma_frame_types(all, 0, all[0].1.frame_type);
    assert forall|i: int| 0 <= i < all.len() implies #[trigger] s[i]
        == crate::flv::video_tracks::summary(all[i].0, all[i].1) by {}
    if crate::flv::video_tracks::muxed(mode, all) is Ok {
        assert forall|i: int| 0 <= i < all.len() implies ({
            let t = (#[trigger] all[i]).1;
            &&& t.fourcc is Some
            &&& t.ex_packet_type == all[0].1.ex_packet_type
            &&& t.multitrack is None
            &&& t.mod_ex.len() == 0
            &&& mode != 2 ==> t.fourcc == all[0].1.fourcc
            &&& t.frame_type == all[0].1.frame_type
        }) by {
            assert(misfit(s[i], inner, "video"@) is None);
            assert(s[i].fourcc == all[i].1.fourcc);
        }
    }
    if video_stands_together(mode, all) {
        assert forall|i: int| 0 <= i < s.len() implies misfit(
            #[trigger] s[i],
            inner,
            "video"@,
        ) is None by {
            assert(all[i].1.multitrack is None);
        }
        if mode != 2 {
            assert forall|i: int| 0 <= i < s.len() implies (#[trigger] s[i]).fourcc
                == s[0].fourcc by {
                assert(all[i].1.fourcc == all[0].1.fourcc);
            }
        }
    }
}

// ---------------------------------------------------------------------------
// Audio
// ---------------------------------------------------------------------------

/// The payload that one track would have alone: the packet type of the whole, the
/// FourCC that counts for the track, and its body.
pub open spec fn audio_alone(t: AudioView, track: TrackView, fourcc: Seq<u8>) -> Seq<u8> {
    let inner = t.ex_packet_type->0;
    seq![(0x90 + inner % 16) as u8] + fourcc + track.body
}

/// A tag with several tracks of sound gives one tag for each, in order and under its id:
/// the one that its payload alone would be. It fails where a track has no FourCC, or where
/// its payload is no tag.
pub proof fn law_audio_tracks_come_apart(
    tag: &AudioTag,
    r: Result<Vec<(u8, AudioTag)>>,
    i: int,
    mode: u8,
    tracks: Seq<TrackView>,
)
    requires
        call_ensures(AudioTag::demux_tracks, (tag,), r),
        tag@.multitrack == Some(MultitrackView { multitrack_type: mode, tracks }),
        tag@.ex_packet_type is Some,
    ensures
        r matches Ok(v) ==> v@.len() == tracks.len() && (0 <= i < v@.len() ==> {
            let f = counted_fourcc(mode, tracks[i].fourcc, tag@.audio_fourcc);
            &&& v@[i].0 == tracks[i].track_id
            &&& f is Some
            &&& audio_of(audio_alone(tag@, tracks[i], f->0)) == Ok::<AudioView, Fault>(v@[i].1@)
        }),
        r is Err && tracks.len() > 0 ==> exists|k: int|
            0 <= k < tracks.len() && {
                let f = counted_fourcc(mode, (#[trigger] tracks[k]).fourcc, tag@.audio_fourcc);
                f is None || audio_of(audio_alone(tag@, tracks[k], f->0)) is Err
            },
        tracks.len() == 0 ==> r is Ok,
{
    lemma_audio_apart(tag@, mode, tracks, 0, i);
}

proof fn lemma_audio_apart(t: AudioView, mode: u8, tracks: Seq<TrackView>, k: int, i: int)
    requires
        0 <= k <= tracks.len(),
        t.ex_packet_type is Some,
    ensures
        ({
            let r = crate::flv::audio_tracks::track_tags(t, mode, t.ex_packet_type->0, tracks, k);
            &&& r matches Ok(v) ==> v.len() == tracks.len() - k && (k <= i < tracks.len() ==> {
                let f = counted_fourcc(mode, tracks[i].fourcc, t.audio_fourcc);
                &&& v[i - k].0 == tracks[i].track_id
                &&& f is Some
                &&& audio_of(audio_alone(t, tracks[i], f->0)) == Ok::<AudioView, Fault>(v[i - k].1)
            })
            &&& r is Err ==> exists|j: int|
                k <= j < tracks.len() && {
                    let f = counted_fourcc(mode, (#[trigger] tracks[j]).fourcc, t.audio_fourcc);
                    f is None || audio_of(audio_alone(t, tracks[j], f->0)) is Err
                }
        }),
    decreases tracks.len() - k,
{
    if k < tracks.len() {
        let inner = t.ex_packet_type->0;
        let one = crate::flv::audio_tracks::track_tag(t, mode, inner, tracks[k]);
        if one is Err {
            let f = counted_fourcc(mode, tracks[k].fourcc, t.audio_fourcc);
            assert(f is None || audio_of(audio_alone(t, tracks[k], f->0)) is Err);
        }
        lemma_audio_apart(t, mode, tracks, k + 1, i);
    }
}

/// A tag without tracks does not come apart.
pub proof fn law_audio_without_tracks(tag: &AudioTag, r: Result<Vec<(u8, AudioTag)>>)
    requires
        call_ensures(AudioTag::demux_tracks, (tag,), r),
    ensures
        tag@.multitrack is None ==> (r matches Err(e) && e@ == Fault::Other(
            "AudioTag::demux_tracks: tag is not a Multitrack message"@,
        )),
        tag@.multitrack is Some && tag@.ex_packet_type is None ==> (r matches Err(e) && e@
            == Fault::Other("AudioTag::demux_tracks: multitrack tag lacks inner PacketType"@)),
{
}

/// Whether tags of sound can stand in one message: there is one at least, and only one in
/// mode 0; each has a FourCC and the packet type of the first, which is none of those that
/// nest, 5 and 7; none has tracks or modifiers of its own; unless the mode is 2 they have
/// one codec.
pub open spec fn audio_stands_together(mode: u8, tags: Seq<(u8, AudioView)>) -> bool {
    &&& tags.len() > 0
    &&& mode == 0 ==> tags.len() == 1
    &&& tags[0].1.ex_packet_type is Some
    &&& tags[0].1.ex_packet_type != Some(5u8)
    &&& tags[0].1.ex_packet_type != Some(7u8)
    &&& forall|i: int|
        0 <= i < tags.len() ==> {
            let t = (#[trigger] tags[i]).1;
            &&& t.audio_fourcc is Some
            &&& t.ex_packet_type == tags[0].1.ex_packet_type
            &&& t.multitrack is None
            &&& t.mod_ex.len() == 0
            &&& mode != 2 ==> t.audio_fourcc == tags[0].1.audio_fourcc
        }
}

/// Tags of sound are packed exactly where they can stand together. Each becomes a track
/// under its id, without its first five bytes; in mode 2 each keeps its FourCC, else they
/// share that of the first.
pub proof fn law_audio_tracks_are_packed(
    mode: u8,
    tags: &[(u8, &AudioTag)],
    r: Result<AudioTag>,
    i: int,
)
    requires
        call_ensures(AudioTag::multitrack_from_tags, (mode, tags), r),
    ensures
        ({
            let all = crate::flv::audio_tracks::ref_views(tags@);
            &&& r is Ok <==> audio_stands_together(mode, all)
            &&& r matches Ok(t) ==> {
                &&& t@.multitrack matches Some(m) && m.multitrack_type == mode && m.tracks.len()
                    == all.len() && (0 <= i < all.len() ==> {
                    let track = m.tracks[i];
                    &&& track.track_id == all[i].0
                    &&& track.body == from(all[i].1.encoded(), 5)
                    &&& mode == 2 ==> track.fourcc == all[i].1.audio_fourcc
                    &&& mode != 2 ==> track.fourcc is None
                })
                &&& t@.ex_packet_type == all[0].1.ex_packet_type
                &&& mode == 2 ==> t@.audio_fourcc is None
                &&& mode != 2 ==> t@.audio_fourcc == all[0].1.audio_fourcc
                &&& t@.mod_ex.len() == 0
                &&& t@.body.len() == 0
            }
        }),
{
    let all = crate::flv::audio_tracks::ref_views(tags@);
    let s = crate::flv::audio_tracks::summaries(all);
    if all.len() > 0 && all[0].1.ex_packet_type is Some {
        let inner = all[0].1.ex_packet_type->0;
        lemma_misfits(s, 0, inner, "audio"@);
        lemma_codecs(s, 0, s[0].fourcc);
        lemma_audio_plan(mode, all);
    }
}

proof fn lemma_audio_plan(mode: u8, all: Seq<(u8, AudioView)>)
    requires
        all.len() > 0,
        all[0].1.ex_packet_type is Some,
    ensures
        crate::flv::audio_tracks::muxed(mode, all) is Ok <==> audio_stands_together(mode, all),
{
    let s = crate::flv::audio_tracks::summaries(all);
    let inner = all[0].1.ex_packet_type->0;
    lemma_misfits(s, 0, inner, "audio"@);
    lemma_codecs(s, 0, s[0].fourcc);
    assert forall|i: int| 0 <= i < all.len() implies #[trigger] s[i]
        == crate::flv::audio_tracks::summary(all[i].0, all[i].1) by {}
    if crate::flv::audio_tracks::muxed(mode, all) is Ok {
        assert forall|i: int| 0 <= i < all.len() implies ({
            let t = (#[trigger] all[i]).1;
            &&& t.audio_fourcc is Some
            &&& t.ex_packet_type == all[0].1.ex_packet_type
            &&& t.multitrack is None
            &&& t.mod_ex.len() == 0
            &&& mode != 2 ==> t.audio_fourcc == all[0].1.audio_fourcc
        }) by {
            assert(misfit(s[i], inner, "audio"@) is None);
            assert(s[i].fourcc == all[i].1.audio_fourcc);
        }
    }
    if audio_stands_together(mode, all) {
        assert forall|i: int| 0 <= i < s.len() implies misfit(
            #[trigger] s[i],
            inner,
            "audio"@,
        ) is None by {
            assert(all[i].1.multitrack is None);
        }
        if mode != 2 {
            assert forall|i: int| 0 <= i < s.len() implies (#[trigger] s[i]).fourcc
                == s[0].fourcc by {
                assert(all[i].1.audio_fourcc == all[0].1.audio_fourcc);
            }
        }
    }
}

} // verus!
