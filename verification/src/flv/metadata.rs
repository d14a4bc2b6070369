//! What `onMetaData` says of a stream.
//!
//! The well-known properties have fields; all others are kept as they came.

use vstd::prelude::*;
use crate::amf::Amf0Value;
#[allow(unused_imports)]
use crate::amf::{lemma_container_views, pair_views, Amf0};
use crate::amf_fields::FieldList;
#[allow(unused_imports)]
use crate::amf_fields::{
    bool_field, distinct, last_named, law_last_of_a_name_counts, lemma_last_present, lemma_last_push, lemma_marked, mark,
    number_field, one, present, text_field, Fields,
};
use crate::error::{other, Result};
#[allow(unused_imports)]
use crate::error::{outcome, Fault};
#[allow(unused_imports)]
use crate::flv::fourcc_view;
#[allow(unused_imports)]
use crate::model::opt_view;
use crate::number::Double;
#[allow(unused_imports)]
use crate::number::{at_least_zero, is_finite, is_whole, lemma_nat_bits, nat_bits, whole};
use crate::text::same_text;
#[allow(unused_imports)]
use crate::wire::be32_bytes;

verus! {

/// The argument of `onMetaData`.
#[derive(Debug, PartialEq)]
pub struct OnMetaData {
    /// The audio codec: a legacy number or a FourCC.
    pub audiocodecid: Option<Double>,
    /// Kilobits per second.
    pub audiodatarate: Option<Double>,
    /// Seconds.
    pub audiodelay: Option<Double>,
    /// Hertz.
    pub audiosamplerate: Option<Double>,
    /// Bits per sample.
    pub audiosamplesize: Option<Double>,
    /// Whether the last video frame is a key frame.
    pub can_seek_to_end: Option<bool>,
    pub creationdate: Option<String>,
    /// Seconds.
    pub duration: Option<Double>,
    /// Bytes.
    pub filesize: Option<Double>,
    /// Frames per second.
    pub framerate: Option<Double>,
    /// Pixels.
    pub height: Option<Double>,
    pub stereo: Option<bool>,
    /// The video codec: a legacy number or a FourCC.
    pub videocodecid: Option<Double>,
    /// Kilobits per second.
    pub videodatarate: Option<Double>,
    /// Pixels.
    pub width: Option<Double>,
    /// What is said of further audio tracks, as it came.
    pub audio_track_id_info_map: Option<Amf0Value>,
    /// What is said of further video tracks, as it came.
    pub video_track_id_info_map: Option<Amf0Value>,
    /// Every other property, in order.
    pub extra: Vec<(String, Amf0Value)>,
}

/// The mathematical view of [`OnMetaData`].
pub struct OnMetaView {
    pub audiocodecid: Option<Double>,
    pub audiodatarate: Option<Double>,
    pub audiodelay: Option<Double>,
    pub audiosamplerate: Option<Double>,
    pub audiosamplesize: Option<Double>,
    pub can_seek_to_end: Option<bool>,
    pub creationdate: Option<Seq<char>>,
    pub duration: Option<Double>,
    pub filesize: Option<Double>,
    pub framerate: Option<Double>,
    pub height: Option<Double>,
    pub stereo: Option<bool>,
    pub videocodecid: Option<Double>,
    pub videodatarate: Option<Double>,
    pub width: Option<Double>,
    pub audio_track_id_info_map: Option<Amf0>,
    pub video_track_id_info_map: Option<Amf0>,
    pub extra: Seq<(Seq<char>, Amf0)>,
}

impl View for OnMetaData {
    type V = OnMetaView;

    open spec fn view(&self) -> OnMetaView {
        OnMetaView {
            audiocodecid: self.audiocodecid,
            audiodatarate: self.audiodatarate,
            audiodelay: self.audiodelay,
            audiosamplerate: self.audiosamplerate,
            audiosamplesize: self.audiosamplesize,
            can_seek_to_end: self.can_seek_to_end,
            creationdate: opt_view(self.creationdate),
            duration: self.duration,
            filesize: self.filesize,
            framerate: self.framerate,
            height: self.height,
            stereo: self.stereo,
            videocodecid: self.videocodecid,
            videodatarate: self.videodatarate,
            width: self.width,
            audio_track_id_info_map: opt_view(self.audio_track_id_info_map),
            video_track_id_info_map: opt_view(self.video_track_id_info_map),
            extra: pair_views(self.extra@),
        }
    }
}

// ---------------------------------------------------------------------------
// The model
// ---------------------------------------------------------------------------

/// The last property called `key`, if that is a number.
pub open spec fn last_number(p: Seq<(Seq<char>, Amf0)>, key: Seq<char>) -> Option<Double> {
    match last_named(p, p.len() as int, key) {
        Some(Amf0::Number(bits)) => Some(Double { bits }),
        _ => None,
    }
}

/// The last property called `key`, if that is a truth value.
pub open spec fn last_bool(p: Seq<(Seq<char>, Amf0)>, key: Seq<char>) -> Option<bool> {
    match last_named(p, p.len() as int, key) {
        Some(Amf0::Boolean(b)) => Some(b),
        _ => None,
    }
}

/// The last property called `key`, if that is a string.
pub open spec fn last_text(p: Seq<(Seq<char>, Amf0)>, key: Seq<char>) -> Option<Seq<char>> {
    match last_named(p, p.len() as int, key) {
        Some(Amf0::String(s)) => Some(s),
        _ => None,
    }
}

/// Whether a property has a field.
pub open spec fn well_known(key: Seq<char>) -> bool {
    ||| key == "audiocodecid"@
    ||| key == "audiodatarate"@
    ||| key == "audiodelay"@
    ||| key == "audiosamplerate"@
    ||| key == "audiosamplesize"@
    ||| key == "canSeekToEnd"@
    ||| key == "creationdate"@
    ||| key == "duration"@
    ||| key == "filesize"@
    ||| key == "framerate"@
    ||| key == "height"@
    ||| key == "stereo"@
    ||| key == "videocodecid"@
    ||| key == "videodatarate"@
    ||| key == "width"@
    ||| key == "audioTrackIdInfoMap"@
    ||| key == "videoTrackIdInfoMap"@
}

/// The properties that have no field, in order.
pub open spec fn others(p: Seq<(Seq<char>, Amf0)>) -> Seq<(Seq<char>, Amf0)>
    decreases p.len(),
{
    if p.len() == 0 {
        Seq::empty()
    } else if well_known(p.last().0) {
        others(p.drop_last())
    } else {
        others(p.drop_last()).push(p.last())
    }
}

/// What properties say. Of a name that occurs more than once, the last one
/// counts.
pub open spec fn metadata_in(p: Seq<(Seq<char>, Amf0)>) -> OnMetaView {
    OnMetaView {
        audiocodecid: last_number(p, "audiocodecid"@),
        audiodatarate: last_number(p, "audiodatarate"@),
        audiodelay: last_number(p, "audiodelay"@),
        audiosamplerate: last_number(p, "audiosamplerate"@),
        audiosamplesize: last_number(p, "audiosamplesize"@),
        can_seek_to_end: last_bool(p, "canSeekToEnd"@),
        creationdate: last_text(p, "creationdate"@),
        duration: last_number(p, "duration"@),
        filesize: last_number(p, "filesize"@),
        framerate: last_number(p, "framerate"@),
        height: last_number(p, "height"@),
        stereo: last_bool(p, "stereo"@),
        videocodecid: last_number(p, "videocodecid"@),
        videodatarate: last_number(p, "videodatarate"@),
        width: last_number(p, "width"@),
        audio_track_id_info_map: last_named(p, p.len() as int, "audioTrackIdInfoMap"@),
        video_track_id_info_map: last_named(p, p.len() as int, "videoTrackIdInfoMap"@),
        extra: others(p),
    }
}

/// What an AMF0 value says, if it is an ECMA array or an object.
pub open spec fn metadata_of(v: Amf0) -> core::result::Result<OnMetaView, Fault> {
    match v {
        Amf0::EcmaArray(p) => Ok(metadata_in(p)),
        Amf0::Object(p) => Ok(metadata_in(p)),
        _ => Err(Fault::Other("onMetaData: argument must be an ECMA array or Object"@)),
    }
}

impl OnMetaView {
    /// Nothing said.
    pub open spec fn none() -> OnMetaView {
        OnMetaView {
            audiocodecid: None,
            audiodatarate: None,
            audiodelay: None,
            audiosamplerate: None,
            audiosamplesize: None,
            can_seek_to_end: None,
            creationdate: None,
            duration: None,
            filesize: None,
            framerate: None,
            height: None,
            stereo: None,
            videocodecid: None,
            videodatarate: None,
            width: None,
            audio_track_id_info_map: None,
            video_track_id_info_map: None,
            extra: Seq::empty(),
        }
    }

    /// The properties that have a field, in their order.
    pub open spec fn fields(self) -> Fields {
        seq![
            number_field("audiocodecid"@, self.audiocodecid),
            number_field("audiodatarate"@, self.audiodatarate),
            number_field("audiodelay"@, self.audiodelay),
            number_field("audiosamplerate"@, self.audiosamplerate),
            number_field("audiosamplesize"@, self.audiosamplesize),
            bool_field("canSeekToEnd"@, self.can_seek_to_end),
            text_field("creationdate"@, self.creationdate),
            number_field("duration"@, self.duration),
            number_field("filesize"@, self.filesize),
            number_field("framerate"@, self.framerate),
            number_field("height"@, self.height),
            bool_field("stereo"@, self.stereo),
            number_field("videocodecid"@, self.videocodecid),
            number_field("videodatarate"@, self.videodatarate),
            number_field("width"@, self.width),
            ("audioTrackIdInfoMap"@, self.audio_track_id_info_map),
            ("videoTrackIdInfoMap"@, self.video_track_id_info_map),
        ]
    }

    /// The AMF0 value: the properties that have a field, then the others.
    pub open spec fn value(self) -> Amf0 {
        Amf0::EcmaArray(present(self.fields()) + self.extra)
    }
}

/// The FourCC that a codec number holds: a whole number of 32 bits whose four
/// bytes, highest first, are printable ASCII.
pub open spec fn fourcc_in(n: Double) -> Option<Seq<u8>> {
    let bytes = be32_bytes(whole(n.bits) as u32);
    if is_finite(n.bits) && at_least_zero(n.bits) && is_whole(n.bits) && whole(n.bits) <= u32::MAX
        && (forall|i: int| 0 <= i < 4 ==> 0x20 <= #[trigger] bytes[i] <= 0x7e) {
        Some(bytes)
    } else {
        None
    }
}

// ---------------------------------------------------------------------------
// The code
// ---------------------------------------------------------------------------

fn number(v: &Amf0Value) -> (r: Option<Double>)
    ensures
        r == match v@ {
            Amf0::Number(bits) => Some(Double { bits }),
            _ => None,
        },
{
    match v {
        Amf0Value::Number(d) => Some(*d),
        _ => None,
    }
}

fn boolean(v: &Amf0Value) -> (r: Option<bool>)
    ensures
        r == match v@ {
            Amf0::Boolean(b) => Some(b),
            _ => None,
        },
{
    match v {
        Amf0Value::Boolean(b) => Some(*b),
        _ => None,
    }
}

fn text(v: &Amf0Value) -> (r: Option<String>)
    ensures
        opt_view(r) == match v@ {
            Amf0::String(s) => Some(s),
            _ => None,
        },
{
    match v {
        Amf0Value::String(s) => Some(s.clone()),
        _ => None,
    }
}

fn num_to_fourcc(n: Double) -> (r: Option<[u8; 4]>)
    ensures
        fourcc_view(r) == fourcc_in(n),
{
    if !n.finite_at_least_zero() {
        return None;
    }
    let (v, exact) = n.whole_u32();
    if !exact {
        return None;
    }
    let a: u8 = (v / 0x100_0000) as u8;
    let b: u8 = (v / 0x1_0000 % 256) as u8;
    let c: u8 = (v / 256 % 256) as u8;
    let d: u8 = (v % 256) as u8;
    let bytes: [u8; 4] = [a, b, c, d];
    proof {
        let spec = be32_bytes(v);
        assert(bytes@ =~= spec);
        assert(spec[0] == a && spec[1] == b && spec[2] == c && spec[3] == d);
    }
    let mut i: usize = 0;
    while i < 4
        invariant
            i <= 4,
            bytes@ == be32_bytes(v),
            v == whole(n.bits),
            is_finite(n.bits),
            at_least_zero(n.bits),
            is_whole(n.bits),
            forall|k: int| 0 <= k < i ==> 0x20 <= #[trigger] bytes@[k] <= 0x7e,
        decreases 4 - i,
    {
        if bytes[i] < 0x20 || bytes[i] > 0x7e {
            assert(!(0x20 <= be32_bytes(v)[i as int] <= 0x7e));
            return None;
        }
        i = i + 1;
    }
    Some(bytes)
}

/// Nothing said.
impl Default for OnMetaData {
    fn default() -> (m: OnMetaData)
        ensures
            m@ == OnMetaView::none(),
    {
        let extra: Vec<(String, Amf0Value)> = Vec::new();
        assert(pair_views(extra@) =~= Seq::empty());
        OnMetaData {
            audiocodecid: None,
            audiodatarate: None,
            audiodelay: None,
            audiosamplerate: None,
            audiosamplesize: None,
            can_seek_to_end: None,
            creationdate: None,
            duration: None,
            filesize: None,
            framerate: None,
            height: None,
            stereo: None,
            videocodecid: None,
            videodatarate: None,
            width: None,
            audio_track_id_info_map: None,
            video_track_id_info_map: None,
            extra,
        }
    }
}

/// What one more property changes.
spec fn stepped(m: OnMetaView, k: Seq<char>, v: Amf0) -> OnMetaView {
    let number = match v {
        Amf0::Number(bits) => Some(Double { bits }),
        _ => None,
    };
    let boolean = match v {
        Amf0::Boolean(b) => Some(b),
        _ => None,
    };
    let text = match v {
        Amf0::String(s) => Some(s),
        _ => None,
    };
    if k == "audiocodecid"@ {
        OnMetaView { audiocodecid: number, ..m }
    } else if k == "audiodatarate"@ {
        OnMetaView { audiodatarate: number, ..m }
    } else if k == "audiodelay"@ {
        OnMetaView { audiodelay: number, ..m }
    } else if k == "audiosamplerate"@ {
        OnMetaView { audiosamplerate: number, ..m }
    } else if k == "audiosamplesize"@ {
        OnMetaView { audiosamplesize: number, ..m }
    } else if k == "canSeekToEnd"@ {
        OnMetaView { can_seek_to_end: boolean, ..m }
    } else if k == "creationdate"@ {
        OnMetaView { creationdate: text, ..m }
    } else if k == "duration"@ {
        OnMetaView { duration: number, ..m }
    } else if k == "filesize"@ {
        OnMetaView { filesize: number, ..m }
    } else if k == "framerate"@ {
        OnMetaView { framerate: number, ..m }
    } else if k == "height"@ {
        OnMetaView { height: number, ..m }
    } else if k == "stereo"@ {
        OnMetaView { stereo: boolean, ..m }
    } else if k == "videocodecid"@ {
        OnMetaView { videocodecid: number, ..m }
    } else if k == "videodatarate"@ {
        OnMetaView { videodatarate: number, ..m }
    } else if k == "width"@ {
        OnMetaView { width: number, ..m }
    } else if k == "audioTrackIdInfoMap"@ {
        OnMetaView { audio_track_id_info_map: Some(v), ..m }
    } else if k == "videoTrackIdInfoMap"@ {
        OnMetaView { video_track_id_info_map: Some(v), ..m }
    } else {
        OnMetaView { extra: m.extra.push((k, v)), ..m }
    }
}

impl OnMetaData {
    fn set(&mut self, k: &str, v: &Amf0Value)
        ensures
            final(self)@ == stepped(old(self)@, k@, v@),
    {
        if same_text(k, "audiocodecid") {
            self.audiocodecid = number(v);
        } else if same_text(k, "audiodatarate") {
            self.audiodatarate = number(v);
        } else if same_text(k, "audiodelay") {
            self.audiodelay = number(v);
        } else if same_text(k, "audiosamplerate") {
            self.audiosamplerate = number(v);
        } else if same_text(k, "audiosamplesize") {
            self.audiosamplesize = number(v);
        } else if same_text(k, "canSeekToEnd") {
            self.can_seek_to_end = boolean(v);
        } else if same_text(k, "creationdate") {
            self.creationdate = text(v);
        } else if same_text(k, "duration") {
            self.duration = number(v);
        } else if same_text(k, "filesize") {
            self.filesize = number(v);
        } else if same_text(k, "framerate") {
            self.framerate = number(v);
        } else if same_text(k, "height") {
            self.height = number(v);
        } else if same_text(k, "stereo") {
            self.stereo = boolean(v);
        } else if same_text(k, "videocodecid") {
            self.videocodecid = number(v);
        } else if same_text(k, "videodatarate") {
            self.videodatarate = number(v);
        } else if same_text(k, "width") {
            self.width = number(v);
        } else if same_text(k, "audioTrackIdInfoMap") {
            self.audio_track_id_info_map = Some(v.clone());
        } else if same_text(k, "videoTrackIdInfoMap") {
            self.video_track_id_info_map = Some(v.clone());
        } else {
            let ghost was = pair_views(self.extra@);
            self.extra.push((k.to_owned(), v.clone()));
            assert(pair_views(self.extra@) =~= was.push((k@, v@)));
        }
    }

    /// What an AMF0 value says.
    pub fn from_amf0(value: &Amf0Value) -> (r: Result<OnMetaData>)
        ensures
            outcome(r) == metadata_of(value@),
    {
        proof {
            lemma_container_views(*value);
        }
        let pairs = match value {
            Amf0Value::EcmaArray(p) => p,
            Amf0Value::Object(p) => p,
            _ => {
                return Err(other("onMetaData: argument must be an ECMA array or Object"));
            },
        };
        let ghost all = pair_views(pairs@);
        let mut m = OnMetaData::default();
        let mut i: usize = 0;
        assert(all.take(0) =~= Seq::empty());
        while i < pairs.len()
            invariant
                all == pair_views(pairs@),
                i <= pairs@.len(),
                m@ == metadata_in(all.take(i as int)),
            decreases pairs@.len() - i,
        {
            m.set(pairs[i].0.as_str(), &pairs[i].1);
            proof {
                lemma_step(all.take(i as int), all[i as int]);
                assert(all.take(i + 1) =~= all.take(i as int).push(all[i as int]));
            }
            i = i + 1;
        }
        assert(all.take(all.len() as int) =~= all);
        Ok(m)
    }

    /// The AMF0 value, an ECMA array.
    pub fn to_amf0(&self) -> (v: Amf0Value)
        ensures
            v@ == self@.value(),
    {
        let mut l = FieldList::new();
        l.push_num("audiocodecid", self.audiocodecid);
        l.push_num("audiodatarate", self.audiodatarate);
        l.push_num("audiodelay", self.audiodelay);
        l.push_num("audiosamplerate", self.audiosamplerate);
        l.push_num("audiosamplesize", self.audiosamplesize);
        l.push_bool("canSeekToEnd", self.can_seek_to_end);
        match &self.creationdate {
            Some(s) => l.push("creationdate", Some(Amf0Value::String(s.clone()))),
            None => l.push("creationdate", None),
        }
        l.push_num("duration", self.duration);
        l.push_num("filesize", self.filesize);
        l.push_num("framerate", self.framerate);
        l.push_num("height", self.height);
        l.push_bool("stereo", self.stereo);
        l.push_num("videocodecid", self.videocodecid);
        l.push_num("videodatarate", self.videodatarate);
        l.push_num("width", self.width);
        match &self.audio_track_id_info_map {
            Some(v) => l.push("audioTrackIdInfoMap", Some(v.clone())),
            None => l.push("audioTrackIdInfoMap", None),
        }
        match &self.video_track_id_info_map {
            Some(v) => l.push("videoTrackIdInfoMap", Some(v.clone())),
            None => l.push("videoTrackIdInfoMap", None),
        }
        assert(l@ =~= self@.fields());
        let mut pairs = l.into_pairs();
        let ghost front = pair_views(pairs@);
        let ghost extra = pair_views(self.extra@);
        let mut i: usize = 0;
        assert(front + extra.take(0) =~= front);
        while i < self.extra.len()
            invariant
                extra == pair_views(self.extra@),
                i <= self.extra@.len(),
                pair_views(pairs@) == front + extra.take(i as int),
            decreases self.extra@.len() - i,
        {
            let ghost was = pair_views(pairs@);
            pairs.push((self.extra[i].0.clone(), self.extra[i].1.clone()));
            assert(pair_views(pairs@) =~= was.push(extra[i as int]));
            assert(front + extra.take(i + 1) =~= (front + extra.take(i as int)).push(
                extra[i as int],
            ));
            i = i + 1;
        }
        assert(extra.take(extra.len() as int) =~= extra);
        let v = Amf0Value::EcmaArray(pairs);
        proof {
            lemma_container_views(v);
        }
        v
    }

    /// The FourCC of the audio codec, if its number holds one.
    pub fn audio_fourcc(&self) -> (r: Option<[u8; 4]>)
        ensures
            fourcc_view(r) == match self.audiocodecid {
                Some(n) => fourcc_in(n),
                None => None,
            },
    {
        match self.audiocodecid {
            Some(n) => num_to_fourcc(n),
            None => None,
        }
    }

    /// The FourCC of the video codec, if its number holds one.
    pub fn video_fourcc(&self) -> (r: Option<[u8; 4]>)
        ensures
            fourcc_view(r) == match self.videocodecid {
                Some(n) => fourcc_in(n),
                None => None,
            },
    {
        match self.videocodecid {
            Some(n) => num_to_fourcc(n),
            None => None,
        }
    }
}

// ---------------------------------------------------------------------------
// Names
// ---------------------------------------------------------------------------

/// The marks of the well-known names.
spec fn marks() -> Seq<int> {
    seq![
        53174691172int,
        57469661797int,
        44584756601int,
        66059596389int,
        66059596645int,
        53206937444int,
        53208048741int,
        36045157486int,
        36077925221int,
        40373482085int,
        27521280372int,
        27706811759int,
        53526226276int,
        57821196901int,
        23478233448int,
        83239464816int,
        83590999920int,
    ]
}

proof fn lemma_marks()
    ensures
        mark("audiocodecid"@) == 53174691172,
        mark("audiodatarate"@) == 57469661797,
        mark("audiodelay"@) == 44584756601,
        mark("audiosamplerate"@) == 66059596389,
        mark("audiosamplesize"@) == 66059596645,
        mark("canSeekToEnd"@) == 53206937444,
        mark("creationdate"@) == 53208048741,
        mark("duration"@) == 36045157486,
        mark("filesize"@) == 36077925221,
        mark("framerate"@) == 40373482085,
        mark("height"@) == 27521280372,
        mark("stereo"@) == 27706811759,
        mark("videocodecid"@) == 53526226276,
        mark("videodatarate"@) == 57821196901,
        mark("width"@) == 23478233448,
        mark("audioTrackIdInfoMap"@) == 83239464816,
        mark("videoTrackIdInfoMap"@) == 83590999920,
{
    reveal_strlit("audiocodecid");
    reveal_strlit("audiodatarate");
    reveal_strlit("audiodelay");
    reveal_strlit("audiosamplerate");
    reveal_strlit("audiosamplesize");
    reveal_strlit("canSeekToEnd");
    reveal_strlit("creationdate");
    reveal_strlit("duration");
    reveal_strlit("filesize");
    reveal_strlit("framerate");
    reveal_strlit("height");
    reveal_strlit("stereo");
    reveal_strlit("videocodecid");
    reveal_strlit("videodatarate");
    reveal_strlit("width");
    reveal_strlit("audioTrackIdInfoMap");
    reveal_strlit("videoTrackIdInfoMap");
}

proof fn lemma_fields_distinct(m: OnMetaView)
    ensures
        distinct(m.fields()),
{
    lemma_marks();
    let f = m.fields();
    assert forall|i: int| 0 <= i < f.len() implies mark((#[trigger] f[i]).0) == marks()[i] by {}
    lemma_marked(f, marks());
}

proof fn lemma_step(p: Seq<(Seq<char>, Amf0)>, x: (Seq<char>, Amf0))
    ensures
        stepped(metadata_in(p), x.0, x.1) == metadata_in(p.push(x)),
{
    lemma_marks();
    lemma_last_push(p, x, "audiocodecid"@);
    lemma_last_push(p, x, "audiodatarate"@);
    lemma_last_push(p, x, "audiodelay"@);
    lemma_last_push(p, x, "audiosamplerate"@);
    lemma_last_push(p, x, "audiosamplesize"@);
    lemma_last_push(p, x, "canSeekToEnd"@);
    lemma_last_push(p, x, "creationdate"@);
    lemma_last_push(p, x, "duration"@);
    lemma_last_push(p, x, "filesize"@);
    lemma_last_push(p, x, "framerate"@);
    lemma_last_push(p, x, "height"@);
    lemma_last_push(p, x, "stereo"@);
    lemma_last_push(p, x, "videocodecid"@);
    lemma_last_push(p, x, "videodatarate"@);
    lemma_last_push(p, x, "width"@);
    lemma_last_push(p, x, "audioTrackIdInfoMap"@);
    lemma_last_push(p, x, "videoTrackIdInfoMap"@);
    assert(p.push(x).drop_last() =~= p);
}

// ---------------------------------------------------------------------------
// Laws
// ---------------------------------------------------------------------------

/// Whether no other property has the name of one that has a field.
pub open spec fn extra_apart(m: OnMetaView) -> bool {
    forall|i: int| 0 <= i < m.extra.len() ==> !well_known((#[trigger] m.extra[i]).0)
}

proof fn lemma_others_apart(p: Seq<(Seq<char>, Amf0)>)
    ensures
        forall|i: int| 0 <= i < others(p).len() ==> !well_known((#[trigger] others(p)[i]).0),
    decreases p.len(),
{
    if p.len() > 0 {
        let front = others(p.drop_last());
        lemma_others_apart(p.drop_last());
        assert forall|i: int| 0 <= i < others(p).len() implies !well_known(
            (#[trigger] others(p)[i]).0,
        ) by {
            if i < front.len() {
                assert(others(p)[i] == front[i]);
            }
        }
    }
}

proof fn lemma_others_append(a: Seq<(Seq<char>, Amf0)>, b: Seq<(Seq<char>, Amf0)>)
    requires
        forall|i: int| 0 <= i < b.len() ==> !well_known((#[trigger] b[i]).0),
    ensures
        others(a + b) == others(a) + b,
    decreases b.len(),
{
    if b.len() == 0 {
        assert(a + b =~= a);
        assert(others(a) + b =~= others(a));
    } else {
        let front = b.drop_last();
        assert forall|i: int| 0 <= i < front.len() implies !well_known((#[trigger] front[i]).0) by {
            assert(front[i] == b[i]);
        }
        lemma_others_append(a, front);
        assert((a + b).drop_last() =~= a + front);
        assert((a + b).last() == b[b.len() - 1]);
        assert(others(a) + b =~= (others(a) + front).push(b.last()));
    }
}

proof fn lemma_no_others(fields: Fields)
    requires
        forall|i: int| 0 <= i < fields.len() ==> well_known((#[trigger] fields[i]).0),
    ensures
        others(present(fields)) == Seq::<(Seq<char>, Amf0)>::empty(),
    decreases fields.len(),
{
    if fields.len() > 0 {
        let front = fields.drop_last();
        assert forall|i: int| 0 <= i < front.len() implies well_known((#[trigger] front[i]).0) by {
            assert(front[i] == fields[i]);
        }
        lemma_no_others(front);
        assert(fields.last() == fields[fields.len() - 1]);
        if fields.last().1 is Some {
            assert(present(fields).drop_last() =~= present(front));
            assert(present(fields).last() == one(fields.last())[0]);
        } else {
            assert(present(fields) =~= present(front));
        }
    }
}

proof fn lemma_field_back(m: OnMetaView, i: int)
    requires
        extra_apart(m),
        0 <= i < m.fields().len(),
    ensures
        ({
            let p = present(m.fields()) + m.extra;
            last_named(p, p.len() as int, m.fields()[i].0) == m.fields()[i].1
        }),
{
    let f = m.fields();
    lemma_fields_distinct(m);
    assert(well_known(f[i].0));
    lemma_last_present(f, m.extra, i);
}

/// The properties of the AMF0 value.
#[verifier::opaque]
spec fn written(m: OnMetaView) -> Seq<(Seq<char>, Amf0)> {
    present(m.fields()) + m.extra
}

proof fn lemma_audio_back(m: OnMetaView)
    requires
        extra_apart(m),
    ensures
        last_number(written(m), "audiocodecid"@) == m.audiocodecid,
        last_number(written(m), "audiodatarate"@) == m.audiodatarate,
        last_number(written(m), "audiodelay"@) == m.audiodelay,
        last_number(written(m), "audiosamplerate"@) == m.audiosamplerate,
{
    reveal(written);
    let f = m.fields();
    assert(f[0].0 == "audiocodecid"@);
    lemma_field_back(m, 0);
    assert(f[1].0 == "audiodatarate"@);
    lemma_field_back(m, 1);
    assert(f[2].0 == "audiodelay"@);
    lemma_field_back(m, 2);
    assert(f[3].0 == "audiosamplerate"@);
    lemma_field_back(m, 3);
}

proof fn lemma_file_back(m: OnMetaView)
    requires
        extra_apart(m),
    ensures
        last_number(written(m), "audiosamplesize"@) == m.audiosamplesize,
        last_bool(written(m), "canSeekToEnd"@) == m.can_seek_to_end,
        last_text(written(m), "creationdate"@) == m.creationdate,
        last_number(written(m), "duration"@) == m.duration,
{
    reveal(written);
    let f = m.fields();
    assert(f[4].0 == "audiosamplesize"@);
    lemma_field_back(m, 4);
    assert(f[5].0 == "canSeekToEnd"@);
    lemma_field_back(m, 5);
    assert(f[6].0 == "creationdate"@);
    lemma_field_back(m, 6);
    assert(f[7].0 == "duration"@);
    lemma_field_back(m, 7);
}

proof fn lemma_picture_back(m: OnMetaView)
    requires
        extra_apart(m),
    ensures
        last_number(written(m), "filesize"@) == m.filesize,
        last_number(written(m), "framerate"@) == m.framerate,
        last_number(written(m), "height"@) == m.height,
        last_bool(written(m), "stereo"@) == m.stereo,
{
    reveal(written);
    let f = m.fields();
    assert(f[8].0 == "filesize"@);
    lemma_field_back(m, 8);
    assert(f[9].0 == "framerate"@);
    lemma_field_back(m, 9);
    assert(f[10].0 == "height"@);
    lemma_field_back(m, 10);
    assert(f[11].0 == "stereo"@);
    lemma_field_back(m, 11);
}

proof fn lemma_video_back(m: OnMetaView)
    requires
        extra_apart(m),
    ensures
        last_number(written(m), "videocodecid"@) == m.videocodecid,
        last_number(written(m), "videodatarate"@) == m.videodatarate,
        last_number(written(m), "width"@) == m.width,
        last_named(written(m), written(m).len() as int, "audioTrackIdInfoMap"@) == m.audio_track_id_info_map,
        last_named(written(m), written(m).len() as int, "videoTrackIdInfoMap"@) == m.video_track_id_info_map,
{
    reveal(written);
    let f = m.fields();
    assert(f[12].0 == "videocodecid"@);
    lemma_field_back(m, 12);
    assert(f[13].0 == "videodatarate"@);
    lemma_field_back(m, 13);
    assert(f[14].0 == "width"@);
    lemma_field_back(m, 14);
    assert(f[15].0 == "audioTrackIdInfoMap"@);
    lemma_field_back(m, 15);
    assert(f[16].0 == "videoTrackIdInfoMap"@);
    lemma_field_back(m, 16);
}

proof fn lemma_extra_back(m: OnMetaView)
    requires
        extra_apart(m),
    ensures
        others(written(m)) == m.extra,
{
    reveal(written);
    let f = m.fields();
    assert forall|i: int| 0 <= i < f.len() implies well_known((#[trigger] f[i]).0) by {}
    lemma_no_others(f);
    lemma_others_append(present(f), m.extra);
    assert(Seq::<(Seq<char>, Amf0)>::empty() + m.extra =~= m.extra);
}

/// Metadata reads back as it was written, with every property outside the
/// fields in its place. Left out is metadata with a well-known name among the
/// other properties: that property would be read into its field.
pub proof fn law_metadata_round_trip(m: OnMetaView)
    requires
        extra_apart(m),
    ensures
        metadata_of(m.value()) == Ok::<OnMetaView, Fault>(m),
{
    lemma_audio_back(m);
    lemma_file_back(m);
    lemma_picture_back(m);
    lemma_video_back(m);
    lemma_extra_back(m);
    assert(m.value() == Amf0::EcmaArray(written(m))) by {
        reveal(written);
    }
}

/// Whatever was read can be written and read again without loss.
pub proof fn law_read_metadata_round_trip(v: Amf0)
    requires
        metadata_of(v) is Ok,
    ensures
        metadata_of(metadata_of(v)->Ok_0.value()) == metadata_of(v),
{
    match v {
        Amf0::EcmaArray(p) => {
            lemma_others_apart(p);
        },
        Amf0::Object(p) => {
            lemma_others_apart(p);
        },
        _ => {},
    }
    law_metadata_round_trip(metadata_of(v)->Ok_0);
}

/// A FourCC that is sent as a number, its first character highest, is found.
pub proof fn law_fourcc_as_number(v: u32)
    requires
        forall|i: int| 0 <= i < 4 ==> 0x20 <= #[trigger] be32_bytes(v)[i] <= 0x7e,
    ensures
        fourcc_in(Double { bits: nat_bits(v as nat) }) == Some(be32_bytes(v)),
{
    lemma_nat_bits(v as nat);
}

/// A legacy codec number is not taken for a FourCC.
pub proof fn law_legacy_codec_is_no_fourcc(v: u8)
    ensures
        fourcc_in(Double { bits: nat_bits(v as nat) }) is None,
{
    lemma_nat_bits(v as nat);
    assert(be32_bytes(v as u32)[0] == 0);
}

/// Whether `v` is what properties say under `key`: the value of the last one of
/// that name, and nothing where there is none.
pub open spec fn says(p: Seq<(Seq<char>, Amf0)>, key: Seq<char>, v: Option<Amf0>) -> bool {
    match v {
        Some(x) => exists|i: int|
            0 <= i < p.len() && (#[trigger] p[i]) == (key, x) && (forall|j: int|
                i < j < p.len() ==> (#[trigger] p[j]).0 != key),
        None => forall|j: int| 0 <= j < p.len() ==> (#[trigger] p[j]).0 != key,
    }
}

/// What the properties of an ECMA array say.
pub open spec fn what_is_said(p: Seq<(Seq<char>, Amf0)>) -> OnMetaView {
    metadata_of(Amf0::EcmaArray(p))->Ok_0
}

proof fn lemma_says(p: Seq<(Seq<char>, Amf0)>, key: Seq<char>, v: Option<Amf0>)
    ensures
        says(p, key, v) ==> last_named(p, p.len() as int, key) == v,
{
    if says(p, key, v) {
        if let Some(x) = v {
            let i = choose|i: int|
                0 <= i < p.len() && (#[trigger] p[i]) == (key, x) && (forall|j: int|
                    i < j < p.len() ==> (#[trigger] p[j]).0 != key);
            law_last_of_a_name_counts(p, i, key);
        } else {
            law_last_of_a_name_counts(p, 0, key);
        }
    }
}

/// An object says what an ECMA array with the same properties says, and both say
/// something; no other value does.
pub proof fn law_object_says_what_an_array_says(p: Seq<(Seq<char>, Amf0)>, v: Amf0)
    ensures
        metadata_of(Amf0::Object(p)) == metadata_of(Amf0::EcmaArray(p)),
        metadata_of(v) is Ok <==> (v is Object || v is EcmaArray),
        metadata_of(v) is Err ==> metadata_of(v) == Err::<OnMetaView, Fault>(
            Fault::Other("onMetaData: argument must be an ECMA array or Object"@),
        ),
{
}

/// Each field on sound is the last property of its own name, where that has the
/// type of the field.
pub proof fn law_audio_is_said_under_its_own_names(p: Seq<(Seq<char>, Amf0)>, v: Option<Amf0>)
    ensures
        says(p, "audiocodecid"@, v) ==> what_is_said(p).audiocodecid == (match v {
            Some(Amf0::Number(bits)) => Some(Double { bits }),
            _ => None,
        }),
        says(p, "audiodatarate"@, v) ==> what_is_said(p).audiodatarate == (match v {
            Some(Amf0::Number(bits)) => Some(Double { bits }),
            _ => None,
        }),
        says(p, "audiodelay"@, v) ==> what_is_said(p).audiodelay == (match v {
            Some(Amf0::Number(bits)) => Some(Double { bits }),
            _ => None,
        }),
        says(p, "audiosamplerate"@, v) ==> what_is_said(p).audiosamplerate == (match v {
            Some(Amf0::Number(bits)) => Some(Double { bits }),
            _ => None,
        }),
        says(p, "audiosamplesize"@, v) ==> what_is_said(p).audiosamplesize == (match v {
            Some(Amf0::Number(bits)) => Some(Double { bits }),
            _ => None,
        }),
        says(p, "stereo"@, v) ==> what_is_said(p).stereo == (match v {
            Some(Amf0::Boolean(b)) => Some(b),
            _ => None,
        }),
        says(p, "audioTrackIdInfoMap"@, v) ==> what_is_said(p).audio_track_id_info_map == v,
{
    lemma_says(p, "audiocodecid"@, v);
    lemma_says(p, "audiodatarate"@, v);
    lemma_says(p, "audiodelay"@, v);
    lemma_says(p, "audiosamplerate"@, v);
    lemma_says(p, "audiosamplesize"@, v);
    lemma_says(p, "stereo"@, v);
    lemma_says(p, "audioTrackIdInfoMap"@, v);
}

/// Each field on pictures is the last property of its own name, where that has the
/// type of the field.
pub proof fn law_video_is_said_under_its_own_names(p: Seq<(Seq<char>, Amf0)>, v: Option<Amf0>)
    ensures
        says(p, "framerate"@, v) ==> what_is_said(p).framerate == (match v {
            Some(Amf0::Number(bits)) => Some(Double { bits }),
            _ => None,
        }),
        says(p, "height"@, v) ==> what_is_said(p).height == (match v {
            Some(Amf0::Number(bits)) => Some(Double { bits }),
            _ => None,
        }),
        says(p, "videocodecid"@, v) ==> what_is_said(p).videocodecid == (match v {
            Some(Amf0::Number(bits)) => Some(Double { bits }),
            _ => None,
        }),
        says(p, "videodatarate"@, v) ==> what_is_said(p).videodatarate == (match v {
            Some(Amf0::Number(bits)) => Some(Double { bits }),
            _ => None,
        }),
        says(p, "width"@, v) ==> what_is_said(p).width == (match v {
            Some(Amf0::Number(bits)) => Some(Double { bits }),
            _ => None,
        }),
        says(p, "videoTrackIdInfoMap"@, v) ==> what_is_said(p).video_track_id_info_map == v,
{
    lemma_says(p, "framerate"@, v);
    lemma_says(p, "height"@, v);
    lemma_says(p, "videocodecid"@, v);
    lemma_says(p, "videodatarate"@, v);
    lemma_says(p, "width"@, v);
    lemma_says(p, "videoTrackIdInfoMap"@, v);
}

/// Each field on the file is the last property of its own name, where that has the
/// type of the field.
pub proof fn law_the_file_is_said_under_its_own_names(p: Seq<(Seq<char>, Amf0)>, v: Option<Amf0>)
    ensures
        says(p, "duration"@, v) ==> what_is_said(p).duration == (match v {
            Some(Amf0::Number(bits)) => Some(Double { bits }),
            _ => None,
        }),
        says(p, "filesize"@, v) ==> what_is_said(p).filesize == (match v {
            Some(Amf0::Number(bits)) => Some(Double { bits }),
            _ => None,
        }),
        says(p, "canSeekToEnd"@, v) ==> what_is_said(p).can_seek_to_end == (match v {
            Some(Amf0::Boolean(b)) => Some(b),
            _ => None,
        }),
        says(p, "creationdate"@, v) ==> what_is_said(p).creationdate == (match v {
            Some(Amf0::String(s)) => Some(s),
            _ => None,
        }),
{
    lemma_says(p, "duration"@, v);
    lemma_says(p, "filesize"@, v);
    lemma_says(p, "canSeekToEnd"@, v);
    lemma_says(p, "creationdate"@, v);
}

/// A property without a field is kept behind those before it, under its name and
/// with its value, and one with a field is not.
pub proof fn law_other_properties_are_kept(p: Seq<(Seq<char>, Amf0)>, x: (Seq<char>, Amf0))
    ensures
        what_is_said(p.push(x)).extra == (if x.0 != "audiocodecid"@ && x.0 != "audiodatarate"@ && x.0 != "audiodelay"@ && x.0 != "audiosamplerate"@ && x.0 != "audiosamplesize"@ && x.0 != "duration"@ && x.0 != "filesize"@ && x.0 != "framerate"@ && x.0 != "height"@ && x.0 != "videocodecid"@ && x.0 != "videodatarate"@ && x.0 != "width"@ && x.0 != "canSeekToEnd"@ && x.0 != "stereo"@ && x.0 != "creationdate"@ && x.0 != "audioTrackIdInfoMap"@ && x.0 != "videoTrackIdInfoMap"@ {
            what_is_said(p).extra.push(x)
        } else {
            what_is_said(p).extra
        }),
        what_is_said(Seq::empty()).extra.len() == 0,
{
    assert(p.push(x).drop_last() =~= p);
}

/// An object and an ECMA array are read alike, as is said here of their properties, and
/// anything else is refused.
pub proof fn law_metadata_is_read(
    value: &Amf0Value,
    p: Seq<(Seq<char>, Amf0)>,
    r: Result<OnMetaData>,
)
    requires
        call_ensures(OnMetaData::from_amf0, (value,), r),
    ensures
        value@ == Amf0::Object(p) || value@ == Amf0::EcmaArray(p) ==> (r matches Ok(m) && m@
            == what_is_said(p)),
        !(value@ is Object) && !(value@ is EcmaArray) ==> (r matches Err(e) && e@ == Fault::Other(
            "onMetaData: argument must be an ECMA array or Object"@,
        )),
{
}

/// Metadata is written as an ECMA array: the fields that have a value, in this order, and
/// then the other properties.
pub proof fn law_metadata_is_written_in_order(m: &OnMetaData, v: Amf0Value)
    requires
        call_ensures(OnMetaData::to_amf0, (m,), v),
    ensures
        v@ == Amf0::EcmaArray(present(m@.fields()) + m@.extra),
        ({
            let names = Seq::new(17, |i: int| m@.fields()[i].0);
            &&& m@.fields().len() == 17
            &&& names[0] == "audiocodecid"@ && names[1] == "audiodatarate"@ && names[2]
                == "audiodelay"@ && names[3] == "audiosamplerate"@ && names[4]
                == "audiosamplesize"@
            &&& names[5] == "canSeekToEnd"@ && names[6] == "creationdate"@ && names[7]
                == "duration"@ && names[8] == "filesize"@ && names[9] == "framerate"@
            &&& names[10] == "height"@ && names[11] == "stereo"@ && names[12] == "videocodecid"@
                && names[13] == "videodatarate"@ && names[14] == "width"@
            &&& names[15] == "audioTrackIdInfoMap"@ && names[16] == "videoTrackIdInfoMap"@
        }),
{
}

/// A codec number is no FourCC where one of its four bytes is not printable, where it is
/// not whole, and where it does not fit 32 bits.
pub proof fn law_numbers_that_are_no_fourcc(v: u32, i: int, n: nat, bits: u64)
    ensures
        0 <= i < 4 && !(0x20 <= be32_bytes(v)[i] <= 0x7e) ==> fourcc_in(
            Double { bits: nat_bits(v as nat) },
        ) is None,
        n <= u32::MAX && nat_bits(n) < bits < nat_bits(n + 1) ==> fourcc_in(Double { bits }) is None,
        bits > 0x8000_0000_0000_0000 ==> fourcc_in(Double { bits }) is None,
        u32::MAX < n < 0x20_0000_0000_0000 ==> fourcc_in(Double { bits: nat_bits(n) }) is None,
{
    lemma_nat_bits(v as nat);
    if n <= u32::MAX && nat_bits(n) < bits < nat_bits(n + 1) {
        crate::number::law_doubles_are_cut_towards_zero(n, bits);
    }
    crate::number::law_kinds_of_doubles(bits, 0);
    if n < 0x20_0000_0000_0000 {
        lemma_nat_bits(n);
    }
}

/// The FourCC of the audio is read from the audio codec number, and that of the video from
/// the video codec number.
pub proof fn law_codec_numbers_are_kept_apart(
    m: &OnMetaData,
    a: Option<[u8; 4]>,
    v: Option<[u8; 4]>,
)
    requires
        call_ensures(OnMetaData::audio_fourcc, (m,), a),
        call_ensures(OnMetaData::video_fourcc, (m,), v),
    ensures
        m.audiocodecid is None ==> a is None,
        m.audiocodecid is Some ==> fourcc_view(a) == fourcc_in(m.audiocodecid->0),
        m.videocodecid is None ==> v is None,
        m.videocodecid is Some ==> fourcc_view(v) == fourcc_in(m.videocodecid->0),
{
}

} // verus!
