//! What the two sides of a connection say they can do.
//!
//! The `connect` command and its reply may hold a list of FourCCs, two maps from
//! FourCC to capability bits, a field of further capability bits, and the object
//! encoding. All of them are optional, and what is malformed is passed over.

use vstd::prelude::*;
use crate::amf::Amf0Value;
#[allow(unused_imports)]
use crate::amf::{lemma_container_views, pair_views, Amf0};
use crate::amf_fields::FieldList;
#[allow(unused_imports)]
use crate::amf_fields::{
    last_named, lemma_last_append, lemma_last_present, lemma_last_push, lemma_marked, mark, present,
    Fields,
};
#[allow(unused_imports)]
use crate::model::views;
use crate::number::Double;
#[allow(unused_imports)]
use crate::number::{at_least_zero, is_finite, is_whole, lemma_nat_bits, nat_bits, whole};
use crate::text::{lossy_text, same_text};
#[allow(unused_imports)]
use crate::text::lossy;

verus! {

/// The codec can be decoded.
pub const FOURCC_INFO_CAN_DECODE: u32 = 0x01;

/// The codec can be encoded.
pub const FOURCC_INFO_CAN_ENCODE: u32 = 0x02;

/// The codec can be passed on as it is.
pub const FOURCC_INFO_CAN_FORWARD: u32 = 0x04;

/// Requests to reconnect are honoured.
pub const CAPS_EX_RECONNECT: u32 = 0x01;

/// Messages with several tracks are understood.
pub const CAPS_EX_MULTITRACK: u32 = 0x02;

/// Packet type modifiers are understood.
pub const CAPS_EX_MOD_EX: u32 = 0x04;

/// Nanosecond offsets are applied.
pub const CAPS_EX_TIMESTAMP_NANO_OFFSET: u32 = 0x08;

/// AMF0 only.
pub const OBJECT_ENCODING_AMF0: u8 = 0;

/// AMF0 with values that switch to AMF3.
pub const OBJECT_ENCODING_AMF3: u8 = 3;

/// The key that stands for every codec.
pub const FOURCC_WILDCARD: &'static str = "*";

// ---------------------------------------------------------------------------
// Capability bits by codec
// ---------------------------------------------------------------------------

/// Entries by key, in the order in which keys were first inserted.
pub type Masks = Seq<(Seq<char>, u32)>;

/// The mask of `key`, from the `i`th entry on.
pub open spec fn mask_of(s: Masks, i: int, key: Seq<char>) -> Option<u32>
    decreases s.len() - i,
{
    if i >= s.len() {
        None
    } else if s[i].0 == key {
        Some(s[i].1)
    } else {
        mask_of(s, i + 1, key)
    }
}

/// Where `key` stands, from the `i`th entry on.
pub open spec fn place_of(s: Masks, i: int, key: Seq<char>) -> Option<int>
    decreases s.len() - i,
{
    if i >= s.len() {
        None
    } else if s[i].0 == key {
        Some(i)
    } else {
        place_of(s, i + 1, key)
    }
}

/// With the mask of `key` set: in its place if it has one, else at the end.
pub open spec fn inserted(s: Masks, key: Seq<char>, mask: u32) -> Masks {
    match place_of(s, 0, key) {
        Some(i) => s.update(i, (key, mask)),
        None => s.push((key, mask)),
    }
}

/// Whether no key occurs twice.
pub open spec fn keys_distinct(s: Masks) -> bool {
    forall|i: int, j: int| 0 <= i < j < s.len() ==> (#[trigger] s[i]).0 != (#[trigger] s[j]).0
}

/// A number that is finite and not negative, without what is behind the point,
/// and at most the largest 32-bit value.
pub open spec fn mask_in(v: Amf0) -> Option<u32> {
    match v {
        Amf0::Number(bits) => if is_finite(bits) && at_least_zero(bits) {
            Some(
                if whole(bits) > u32::MAX {
                    u32::MAX
                } else {
                    whole(bits) as u32
                },
            )
        } else {
            None
        },
        _ => None,
    }
}

/// The entries that named values make. What holds no mask is passed over.
pub open spec fn masks_in(p: Seq<(Seq<char>, Amf0)>) -> Masks
    decreases p.len(),
{
    if p.len() == 0 {
        Seq::empty()
    } else {
        match mask_in(p.last().1) {
            Some(m) => inserted(masks_in(p.drop_last()), p.last().0, m),
            None => masks_in(p.drop_last()),
        }
    }
}

/// The entries that an object or ECMA array makes.
pub open spec fn map_in(v: Amf0) -> Masks {
    match v {
        Amf0::Object(p) => masks_in(p),
        Amf0::EcmaArray(p) => masks_in(p),
        _ => Seq::empty(),
    }
}

/// Entries as named numbers.
pub open spec fn mask_pairs(s: Masks) -> Seq<(Seq<char>, Amf0)> {
    Seq::new(s.len(), |i: int| (s[i].0, Amf0::Number(nat_bits(s[i].1 as nat))))
}

/// Entries, by their views.
pub open spec fn entry_views(s: Seq<(String, u32)>) -> Masks {
    Seq::new(s.len(), |i: int| (s[i].0@, s[i].1))
}

/// Capability bits by FourCC.
#[derive(Debug, PartialEq, Eq)]
pub struct FourCcInfoMap {
    entries: Vec<(String, u32)>,
}

impl View for FourCcInfoMap {
    type V = Masks;

    closed spec fn view(&self) -> Masks {
        entry_views(self.entries@)
    }
}

fn number_mask(v: &Amf0Value) -> (r: Option<u32>)
    ensures
        r == mask_in(v@),
{
    match v {
        Amf0Value::Number(d) => if d.finite_at_least_zero() {
            Some(d.whole_u32().0)
        } else {
            None
        },
        _ => None,
    }
}

/// No entries.
impl Default for FourCcInfoMap {
    fn default() -> (m: FourCcInfoMap)
        ensures
            m@ == Masks::empty(),
    {
        FourCcInfoMap::new()
    }
}

impl Clone for FourCcInfoMap {
    fn clone(&self) -> (r: FourCcInfoMap)
        ensures
            r@ == self@,
    {
        let mut entries: Vec<(String, u32)> = Vec::new();
        let mut i: usize = 0;
        while i < self.entries.len()
            invariant
                i <= self.entries@.len(),
                entries@.len() == i,
                forall|k: int|
                    0 <= k < i ==> (#[trigger] entries@[k]).0@ == self.entries@[k].0@
                        && entries@[k].1 == self.entries@[k].1,
            decreases self.entries@.len() - i,
        {
            entries.push((self.entries[i].0.clone(), self.entries[i].1));
            i = i + 1;
        }
        assert(entry_views(entries@) =~= entry_views(self.entries@));
        FourCcInfoMap { entries }
    }
}

impl FourCcInfoMap {
    /// Whether no key occurs twice.
    pub open spec fn wf(&self) -> bool {
        keys_distinct(self@)
    }

    /// No entries.
    pub fn new() -> (m: FourCcInfoMap)
        ensures
            m.wf(),
            m@ == Masks::empty(),
    {
        let m = FourCcInfoMap { entries: Vec::new() };
        assert(m@ =~= Seq::empty());
        m
    }

    fn find(&self, key: &str) -> (r: Option<usize>)
        ensures
            match r {
                Some(i) => place_of(self@, 0, key@) == Some(i as int) && i < self.entries@.len(),
                None => place_of(self@, 0, key@) is None,
            },
    {
        let mut i: usize = 0;
        while i < self.entries.len()
            invariant
                i <= self.entries@.len(),
                place_of(self@, 0, key@) == place_of(self@, i as int, key@),
            decreases self.entries@.len() - i,
        {
            if same_text(self.entries[i].0.as_str(), key) {
                return Some(i);
            }
            i = i + 1;
        }
        None
    }

    /// Set the mask of `key`: in its place if it has one, else at the end.
    pub fn insert(&mut self, key: &str, mask: u32) -> (r: &mut FourCcInfoMap)
        ensures
            r@ == inserted(old(self)@, key@, mask),
            old(self).wf() ==> r.wf(),
            *final(self) == *final(r),
    {
        let ghost was = self@;
        match self.find(key) {
            Some(i) => {
                let key = key.to_owned();
                self.entries.set(i, (key, mask));
                assert(self@ =~= was.update(i as int, (key@, mask)));
            },
            None => {
                self.entries.push((key.to_owned(), mask));
                assert(self@ =~= was.push((key@, mask)));
            },
        }
        proof {
            if keys_distinct(was) {
                law_insert_keeps_keys_distinct(was, key@, mask);
            }
        }
        self
    }

    /// Set the mask of a FourCC, read as text.
    pub fn insert_fourcc(&mut self, fourcc: [u8; 4], mask: u32) -> (r: &mut FourCcInfoMap)
        ensures
            r@ == inserted(old(self)@, lossy(fourcc@), mask),
            old(self).wf() ==> r.wf(),
            *final(self) == *final(r),
    {
        let s = lossy_text(fourcc.as_slice());
        self.insert(s.as_str(), mask)
    }

    /// The mask of `key`.
    pub fn get(&self, key: &str) -> (r: Option<u32>)
        ensures
            r == mask_of(self@, 0, key@),
    {
        let mut i: usize = 0;
        while i < self.entries.len()
            invariant
                i <= self.entries@.len(),
                mask_of(self@, 0, key@) == mask_of(self@, i as int, key@),
            decreases self.entries@.len() - i,
        {
            if same_text(self.entries[i].0.as_str(), key) {
                return Some(self.entries[i].1);
            }
            i = i + 1;
        }
        None
    }

    /// The mask that stands for every codec.
    pub fn wildcard(&self) -> (r: Option<u32>)
        ensures
            r == mask_of(self@, 0, "*"@),
    {
        self.get("*")
    }

    /// The bits that hold for `key`: its own and those that stand for every codec.
    pub fn effective_mask(&self, key: &str) -> (m: u32)
        ensures
            m == effective(self@, key@),
    {
        let direct: u32 = match self.get(key) {
            Some(m) => m,
            None => 0,
        };
        let wild: u32 = match self.wildcard() {
            Some(m) => m,
            None => 0,
        };
        direct | wild
    }

    /// The number of entries.
    pub fn len(&self) -> (n: usize)
        ensures
            n == self@.len(),
    {
        self.entries.len()
    }

    /// Whether there are no entries.
    pub fn is_empty(&self) -> (b: bool)
        ensures
            b == (self@.len() == 0),
    {
        self.entries.len() == 0
    }

    /// The entries, in order.
    pub fn iter(&self) -> (r: Vec<(&str, u32)>)
        ensures
            r@.len() == self@.len(),
            forall|i: int|
                0 <= i < r@.len() ==> (#[trigger] r@[i]).0@ == self@[i].0 && r@[i].1 == self@[i].1,
    {
        let mut r: Vec<(&str, u32)> = Vec::new();
        let mut i: usize = 0;
        while i < self.entries.len()
            invariant
                i <= self.entries@.len(),
                self@.len() == self.entries@.len(),
                r@.len() == i,
                forall|k: int|
                    0 <= k < i ==> (#[trigger] r@[k]).0@ == self@[k].0 && r@[k].1 == self@[k].1,
            decreases self.entries@.len() - i,
        {
            r.push((self.entries[i].0.as_str(), self.entries[i].1));
            i = i + 1;
        }
        r
    }

    /// The AMF0 object.
    pub fn to_amf0(&self) -> (v: Amf0Value)
        ensures
            v@ == Amf0::Object(mask_pairs(self@)),
    {
        let mut out: Vec<(String, Amf0Value)> = Vec::new();
        let mut i: usize = 0;
        while i < self.entries.len()
            invariant
                i <= self.entries@.len(),
                self@.len() == self.entries@.len(),
                out@.len() == i,
                forall|k: int|
                    0 <= k < i ==> (#[trigger] out@[k]).0@ == self@[k].0 && out@[k].1@
                        == Amf0::Number(nat_bits(self@[k].1 as nat)),
            decreases self.entries@.len() - i,
        {
            out.push(
                (
                    self.entries[i].0.clone(),
                    Amf0Value::Number(Double::from_u32(self.entries[i].1)),
                ),
            );
            i = i + 1;
        }
        assert(pair_views(out@) =~= mask_pairs(self@));
        let v = Amf0Value::Object(out);
        proof {
            lemma_container_views(v);
        }
        v
    }

    /// The entries that an AMF0 value makes.
    pub fn from_amf0(v: &Amf0Value) -> (m: FourCcInfoMap)
        ensures
            m@ == map_in(v@),
            m.wf(),
    {
        proof {
            lemma_container_views(*v);
        }
        let pairs = match v {
            Amf0Value::Object(p) => p,
            Amf0Value::EcmaArray(p) => p,
            _ => {
                return FourCcInfoMap::new();
            },
        };
        let ghost all = pair_views(pairs@);
        let mut out = FourCcInfoMap::new();
        let mut i: usize = 0;
        assert(all.take(0) =~= Seq::empty());
        while i < pairs.len()
            invariant
                all == pair_views(pairs@),
                i <= pairs@.len(),
                out@ == masks_in(all.take(i as int)),
                out.wf(),
            decreases pairs@.len() - i,
        {
            proof {
                let more = all.take(i + 1);
                assert(more.drop_last() =~= all.take(i as int));
                assert(more.last() == all[i as int]);
            }
            match number_mask(&pairs[i].1) {
                Some(m) => {
                    out.insert(pairs[i].0.as_str(), m);
                },
                None => {},
            }
            i = i + 1;
        }
        assert(all.take(all.len() as int) =~= all);
        out
    }
}

/// The bits that hold for `key`.
pub open spec fn effective(s: Masks, key: Seq<char>) -> u32 {
    (match mask_of(s, 0, key) {
        Some(m) => m,
        None => 0u32,
    }) | (match mask_of(s, 0, "*"@) {
        Some(m) => m,
        None => 0u32,
    })
}

proof fn lemma_place(s: Masks, i: int, key: Seq<char>)
    requires
        0 <= i,
    ensures
        match place_of(s, i, key) {
            Some(j) => i <= j < s.len() && s[j].0 == key,
            None => forall|j: int| i <= j < s.len() ==> (#[trigger] s[j]).0 != key,
        },
    decreases s.len() - i,
{
    if i < s.len() && s[i].0 != key {
        lemma_place(s, i + 1, key);
    }
}

proof fn lemma_mask_at(s: Masks, i: int, j: int)
    requires
        keys_distinct(s),
        0 <= i <= j < s.len(),
    ensures
        mask_of(s, i, s[j].0) == Some(s[j].1),
    decreases j - i,
{
    if i < j {
        lemma_mask_at(s, i + 1, j);
    }
}

proof fn lemma_mask_absent(s: Masks, i: int, key: Seq<char>)
    requires
        0 <= i,
        forall|j: int| i <= j < s.len() ==> (#[trigger] s[j]).0 != key,
    ensures
        mask_of(s, i, key) is None,
    decreases s.len() - i,
{
    if i < s.len() {
        lemma_mask_absent(s, i + 1, key);
    }
}

/// Inserting keeps every key single.
pub proof fn law_insert_keeps_keys_distinct(s: Masks, key: Seq<char>, mask: u32)
    requires
        keys_distinct(s),
    ensures
        keys_distinct(inserted(s, key, mask)),
{
    lemma_place(s, 0, key);
}

/// What was inserted is found, and no other key is touched: entries keep their
/// order, and a key that was there keeps its place.
pub proof fn law_insert_then_get(s: Masks, key: Seq<char>, mask: u32, asked: Seq<char>)
    requires
        keys_distinct(s),
    ensures
        mask_of(inserted(s, key, mask), 0, asked) == if asked == key {
            Some(mask)
        } else {
            mask_of(s, 0, asked)
        },
        s.len() <= inserted(s, key, mask).len(),
        forall|i: int|
            0 <= i < s.len() ==> (#[trigger] inserted(s, key, mask)[i]).0 == s[i].0,
{
    let t = inserted(s, key, mask);
    law_insert_keeps_keys_distinct(s, key, mask);
    lemma_place(s, 0, key);
    lemma_place(s, 0, asked);
    if asked == key {
        match place_of(s, 0, key) {
            Some(i) => lemma_mask_at(t, 0, i),
            None => lemma_mask_at(t, 0, s.len() as int),
        }
    } else {
        match place_of(s, 0, asked) {
            Some(i) => {
                assert(t[i] == s[i]);
                lemma_mask_at(s, 0, i);
                lemma_mask_at(t, 0, i);
            },
            None => {
                assert forall|j: int| 0 <= j < t.len() implies (#[trigger] t[j]).0 != asked by {
                    if j < s.len() {
                        assert(s[j].0 != asked);
                    }
                }
                lemma_mask_absent(s, 0, asked);
                lemma_mask_absent(t, 0, asked);
            },
        }
    }
}

/// A bit that stands for every codec holds for each of them, and a codec's own
/// bits are never lost to it.
pub proof fn law_wildcard_adds_bits(s: Masks, key: Seq<char>, bit: u32)
    ensures
        mask_of(s, 0, "*"@) matches Some(w) && w & bit == bit ==> effective(s, key) & bit == bit,
        mask_of(s, 0, key) matches Some(m) && m & bit == bit ==> effective(s, key) & bit == bit,
        mask_of(s, 0, key) is None && mask_of(s, 0, "*"@) is None ==> effective(s, key) == 0,
{
    let a = match mask_of(s, 0, key) {
        Some(m) => m,
        None => 0u32,
    };
    let b = match mask_of(s, 0, "*"@) {
        Some(m) => m,
        None => 0u32,
    };
    assert(b & bit == bit ==> (a | b) & bit == bit) by (bit_vector);
    assert(a & bit == bit ==> (a | b) & bit == bit) by (bit_vector);
    assert(0u32 | 0u32 == 0u32) by (bit_vector);
}

proof fn lemma_number_mask(m: u32)
    ensures
        mask_in(Amf0::Number(nat_bits(m as nat))) == Some(m),
{
    lemma_nat_bits(m as nat);
}

/// A map reads back as it was written.
pub proof fn law_map_round_trip(s: Masks)
    requires
        keys_distinct(s),
    ensures
        map_in(Amf0::Object(mask_pairs(s))) == s,
    decreases s.len(),
{
    let p = mask_pairs(s);
    if s.len() == 0 {
        assert(s =~= Seq::empty());
    } else {
        let front = s.drop_last();
        assert(p.drop_last() =~= mask_pairs(front));
        law_map_round_trip(front);
        lemma_number_mask(s.last().1);
        lemma_place(front, 0, s.last().0);
        assert(front.push(s.last()) =~= s);
    }
}

// ---------------------------------------------------------------------------
// The whole block
// ---------------------------------------------------------------------------

/// What one side says it can do.
#[derive(Debug, PartialEq, Eq)]
pub struct ConnectCapabilities {
    /// The codecs, by FourCC.
    pub fourcc_list: Vec<String>,
    pub video_fourcc_info_map: FourCcInfoMap,
    pub audio_fourcc_info_map: FourCcInfoMap,
    /// Further capability bits.
    pub caps_ex: u32,
    pub object_encoding: Option<u8>,
}

/// The mathematical view of [`ConnectCapabilities`].
pub struct CapsView {
    pub fourcc_list: Seq<Seq<char>>,
    pub video: Masks,
    pub audio: Masks,
    pub caps_ex: u32,
    pub object_encoding: Option<u8>,
}

impl View for ConnectCapabilities {
    type V = CapsView;

    open spec fn view(&self) -> CapsView {
        CapsView {
            fourcc_list: views(self.fourcc_list@),
            video: self.video_fourcc_info_map@,
            audio: self.audio_fourcc_info_map@,
            caps_ex: self.caps_ex,
            object_encoding: self.object_encoding,
        }
    }
}

/// A number from 0 to 255, without what is behind the point.
pub open spec fn encoding_in(v: Amf0) -> Option<u8> {
    match v {
        Amf0::Number(bits) => if is_finite(bits) && at_least_zero(bits) && (whole(bits) < 255 || (
        whole(bits) == 255 && is_whole(bits))) {
            Some(whole(bits) as u8)
        } else {
            None
        },
        _ => None,
    }
}

/// The strings among values.
pub open spec fn strings_among(a: Seq<Amf0>) -> Seq<Seq<char>>
    decreases a.len(),
{
    if a.len() == 0 {
        Seq::empty()
    } else {
        match a.last() {
            Amf0::String(s) => strings_among(a.drop_last()).push(s),
            _ => strings_among(a.drop_last()),
        }
    }
}

/// The strings of a strict array.
pub open spec fn list_in(v: Amf0) -> Option<Seq<Seq<char>>> {
    match v {
        Amf0::StrictArray(a) => Some(strings_among(a)),
        _ => None,
    }
}

/// What `f` makes of the last of the first `n` values called `key` that it
/// accepts.
pub open spec fn last_good<T>(
    p: Seq<(Seq<char>, Amf0)>,
    n: int,
    key: Seq<char>,
    f: spec_fn(Amf0) -> Option<T>,
) -> Option<T>
    decreases n,
{
    if n <= 0 {
        None
    } else if p[n - 1].0 == key && f(p[n - 1].1) is Some {
        f(p[n - 1].1)
    } else {
        last_good(p, n - 1, key, f)
    }
}

/// What named values say. Malformed ones are passed over.
pub open spec fn caps_in(p: Seq<(Seq<char>, Amf0)>) -> CapsView {
    let n = p.len() as int;
    CapsView {
        fourcc_list: match last_good(p, n, "fourCcList"@, |v: Amf0| list_in(v)) {
            Some(l) => l,
            None => Seq::empty(),
        },
        video: match last_named(p, n, "videoFourCcInfoMap"@) {
            Some(v) => map_in(v),
            None => Seq::empty(),
        },
        audio: match last_named(p, n, "audioFourCcInfoMap"@) {
            Some(v) => map_in(v),
            None => Seq::empty(),
        },
        caps_ex: match last_good(p, n, "capsEx"@, |v: Amf0| mask_in(v)) {
            Some(m) => m,
            None => 0,
        },
        object_encoding: last_good(p, n, "objectEncoding"@, |v: Amf0| encoding_in(v)),
    }
}

/// What an AMF0 value says; only objects and ECMA arrays say anything.
pub open spec fn caps_of(v: Amf0) -> CapsView {
    match v {
        Amf0::Object(p) => caps_in(p),
        Amf0::EcmaArray(p) => caps_in(p),
        _ => CapsView::none(),
    }
}

/// Strings as values.
pub open spec fn string_values(l: Seq<Seq<char>>) -> Seq<Amf0> {
    Seq::new(l.len(), |i: int| Amf0::String(l[i]))
}

impl CapsView {
    /// Nothing said.
    pub open spec fn none() -> CapsView {
        CapsView {
            fourcc_list: Seq::empty(),
            video: Seq::empty(),
            audio: Seq::empty(),
            caps_ex: 0,
            object_encoding: None,
        }
    }

    /// The properties, each only where there is something to say.
    pub open spec fn fields(self) -> Fields {
        seq![
            (
                "objectEncoding"@,
                match self.object_encoding {
                    Some(e) => Some(Amf0::Number(nat_bits(e as nat))),
                    None => None,
                },
            ),
            (
                "fourCcList"@,
                if self.fourcc_list.len() == 0 {
                    None
                } else {
                    Some(Amf0::StrictArray(string_values(self.fourcc_list)))
                },
            ),
            (
                "videoFourCcInfoMap"@,
                if self.video.len() == 0 {
                    None
                } else {
                    Some(Amf0::Object(mask_pairs(self.video)))
                },
            ),
            (
                "audioFourCcInfoMap"@,
                if self.audio.len() == 0 {
                    None
                } else {
                    Some(Amf0::Object(mask_pairs(self.audio)))
                },
            ),
            (
                "capsEx"@,
                if self.caps_ex == 0 {
                    None
                } else {
                    Some(Amf0::Number(nat_bits(self.caps_ex as nat)))
                },
            ),
        ]
    }
}

fn number_encoding(v: &Amf0Value) -> (r: Option<u8>)
    ensures
        r == encoding_in(v@),
{
    match v {
        Amf0Value::Number(d) => {
            if !d.finite_at_least_zero() {
                return None;
            }
            let (n, exact) = d.whole_u32();
            if n < 255 || (n == 255 && exact) {
                Some(n as u8)
            } else {
                None
            }
        },
        _ => None,
    }
}

fn strings(a: &Vec<Amf0Value>) -> (out: Vec<String>)
    ensures
        views(out@) == strings_among(views(a@)),
{
    let ghost all = views(a@);
    let mut out: Vec<String> = Vec::new();
    let mut i: usize = 0;
    assert(all.take(0) =~= Seq::empty());
    assert(views(out@) =~= Seq::empty());
    while i < a.len()
        invariant
            all == views(a@),
            i <= a@.len(),
            views(out@) == strings_among(all.take(i as int)),
        decreases a@.len() - i,
    {
        let ghost was = views(out@);
        proof {
            let more = all.take(i + 1);
            assert(more.drop_last() =~= all.take(i as int));
            assert(more.last() == all[i as int]);
        }
        match &a[i] {
            Amf0Value::String(s) => {
                out.push(s.clone());
                assert(views(out@) =~= was.push(s@));
            },
            _ => {},
        }
        i = i + 1;
    }
    assert(all.take(all.len() as int) =~= all);
    out
}

fn values_from(l: &Vec<String>) -> (out: Vec<Amf0Value>)
    ensures
        views(out@) == string_values(views(l@)),
{
    let mut out: Vec<Amf0Value> = Vec::new();
    let mut i: usize = 0;
    while i < l.len()
        invariant
            i <= l@.len(),
            out@.len() == i,
            forall|k: int| 0 <= k < i ==> (#[trigger] out@[k])@ == Amf0::String(l@[k]@),
        decreases l@.len() - i,
    {
        out.push(Amf0Value::String(l[i].clone()));
        i = i + 1;
    }
    assert(views(out@) =~= string_values(views(l@)));
    out
}

/// Nothing said.
impl Default for ConnectCapabilities {
    fn default() -> (c: ConnectCapabilities)
        ensures
            c@ == CapsView::none(),
    {
        ConnectCapabilities::new()
    }
}

impl Clone for ConnectCapabilities {
    fn clone(&self) -> (r: ConnectCapabilities)
        ensures
            r@ == self@,
    {
        let mut fourcc_list: Vec<String> = Vec::new();
        let mut i: usize = 0;
        while i < self.fourcc_list.len()
            invariant
                i <= self.fourcc_list@.len(),
                fourcc_list@.len() == i,
                forall|k: int|
                    0 <= k < i ==> (#[trigger] fourcc_list@[k])@ == self.fourcc_list@[k]@,
            decreases self.fourcc_list@.len() - i,
        {
            fourcc_list.push(self.fourcc_list[i].clone());
            i = i + 1;
        }
        assert(views(fourcc_list@) =~= views(self.fourcc_list@));
        ConnectCapabilities {
            fourcc_list,
            video_fourcc_info_map: self.video_fourcc_info_map.clone(),
            audio_fourcc_info_map: self.audio_fourcc_info_map.clone(),
            caps_ex: self.caps_ex,
            object_encoding: self.object_encoding,
        }
    }
}

impl ConnectCapabilities {
    /// Nothing said.
    pub fn new() -> (c: ConnectCapabilities)
        ensures
            c@ == CapsView::none(),
    {
        let c = ConnectCapabilities {
            fourcc_list: Vec::new(),
            video_fourcc_info_map: FourCcInfoMap::new(),
            audio_fourcc_info_map: FourCcInfoMap::new(),
            caps_ex: 0,
            object_encoding: None,
        };
        assert(c@.fourcc_list =~= Seq::empty());
        c
    }

    /// Whether nothing is said.
    pub fn is_empty(&self) -> (b: bool)
        ensures
            b == (self@ == CapsView::none()),
    {
        let b = self.fourcc_list.len() == 0 && self.video_fourcc_info_map.is_empty()
            && self.audio_fourcc_info_map.is_empty() && self.caps_ex == 0
            && self.object_encoding.is_none();
        proof {
            if b {
                assert(self@.fourcc_list =~= Seq::empty());
                assert(self@.video =~= Seq::empty());
                assert(self@.audio =~= Seq::empty());
            } else {
                assert(views(self.fourcc_list@).len() == self.fourcc_list@.len());
                assert(CapsView::none().fourcc_list.len() == 0);
                assert(CapsView::none().video.len() == 0);
                assert(CapsView::none().audio.len() == 0);
            }
        }
        b
    }

    /// Whether the flag `mask` is set, or, where `mask` holds several, all of them.
    pub fn supports_caps_ex(&self, mask: u32) -> (b: bool)
        ensures
            b == (mask != 0 && self.caps_ex & mask == mask),
    {
        mask != 0 && self.caps_ex & mask == mask
    }

    /// Whether the list holds `key` or stands for every codec.
    pub fn has_fourcc(&self, key: &str) -> (b: bool)
        ensures
            b == exists|i: int|
                0 <= i < self@.fourcc_list.len() && (#[trigger] self@.fourcc_list[i] == key@
                    || self@.fourcc_list[i] == "*"@),
    {
        let mut i: usize = 0;
        while i < self.fourcc_list.len()
            invariant
                i <= self.fourcc_list@.len(),
                forall|k: int|
                    0 <= k < i ==> #[trigger] self@.fourcc_list[k] != key@
                        && self@.fourcc_list[k] != "*"@,
            decreases self.fourcc_list@.len() - i,
        {
            let s = self.fourcc_list[i].as_str();
            if same_text(s, key) || same_text(s, "*") {
                assert(self@.fourcc_list[i as int] == s@);
                return true;
            }
            assert(self@.fourcc_list[i as int] == s@);
            i = i + 1;
        }
        false
    }

    /// Append the properties for which there is something to say.
    pub fn encode_into(&self, pairs: &mut Vec<(String, Amf0Value)>)
        ensures
            pair_views(final(pairs)@) == pair_views(old(pairs)@) + present(self@.fields()),
    {
        let mut l = FieldList::new();
        match self.object_encoding {
            Some(e) => l.push("objectEncoding", Some(Amf0Value::Number(Double::from_u32(e as u32)))),
            None => l.push("objectEncoding", None),
        }
        if self.fourcc_list.len() == 0 {
            l.push("fourCcList", None);
        } else {
            let v = Amf0Value::StrictArray(values_from(&self.fourcc_list));
            proof {
                lemma_container_views(v);
            }
            l.push("fourCcList", Some(v));
        }
        if self.video_fourcc_info_map.is_empty() {
            l.push("videoFourCcInfoMap", None);
        } else {
            l.push("videoFourCcInfoMap", Some(self.video_fourcc_info_map.to_amf0()));
        }
        if self.audio_fourcc_info_map.is_empty() {
            l.push("audioFourCcInfoMap", None);
        } else {
            l.push("audioFourCcInfoMap", Some(self.audio_fourcc_info_map.to_amf0()));
        }
        if self.caps_ex == 0 {
            l.push("capsEx", None);
        } else {
            l.push("capsEx", Some(Amf0Value::Number(Double::from_u32(self.caps_ex))));
        }
        assert(l@ =~= self@.fields());
        let mut new = l.into_pairs();
        let ghost was = pair_views(pairs@);
        let ghost added = pair_views(new@);
        pairs.append(&mut new);
        assert(pair_views(pairs@) =~= was + added);
    }

    fn set(&mut self, k: &str, v: &Amf0Value)
        ensures
            final(self)@ == stepped(old(self)@, k@, v@),
    {
        proof {
            lemma_container_views(*v);
        }
        if same_text(k, "objectEncoding") {
            match number_encoding(v) {
                Some(e) => {
                    self.object_encoding = Some(e);
                },
                None => {},
            }
        } else if same_text(k, "fourCcList") {
            match v {
                Amf0Value::StrictArray(a) => {
                    self.fourcc_list = strings(a);
                },
                _ => {},
            }
        } else if same_text(k, "videoFourCcInfoMap") {
            self.video_fourcc_info_map = FourCcInfoMap::from_amf0(v);
        } else if same_text(k, "audioFourCcInfoMap") {
            self.audio_fourcc_info_map = FourCcInfoMap::from_amf0(v);
        } else if same_text(k, "capsEx") {
            match number_mask(v) {
                Some(m) => {
                    self.caps_ex = m;
                },
                None => {},
            }
        }
    }

    /// What an AMF0 value says.
    pub fn from_amf0(v: &Amf0Value) -> (c: ConnectCapabilities)
        ensures
            c@ == caps_of(v@),
    {
        proof {
            lemma_container_views(*v);
        }
        let pairs = match v {
            Amf0Value::Object(p) => p,
            Amf0Value::EcmaArray(p) => p,
            _ => {
                return ConnectCapabilities::new();
            },
        };
        let ghost all = pair_views(pairs@);
        let mut c = ConnectCapabilities::new();
        let mut i: usize = 0;
        assert(all.take(0) =~= Seq::empty());
        while i < pairs.len()
            invariant
                all == pair_views(pairs@),
                i <= pairs@.len(),
                c@ == caps_in(all.take(i as int)),
            decreases pairs@.len() - i,
        {
            c.set(pairs[i].0.as_str(), &pairs[i].1);
            proof {
                lemma_step(all.take(i as int), all[i as int]);
                assert(all.take(i + 1) =~= all.take(i as int).push(all[i as int]));
            }
            i = i + 1;
        }
        assert(all.take(all.len() as int) =~= all);
        c
    }
}

/// What one more property changes.
spec fn stepped(c: CapsView, k: Seq<char>, v: Amf0) -> CapsView {
    if k == "objectEncoding"@ {
        match encoding_in(v) {
            Some(e) => CapsView { object_encoding: Some(e), ..c },
            None => c,
        }
    } else if k == "fourCcList"@ {
        match list_in(v) {
            Some(l) => CapsView { fourcc_list: l, ..c },
            None => c,
        }
    } else if k == "videoFourCcInfoMap"@ {
        CapsView { video: map_in(v), ..c }
    } else if k == "audioFourCcInfoMap"@ {
        CapsView { audio: map_in(v), ..c }
    } else if k == "capsEx"@ {
        match mask_in(v) {
            Some(m) => CapsView { caps_ex: m, ..c },
            None => c,
        }
    } else {
        c
    }
}

proof fn lemma_good_same<T>(
    p: Seq<(Seq<char>, Amf0)>,
    q: Seq<(Seq<char>, Amf0)>,
    n: int,
    key: Seq<char>,
    f: spec_fn(Amf0) -> Option<T>,
)
    requires
        n <= p.len(),
        n <= q.len(),
        forall|i: int| 0 <= i < n ==> p[i] == q[i],
    ensures
        last_good(p, n, key, f) == last_good(q, n, key, f),
    decreases n,
{
    if n > 0 {
        lemma_good_same(p, q, n - 1, key, f);
    }
}

proof fn lemma_good_push<T>(
    p: Seq<(Seq<char>, Amf0)>,
    x: (Seq<char>, Amf0),
    key: Seq<char>,
    f: spec_fn(Amf0) -> Option<T>,
)
    ensures
        last_good(p.push(x), p.len() + 1int, key, f) == if x.0 == key && f(x.1) is Some {
            f(x.1)
        } else {
            last_good(p, p.len() as int, key, f)
        },
{
    lemma_good_same(p, p.push(x), p.len() as int, key, f);
}

/// Where the last value of a name is accepted, it is the last accepted one.
proof fn lemma_good_last<T>(
    p: Seq<(Seq<char>, Amf0)>,
    n: int,
    key: Seq<char>,
    f: spec_fn(Amf0) -> Option<T>,
)
    ensures
        match last_named(p, n, key) {
            Some(v) => f(v) is Some ==> last_good(p, n, key, f) == f(v),
            None => last_good(p, n, key, f) is None,
        },
    decreases n,
{
    if n > 0 {
        lemma_good_last(p, n - 1, key, f);
    }
}

proof fn lemma_marks()
    ensures
        mark("objectEncoding"@) != mark("fourCcList"@),
        mark("objectEncoding"@) != mark("videoFourCcInfoMap"@),
        mark("objectEncoding"@) != mark("audioFourCcInfoMap"@),
        mark("objectEncoding"@) != mark("capsEx"@),
        mark("fourCcList"@) != mark("videoFourCcInfoMap"@),
        mark("fourCcList"@) != mark("audioFourCcInfoMap"@),
        mark("fourCcList"@) != mark("capsEx"@),
        mark("videoFourCcInfoMap"@) != mark("audioFourCcInfoMap"@),
        mark("videoFourCcInfoMap"@) != mark("capsEx"@),
        mark("audioFourCcInfoMap"@) != mark("capsEx"@),
{
    reveal_strlit("objectEncoding");
    reveal_strlit("fourCcList");
    reveal_strlit("videoFourCcInfoMap");
    reveal_strlit("audioFourCcInfoMap");
    reveal_strlit("capsEx");
}

proof fn lemma_step(p: Seq<(Seq<char>, Amf0)>, x: (Seq<char>, Amf0))
    ensures
        stepped(caps_in(p), x.0, x.1) == caps_in(p.push(x)),
{
    lemma_marks();
    lemma_good_push(p, x, "objectEncoding"@, |v: Amf0| encoding_in(v));
    lemma_good_push(p, x, "fourCcList"@, |v: Amf0| list_in(v));
    lemma_last_push(p, x, "videoFourCcInfoMap"@);
    lemma_last_push(p, x, "audioFourCcInfoMap"@);
    lemma_good_push(p, x, "capsEx"@, |v: Amf0| mask_in(v));
}

proof fn lemma_strings_back(l: Seq<Seq<char>>)
    ensures
        strings_among(string_values(l)) == l,
    decreases l.len(),
{
    let a = string_values(l);
    if l.len() == 0 {
        assert(l =~= Seq::empty());
    } else {
        assert(a.drop_last() =~= string_values(l.drop_last()));
        lemma_strings_back(l.drop_last());
        assert(l.drop_last().push(l.last()) =~= l);
    }
}

/// Whether `key` is the name of a capability property.
pub open spec fn is_caps_name(key: Seq<char>) -> bool {
    ||| key == "objectEncoding"@
    ||| key == "fourCcList"@
    ||| key == "videoFourCcInfoMap"@
    ||| key == "audioFourCcInfoMap"@
    ||| key == "capsEx"@
}

proof fn lemma_field_found(p: Seq<(Seq<char>, Amf0)>, c: CapsView, i: int)
    requires
        forall|k: int| 0 <= k < p.len() ==> !is_caps_name((#[trigger] p[k]).0),
        0 <= i < 5,
    ensures
        ({
            let all = p + present(c.fields());
            last_named(all, all.len() as int, c.fields()[i].0) == c.fields()[i].1
        }),
{
    let f = c.fields();
    let q = present(f);
    lemma_marks();
    lemma_marked(
        f,
        seq![
            mark("objectEncoding"@),
            mark("fourCcList"@),
            mark("videoFourCcInfoMap"@),
            mark("audioFourCcInfoMap"@),
            mark("capsEx"@),
        ],
    );
    assert(is_caps_name(f[i].0));
    lemma_last_append(p, q, q.len() as int, f[i].0);
    lemma_last_present(f, Seq::empty(), i);
    assert(q + Seq::empty() =~= q);
    lemma_not_named(p, p.len() as int, f[i].0);
}

proof fn lemma_not_named(p: Seq<(Seq<char>, Amf0)>, n: int, key: Seq<char>)
    requires
        n <= p.len(),
        forall|k: int| 0 <= k < p.len() ==> !is_caps_name((#[trigger] p[k]).0),
        is_caps_name(key),
    ensures
        last_named(p, n, key) is None,
    decreases n,
{
    if n > 0 {
        lemma_not_named(p, n - 1, key);
    }
}

/// A capability block that was appended to other properties is read back from
/// among them. Its maps have no key twice, and none of the other properties has
/// the name of a capability property.
pub proof fn law_capabilities_round_trip(p: Seq<(Seq<char>, Amf0)>, c: CapsView)
    requires
        keys_distinct(c.video),
        keys_distinct(c.audio),
        forall|k: int| 0 <= k < p.len() ==> !is_caps_name((#[trigger] p[k]).0),
    ensures
        caps_of(Amf0::Object(p + present(c.fields()))) == c,
{
    let f = c.fields();
    let all = p + present(f);
    let n = all.len() as int;
    let encoding = |v: Amf0| encoding_in(v);
    let list = |v: Amf0| list_in(v);
    let bits = |v: Amf0| mask_in(v);
    lemma_field_found(p, c, 0);
    lemma_field_found(p, c, 1);
    lemma_field_found(p, c, 2);
    lemma_field_found(p, c, 3);
    lemma_field_found(p, c, 4);
    lemma_good_last(all, n, "objectEncoding"@, encoding);
    lemma_good_last(all, n, "fourCcList"@, list);
    lemma_good_last(all, n, "capsEx"@, bits);
    if let Some(e) = c.object_encoding {
        lemma_nat_bits(e as nat);
    }
    lemma_strings_back(c.fourcc_list);
    law_map_round_trip(c.video);
    law_map_round_trip(c.audio);
    lemma_number_mask(c.caps_ex);
    let r = caps_in(all);
    assert(r.object_encoding == c.object_encoding);
    assert(r.fourcc_list =~= c.fourcc_list);
    assert(r.video =~= c.video);
    assert(r.audio =~= c.audio);
    assert(r.caps_ex == c.caps_ex);
}

/// A block with nothing to say adds nothing.
pub proof fn law_empty_capabilities_add_nothing(p: Seq<(Seq<char>, Amf0)>)
    ensures
        p + present(CapsView::none().fields()) == p,
{
    let f = CapsView::none().fields();
    reveal_with_fuel(present, 6);
    assert(present(f) =~= Seq::empty());
    assert(p + Seq::empty() =~= p);
}

/// The bits by which capabilities are stated.
pub proof fn law_capability_bits()
    ensures
        FOURCC_INFO_CAN_DECODE == 1 && FOURCC_INFO_CAN_ENCODE == 2 && FOURCC_INFO_CAN_FORWARD == 4,
        CAPS_EX_RECONNECT == 1 && CAPS_EX_MULTITRACK == 2 && CAPS_EX_MOD_EX == 4
            && CAPS_EX_TIMESTAMP_NANO_OFFSET == 8,
        OBJECT_ENCODING_AMF0 == 0 && OBJECT_ENCODING_AMF3 == 3,
        FOURCC_WILDCARD@ == "*"@,
{
}

/// Bits are read from any number that is not negative: cut to a whole number, and to the
/// largest of 32 bits. Nothing is read from a negative number, an infinite one, one that is
/// none, and any other value.
pub proof fn law_bits_are_read(n: nat, bits: u64, v: Amf0)
    ensures
        n <= u32::MAX && nat_bits(n) <= bits < nat_bits(n + 1) ==> mask_in(Amf0::Number(bits))
            == Some(n as u32),
        u32::MAX < n < 0x20_0000_0000_0000 ==> mask_in(Amf0::Number(nat_bits(n))) == Some(
            0xFFFF_FFFFu32,
        ),
        bits > 0x8000_0000_0000_0000 ==> mask_in(Amf0::Number(bits)) is None,
        bits % 0x8000_0000_0000_0000 >= 0x7FF0_0000_0000_0000 ==> mask_in(Amf0::Number(bits))
            is None,
        !(v is Number) ==> mask_in(v) is None && encoding_in(v) is None,
{
    crate::number::law_kinds_of_doubles(bits, 0);
    if n <= u32::MAX && nat_bits(n) <= bits < nat_bits(n + 1) {
        crate::number::law_doubles_are_cut_towards_zero(n, bits);
        lemma_nat_bits(n + 1);
        crate::number::law_kinds_of_doubles(nat_bits(n + 1), 0);
    }
    if n < 0x20_0000_0000_0000 {
        lemma_nat_bits(n);
    }
}

/// An object encoding is read from a number from 0 to 255, cut to a whole number; above 255
/// nothing is read, not even just above.
pub proof fn law_object_encoding_is_read(n: nat, bits: u64)
    ensures
        n < 255 && nat_bits(n) <= bits < nat_bits(n + 1) ==> encoding_in(Amf0::Number(bits))
            == Some(n as u8),
        encoding_in(Amf0::Number(nat_bits(255))) == Some(255u8),
        nat_bits(255) < bits < nat_bits(256) ==> encoding_in(Amf0::Number(bits)) is None,
        256 <= n <= u32::MAX && nat_bits(n) <= bits < nat_bits(n + 1) ==> encoding_in(
            Amf0::Number(bits),
        ) is None,
        bits > 0x8000_0000_0000_0000 ==> encoding_in(Amf0::Number(bits)) is None,
{
    crate::number::law_kinds_of_doubles(bits, 0);
    if n <= u32::MAX && nat_bits(n) <= bits < nat_bits(n + 1) {
        crate::number::law_doubles_are_cut_towards_zero(n, bits);
        lemma_nat_bits(n + 1);
        crate::number::law_kinds_of_doubles(nat_bits(n + 1), 0);
    }
    lemma_nat_bits(255);
    if nat_bits(255) < bits < nat_bits(256) {
        crate::number::law_doubles_are_cut_towards_zero(255, bits);
    }
}

/// Setting the mask of a key changes that of no other: a key that is there keeps its place,
/// and a new one comes last.
pub proof fn law_insert_changes_one_entry(s: Masks, key: Seq<char>, mask: u32, i: int)
    requires
        keys_distinct(s),
        0 <= i < s.len(),
    ensures
        s[i].0 == key ==> inserted(s, key, mask) == s.update(i, (key, mask)),
        (forall|j: int| 0 <= j < s.len() ==> (#[trigger] s[j]).0 != key) ==> inserted(s, key, mask)
            == s.push((key, mask)),
        inserted(Seq::empty(), key, mask) == seq![(key, mask)],
{
    lemma_place(s, 0, key);
    assert(inserted(Seq::empty(), key, mask) =~= seq![(key, mask)]);
    if s[i].0 == key {
        if let Some(j) = place_of(s, 0, key) {
            assert(i == j) by {
                if i < j {
                    assert(s[i].0 != s[j].0);
                }
                if j < i {
                    assert(s[j].0 != s[i].0);
                }
            }
        }
    }
}

/// The bits that hold for a codec are its own and those that stand for every codec, each
/// none where there is no entry.
pub proof fn law_effective_bits(s: Masks, key: Seq<char>, i: int, j: int)
    requires
        keys_distinct(s),
    ensures
        ({
            let none = forall|k: int| 0 <= k < s.len() ==> (#[trigger] s[k]).0 != "*"@;
            let unknown = forall|k: int| 0 <= k < s.len() ==> (#[trigger] s[k]).0 != key;
            let own = 0 <= i < s.len() && s[i].0 == key;
            let all = 0 <= j < s.len() && s[j].0 == "*"@;
            &&& own && all ==> effective(s, key) == s[i].1 | s[j].1
            &&& own && none ==> effective(s, key) == s[i].1
            &&& unknown && all ==> effective(s, key) == s[j].1
            &&& unknown && none ==> effective(s, key) == 0
        }),
{
    if 0 <= i < s.len() && s[i].0 == key {
        lemma_mask_at(s, 0, i);
        let m = s[i].1;
        assert(m | 0u32 == m) by (bit_vector);
    }
    if 0 <= j < s.len() && s[j].0 == "*"@ {
        lemma_mask_at(s, 0, j);
        let m = s[j].1;
        assert(0u32 | m == m) by (bit_vector);
    }
    if forall|k: int| 0 <= k < s.len() ==> (#[trigger] s[k]).0 != "*"@ {
        lemma_mask_absent(s, 0, "*"@);
    }
    if forall|k: int| 0 <= k < s.len() ==> (#[trigger] s[k]).0 != key {
        lemma_mask_absent(s, 0, key);
    }
    assert(0u32 | 0u32 == 0u32) by (bit_vector);
}

/// A map takes its entries one after the other; what holds no bits is passed over. An ECMA
/// array makes the map that an object makes, and any other value an empty one.
pub proof fn law_map_is_read(p: Seq<(Seq<char>, Amf0)>, x: (Seq<char>, Amf0), v: Amf0)
    ensures
        map_in(Amf0::Object(p.push(x))) == (match mask_in(x.1) {
            Some(m) => inserted(map_in(Amf0::Object(p)), x.0, m),
            None => map_in(Amf0::Object(p)),
        }),
        map_in(Amf0::Object(Seq::empty())).len() == 0,
        map_in(Amf0::EcmaArray(p)) == map_in(Amf0::Object(p)),
        !(v is Object) && !(v is EcmaArray) ==> map_in(v).len() == 0,
{
    assert(p.push(x).drop_last() =~= p);
}

/// Each property of a capability block says one thing, and the last one that can be read
/// counts; of the two maps the last one counts, whatever it is. Other properties say
/// nothing.
pub proof fn law_capabilities_by_name(p: Seq<(Seq<char>, Amf0)>, x: (Seq<char>, Amf0))
    ensures
        ({
            let c = caps_of(Amf0::Object(p));
            let d = caps_of(Amf0::Object(p.push(x)));
            &&& d.object_encoding == (if x.0 == "objectEncoding"@ && encoding_in(x.1) is Some {
                encoding_in(x.1)
            } else {
                c.object_encoding
            })
            &&& d.fourcc_list == (match x.1 {
                Amf0::StrictArray(a) => if x.0 == "fourCcList"@ {
                    strings_among(a)
                } else {
                    c.fourcc_list
                },
                _ => c.fourcc_list,
            })
            &&& d.video == (if x.0 == "videoFourCcInfoMap"@ {
                map_in(x.1)
            } else {
                c.video
            })
            &&& d.audio == (if x.0 == "audioFourCcInfoMap"@ {
                map_in(x.1)
            } else {
                c.audio
            })
            &&& d.caps_ex == (if x.0 == "capsEx"@ && mask_in(x.1) is Some {
                mask_in(x.1)->0
            } else {
                c.caps_ex
            })
        }),
{
    lemma_step(p, x);
    lemma_marks();
}

/// An ECMA array says what an object says; an empty one says nothing, and neither does any
/// other value.
pub proof fn law_what_says_capabilities(p: Seq<(Seq<char>, Amf0)>, v: Amf0)
    ensures
        caps_of(Amf0::EcmaArray(p)) == caps_of(Amf0::Object(p)),
        v == Amf0::Object(Seq::empty()) || (!(v is Object) && !(v is EcmaArray)) ==> {
            let c = caps_of(v);
            c.object_encoding is None && c.fourcc_list.len() == 0 && c.video.len() == 0
                && c.audio.len() == 0 && c.caps_ex == 0
        },
{
}

/// The strings of a list are kept in order, and nothing else of it is.
pub proof fn law_list_keeps_strings(a: Seq<Amf0>, s: Seq<char>, v: Amf0)
    ensures
        strings_among(a.push(Amf0::String(s))) == strings_among(a).push(s),
        !(v is String) ==> strings_among(a.push(v)) == strings_among(a),
        strings_among(Seq::empty()).len() == 0,
{
    assert(a.push(Amf0::String(s)).drop_last() =~= a);
    assert(a.push(v).drop_last() =~= a);
}

/// Capabilities are written in this order, each only where there is something to say:
/// `objectEncoding`, `fourCcList`, `videoFourCcInfoMap`, `audioFourCcInfoMap`, `capsEx`.
pub proof fn law_capabilities_are_written_in_order(
    caps: &ConnectCapabilities,
    pairs: &mut Vec<(String, Amf0Value)>,
)
    requires
        call_ensures(ConnectCapabilities::encode_into, (caps, pairs), ()),
    ensures
        ({
            let c = caps@;
            pair_views(final(pairs)@) == pair_views(old(pairs)@) + ((match c.object_encoding {
                Some(e) => seq![("objectEncoding"@, Amf0::Number(nat_bits(e as nat)))],
                None => Seq::empty(),
            }) + (if c.fourcc_list.len() == 0 {
                Seq::empty()
            } else {
                seq![
                    (
                        "fourCcList"@,
                        Amf0::StrictArray(
                            Seq::new(c.fourcc_list.len(), |i: int| Amf0::String(c.fourcc_list[i])),
                        ),
                    ),
                ]
            }) + (if c.video.len() == 0 {
                Seq::empty()
            } else {
                seq![("videoFourCcInfoMap"@, Amf0::Object(numbers_of(c.video)))]
            }) + (if c.audio.len() == 0 {
                Seq::empty()
            } else {
                seq![("audioFourCcInfoMap"@, Amf0::Object(numbers_of(c.audio)))]
            }) + (if c.caps_ex == 0 {
                Seq::empty()
            } else {
                seq![("capsEx"@, Amf0::Number(nat_bits(c.caps_ex as nat)))]
            }))
        }),
{
    let f = caps@.fields();
    let a = f.drop_last();
    let b = a.drop_last();
    let d = b.drop_last();
    let e = d.drop_last();
    assert(e.drop_last() =~= Seq::empty());
    assert(present(e.drop_last()) == Seq::<(Seq<char>, Amf0)>::empty());
    assert(present(e) =~= crate::amf_fields::one(f[0]));
    assert(present(d) == present(e) + crate::amf_fields::one(f[1]));
    assert(present(b) == present(d) + crate::amf_fields::one(f[2]));
    assert(present(a) == present(b) + crate::amf_fields::one(f[3]));
    assert(present(f) == present(a) + crate::amf_fields::one(f[4]));
    assert(mask_pairs(caps@.video) =~= numbers_of(caps@.video));
    assert(mask_pairs(caps@.audio) =~= numbers_of(caps@.audio));
    assert(string_values(caps@.fourcc_list) =~= Seq::new(
        caps@.fourcc_list.len(),
        |i: int| Amf0::String(caps@.fourcc_list[i]),
    ));
}

/// A map as named numbers, in order.
pub open spec fn numbers_of(s: Masks) -> Seq<(Seq<char>, Amf0)> {
    Seq::new(s.len(), |i: int| (s[i].0, Amf0::Number(nat_bits(s[i].1 as nat))))
}

/// What a block and its maps answer. A flag is supported where all its bits are set, and
/// no flag is none; a codec is in the list by its own name or by `*`.
pub proof fn law_capabilities_answer(
    c: &ConnectCapabilities,
    mask: u32,
    key: &str,
    supported: bool,
    listed: bool,
    empty: bool,
    m: &FourCcInfoMap,
    own: Option<u32>,
    every: Option<u32>,
    bits: u32,
)
    requires
        call_ensures(ConnectCapabilities::supports_caps_ex, (c, mask), supported),
        call_ensures(ConnectCapabilities::has_fourcc, (c, key), listed),
        call_ensures(ConnectCapabilities::is_empty, (c,), empty),
        call_ensures(FourCcInfoMap::get, (m, key), own),
        call_ensures(FourCcInfoMap::wildcard, (m,), every),
        call_ensures(FourCcInfoMap::effective_mask, (m, key), bits),
    ensures
        mask == 0 ==> !supported,
        mask != 0 ==> supported == (c.caps_ex & mask == mask),
        listed <==> exists|i: int|
            0 <= i < c@.fourcc_list.len() && (#[trigger] c@.fourcc_list[i] == key@
                || c@.fourcc_list[i] == "*"@),
        empty ==> c@.fourcc_list.len() == 0 && c@.video.len() == 0 && c@.audio.len() == 0 && c@.caps_ex
            == 0 && c@.object_encoding is None,
        c@.fourcc_list.len() > 0 || c@.video.len() > 0 || c@.audio.len() > 0 || c@.caps_ex != 0
            || c@.object_encoding is Some ==> !empty,
        own == mask_of(m@, 0, key@),
        every == mask_of(m@, 0, "*"@),
        bits == effective(m@, key@),
{
}

/// Capabilities and maps are read and written as is said here.
pub proof fn law_capabilities_are_read(
    v: &Amf0Value,
    c: ConnectCapabilities,
    m: FourCcInfoMap,
    n: &FourCcInfoMap,
    w: Amf0Value,
)
    requires
        call_ensures(ConnectCapabilities::from_amf0, (v,), c),
        call_ensures(FourCcInfoMap::from_amf0, (v,), m),
        call_ensures(FourCcInfoMap::to_amf0, (n,), w),
    ensures
        c@ == caps_of(v@),
        m@ == map_in(v@),
        w@ == Amf0::Object(numbers_of(n@)),
{
    assert(mask_pairs(n@) =~= numbers_of(n@));
}

/// A map counts its entries and lists them in order.
pub proof fn law_entries_are_listed(m: &FourCcInfoMap, n: usize, r: Vec<(&str, u32)>, i: int)
    requires
        call_ensures(FourCcInfoMap::len, (m,), n),
        call_ensures(FourCcInfoMap::iter, (m,), r),
        0 <= i < m@.len(),
    ensures
        n == m@.len(),
        r@.len() == m@.len(),
        r@[i].0@ == m@[i].0,
        r@[i].1 == m@[i].1,
{
}

/// A map takes a mask under its key.
pub proof fn law_entries_are_taken(
    m: &mut FourCcInfoMap,
    key: &str,
    mask: u32,
    r: &mut FourCcInfoMap,
)
    requires
        call_ensures(FourCcInfoMap::insert, (m, key, mask), r),
    ensures
        old(r)@ == inserted(old(m)@, key@, mask),
        *final(m) == *final(r),
{
}

} // verus!
