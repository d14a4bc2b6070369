//! AMF0 values: the payload of command and data messages.
//!
//! A value is a marker byte and what it announces. Objects are runs of
//! key/value pairs up to an empty key and an end marker, and keep their order.
//! A reference stands for an earlier object of the same message; decoding puts
//! a copy of that object in its place, so that no reference is left in the
//! result. Encoding always writes values out in full.
//!
//! One marker switches to AMF3 for a single value. Decoding puts the AMF0 form of
//! that value in its place.

use vstd::prelude::*;
#[allow(unused_imports)]
use vstd::utf8::{decode_utf8, encode_utf8, valid_utf8};
use crate::amf3;
#[allow(unused_imports)]
use crate::amf3::bridge::{bridged, gives, plain_keys};
#[allow(unused_imports)]
use crate::amf3::decode::{value_at, Step, Tables};
#[allow(unused_imports)]
use crate::amf3::laws::law_reading_keeps_tables;
#[allow(unused_imports)]
use crate::amf3::value::Amf3;
use crate::error::{invalid_amf0, Error, Result};
#[allow(unused_imports)]
use crate::error::Fault;
#[allow(unused_imports)]
use crate::model::views;
use crate::number::Double;
use crate::text::{cat, cat4, cat5, decimal_text, hex_text, same_text, utf8_text};
#[allow(unused_imports)]
use crate::text::{decimal, numeral, utf8_fault_text};
use crate::wire::{get_be16, get_be32, get_be64, put_be16, put_be32, put_be64, put_bytes};
#[allow(unused_imports)]
use crate::wire::{be16, be16_bytes, be32, be32_bytes, be64, be64_bytes};

verus! {

pub const M_NUMBER: u8 = 0x00;

pub const M_BOOLEAN: u8 = 0x01;

pub const M_STRING: u8 = 0x02;

pub const M_OBJECT: u8 = 0x03;

pub const M_NULL: u8 = 0x05;

pub const M_UNDEFINED: u8 = 0x06;

pub const M_REFERENCE: u8 = 0x07;

pub const M_ECMA_ARRAY: u8 = 0x08;

pub const M_OBJECT_END: u8 = 0x09;

pub const M_STRICT_ARRAY: u8 = 0x0A;

pub const M_DATE: u8 = 0x0B;

pub const M_LONG_STRING: u8 = 0x0C;

pub const M_UNSUPPORTED: u8 = 0x0D;

pub const M_XML_DOCUMENT: u8 = 0x0F;

pub const M_TYPED_OBJECT: u8 = 0x10;

/// The next value is in AMF3.
pub const M_AVMPLUS: u8 = 0x11;

/// How deep containers may nest when decoding.
pub const MAX_DECODE_DEPTH: usize = 64;

/// One AMF0 value.
#[derive(Debug, PartialEq)]
pub enum Amf0Value {
    Number(Double),
    Boolean(bool),
    String(String),
    /// Named values, in order.
    Object(Vec<(String, Amf0Value)>),
    Null,
    Undefined,
    /// Named values, in order, announced by their count.
    EcmaArray(Vec<(String, Amf0Value)>),
    StrictArray(Vec<Amf0Value>),
    /// Milliseconds since 1970 and a time zone.
    Date { millis: Double, timezone: i16 },
    XmlDocument(String),
    /// Named values, in order, of a registered class.
    TypedObject { class_name: String, pairs: Vec<(String, Amf0Value)> },
    /// What a peer sends for a value that it could not serialise.
    Unsupported,
}

/// The mathematical view of [`Amf0Value`].
pub enum Amf0 {
    Number(u64),
    Boolean(bool),
    String(Seq<char>),
    Object(Seq<(Seq<char>, Amf0)>),
    Null,
    Undefined,
    EcmaArray(Seq<(Seq<char>, Amf0)>),
    StrictArray(Seq<Amf0>),
    Date { millis: u64, timezone: i16 },
    XmlDocument(Seq<char>),
    TypedObject { class_name: Seq<char>, pairs: Seq<(Seq<char>, Amf0)> },
    Unsupported,
}

impl View for Amf0Value {
    type V = Amf0;

    open spec fn view(&self) -> Amf0
        decreases self,
    {
        match *self {
            Amf0Value::Number(n) => Amf0::Number(n.bits),
            Amf0Value::Boolean(b) => Amf0::Boolean(b),
            Amf0Value::String(s) => Amf0::String(s@),
            Amf0Value::Object(p) => Amf0::Object(
                Seq::new(
                    p@.len(),
                    |i: int|
                        if 0 <= i < p@.len() {
                            (p@[i].0@, p@[i].1.view())
                        } else {
                            arbitrary()
                        },
                ),
            ),
            Amf0Value::Null => Amf0::Null,
            Amf0Value::Undefined => Amf0::Undefined,
            Amf0Value::EcmaArray(p) => Amf0::EcmaArray(
                Seq::new(
                    p@.len(),
                    |i: int|
                        if 0 <= i < p@.len() {
                            (p@[i].0@, p@[i].1.view())
                        } else {
                            arbitrary()
                        },
                ),
            ),
            Amf0Value::StrictArray(a) => Amf0::StrictArray(
                Seq::new(
                    a@.len(),
                    |i: int|
                        if 0 <= i < a@.len() {
                            a@[i].view()
                        } else {
                            arbitrary()
                        },
                ),
            ),
            Amf0Value::Date { millis, timezone } => Amf0::Date { millis: millis.bits, timezone },
            Amf0Value::XmlDocument(s) => Amf0::XmlDocument(s@),
            Amf0Value::TypedObject { class_name, pairs } => Amf0::TypedObject {
                class_name: class_name@,
                pairs: Seq::new(
                    pairs@.len(),
                    |i: int|
                        if 0 <= i < pairs@.len() {
                            (pairs@[i].0@, pairs@[i].1.view())
                        } else {
                            arbitrary()
                        },
                ),
            },
            Amf0Value::Unsupported => Amf0::Unsupported,
        }
    }
}

/// Named values, by their views.
pub open spec fn pair_views(p: Seq<(String, Amf0Value)>) -> Seq<(Seq<char>, Amf0)> {
    Seq::new(p.len(), |i: int| (p[i].0@, p[i].1@))
}

/// What the view of a container is made of.
pub proof fn lemma_container_views(v: Amf0Value)
    ensures
        match v {
            Amf0Value::Object(p) => v@ == Amf0::Object(pair_views(p@)),
            Amf0Value::EcmaArray(p) => v@ == Amf0::EcmaArray(pair_views(p@)),
            Amf0Value::StrictArray(a) => v@ == Amf0::StrictArray(views(a@)),
            Amf0Value::TypedObject { class_name, pairs } => v@ == (Amf0::TypedObject {
                class_name: class_name@,
                pairs: pair_views(pairs@),
            }),
            _ => true,
        },
{
    reveal_with_fuel(<Amf0Value as View>::view, 2);
    match v {
        Amf0Value::Object(p) => {
            assert(v@->Object_0 =~= pair_views(p@));
        },
        Amf0Value::EcmaArray(p) => {
            assert(v@->EcmaArray_0 =~= pair_views(p@));
        },
        Amf0Value::StrictArray(a) => {
            assert(v@->StrictArray_0 =~= views(a@));
        },
        Amf0Value::TypedObject { class_name, pairs } => {
            assert(v@->pairs =~= pair_views(pairs@));
        },
        _ => {},
    }
}

/// A copy of named values.
pub fn clone_pairs(p: &Vec<(String, Amf0Value)>) -> (out: Vec<(String, Amf0Value)>)
    ensures
        pair_views(out@) == pair_views(p@),
    decreases p,
{
    let mut out: Vec<(String, Amf0Value)> = Vec::new();
    let mut i: usize = 0;
    while i < p.len()
        invariant
            i <= p@.len(),
            out@.len() == i,
            forall|k: int|
                0 <= k < i ==> (#[trigger] out@[k]).0@ == p@[k].0@ && out@[k].1@ == p@[k].1@,
        decreases p@.len() - i,
    {
        let v = p[i].1.clone();
        out.push((p[i].0.clone(), v));
        i = i + 1;
    }
    assert(pair_views(out@) =~= pair_views(p@));
    out
}

/// A copy of a run of values.
pub fn clone_items(a: &Vec<Amf0Value>) -> (out: Vec<Amf0Value>)
    ensures
        views(out@) == views(a@),
    decreases a,
{
    let mut out: Vec<Amf0Value> = Vec::new();
    let mut i: usize = 0;
    while i < a.len()
        invariant
            i <= a@.len(),
            out@.len() == i,
            forall|k: int| 0 <= k < i ==> (#[trigger] out@[k])@ == a@[k]@,
        decreases a@.len() - i,
    {
        let v = a[i].clone();
        out.push(v);
        i = i + 1;
    }
    assert(views(out@) =~= views(a@));
    out
}

impl Clone for Amf0Value {
    fn clone(&self) -> (r: Amf0Value)
        ensures
            r@ == self@,
        decreases self,
    {
        let r = match self {
            Amf0Value::Number(n) => Amf0Value::Number(*n),
            Amf0Value::Boolean(b) => Amf0Value::Boolean(*b),
            Amf0Value::String(s) => Amf0Value::String(s.clone()),
            Amf0Value::Object(p) => Amf0Value::Object(clone_pairs(p)),
            Amf0Value::Null => Amf0Value::Null,
            Amf0Value::Undefined => Amf0Value::Undefined,
            Amf0Value::EcmaArray(p) => Amf0Value::EcmaArray(clone_pairs(p)),
            Amf0Value::StrictArray(a) => Amf0Value::StrictArray(clone_items(a)),
            Amf0Value::Date { millis, timezone } => Amf0Value::Date {
                millis: *millis,
                timezone: *timezone,
            },
            Amf0Value::XmlDocument(s) => Amf0Value::XmlDocument(s.clone()),
            Amf0Value::TypedObject { class_name, pairs } => Amf0Value::TypedObject {
                class_name: class_name.clone(),
                pairs: clone_pairs(pairs),
            },
            Amf0Value::Unsupported => Amf0Value::Unsupported,
        };
        proof {
            lemma_container_views(*self);
            lemma_container_views(r);
        }
        r
    }
}

// ---------------------------------------------------------------------------
// Access
// ---------------------------------------------------------------------------

/// The first value called `key` from the `i`th pair on.
pub open spec fn value_named(pairs: Seq<(Seq<char>, Amf0)>, i: int, key: Seq<char>) -> Option<Amf0>
    decreases pairs.len() - i,
{
    if i >= pairs.len() {
        None
    } else if pairs[i].0 == key {
        Some(pairs[i].1)
    } else {
        value_named(pairs, i + 1, key)
    }
}

impl Amf0 {
    /// The named values that this value holds.
    pub open spec fn named(self) -> Option<Seq<(Seq<char>, Amf0)>> {
        match self {
            Amf0::Object(p) => Some(p),
            Amf0::EcmaArray(p) => Some(p),
            Amf0::TypedObject { pairs, .. } => Some(pairs),
            _ => None,
        }
    }

    /// The first value called `key`.
    pub open spec fn get(self, key: Seq<char>) -> Option<Amf0> {
        match self.named() {
            Some(p) => value_named(p, 0, key),
            None => None,
        }
    }

    /// The number, if this is one.
    pub open spec fn number(self) -> Option<u64> {
        match self {
            Amf0::Number(n) => Some(n),
            _ => None,
        }
    }

    /// The truth value, if this is one.
    pub open spec fn boolean(self) -> Option<bool> {
        match self {
            Amf0::Boolean(b) => Some(b),
            _ => None,
        }
    }

    /// The text, if this is a string.
    pub open spec fn text(self) -> Option<Seq<char>> {
        match self {
            Amf0::String(s) => Some(s),
            _ => None,
        }
    }
}

fn find_named<'a>(pairs: &'a Vec<(String, Amf0Value)>, key: &str) -> (r: Option<&'a Amf0Value>)
    ensures
        match r {
            Some(v) => value_named(pair_views(pairs@), 0, key@) == Some(v@),
            None => value_named(pair_views(pairs@), 0, key@) is None,
        },
{
    let ghost all = pair_views(pairs@);
    let mut i: usize = 0;
    while i < pairs.len()
        invariant
            all == pair_views(pairs@),
            i <= pairs@.len(),
            value_named(all, 0, key@) == value_named(all, i as int, key@),
        decreases pairs@.len() - i,
    {
        if same_text(pairs[i].0.as_str(), key) {
            return Some(&pairs[i].1);
        }
        i = i + 1;
    }
    None
}

impl Amf0Value {
    /// The first value called `key` in an object or associative array.
    pub fn get(&self, key: &str) -> (r: Option<&Amf0Value>)
        ensures
            match r {
                Some(v) => self@.get(key@) == Some(v@),
                None => self@.get(key@) is None,
            },
    {
        proof {
            lemma_container_views(*self);
        }
        match self {
            Amf0Value::Object(p) => find_named(p, key),
            Amf0Value::EcmaArray(p) => find_named(p, key),
            Amf0Value::TypedObject { pairs, .. } => find_named(pairs, key),
            _ => None,
        }
    }

    /// The class of a typed object.
    pub fn class_name(&self) -> (r: Option<&str>)
        ensures
            match r {
                Some(s) => self@ is TypedObject && self@->class_name == s@,
                None => !(self@ is TypedObject),
            },
    {
        match self {
            Amf0Value::TypedObject { class_name, .. } => Some(class_name.as_str()),
            _ => None,
        }
    }

    /// The text, if this is a string.
    pub fn as_str(&self) -> (r: Option<&str>)
        ensures
            match r {
                Some(s) => self@.text() == Some(s@),
                None => self@.text() is None,
            },
    {
        match self {
            Amf0Value::String(s) => Some(s.as_str()),
            _ => None,
        }
    }

    /// The number, if this is one.
    pub fn as_f64(&self) -> (r: Option<Double>)
        ensures
            match r {
                Some(n) => self@.number() == Some(n.bits),
                None => self@.number() is None,
            },
    {
        match self {
            Amf0Value::Number(n) => Some(*n),
            _ => None,
        }
    }

    /// The truth value, if this is one.
    pub fn as_bool(&self) -> (r: Option<bool>)
        ensures
            r == self@.boolean(),
    {
        match self {
            Amf0Value::Boolean(b) => Some(*b),
            _ => None,
        }
    }
}

// ---------------------------------------------------------------------------
// Decoding: the model
// ---------------------------------------------------------------------------

/// A value that was read, where it ends, and the objects that later references
/// can name.
pub struct Decoded {
    pub value: Amf0,
    pub pos: int,
    pub refs: Seq<Amf0>,
}

/// Named values that were read, up to and with their end marker.
pub struct DecodedPairs {
    pub pairs: Seq<(Seq<char>, Amf0)>,
    pub pos: int,
    pub refs: Seq<Amf0>,
}

/// A run of values that was read.
pub struct DecodedItems {
    pub items: Seq<Amf0>,
    pub pos: int,
    pub refs: Seq<Amf0>,
}

/// Why reading failed, and where.
pub struct Failure {
    pub fault: Fault,
    pub pos: int,
}

/// A failure to read.
pub open spec fn failed(text: Seq<char>, pos: int) -> Failure {
    Failure { fault: Fault::InvalidAmf0(text), pos }
}

/// The `len` bytes of text at offset `pos`, and where they end.
pub open spec fn text_body(s: Seq<u8>, pos: int, len: int) -> core::result::Result<
    (Seq<char>, int),
    Failure,
> {
    let bytes = s.subrange(pos, pos + len);
    if s.len() < pos + len {
        Err(
            failed(
                "truncated string: need "@ + decimal(len as nat) + ", have "@ + decimal(
                    (s.len() - pos) as nat,
                ),
                pos,
            ),
        )
    } else if !valid_utf8(bytes) {
        Err(failed("non-UTF8 string: "@ + utf8_fault_text(bytes), pos))
    } else {
        Ok((decode_utf8(bytes), pos + len))
    }
}

/// A text with a 16-bit length.
pub open spec fn short_text(s: Seq<u8>, pos: int) -> core::result::Result<
    (Seq<char>, int),
    Failure,
> {
    if s.len() < pos + 2 {
        Err(failed("truncated u16"@, pos))
    } else {
        text_body(s, pos + 2, be16(s, pos) as int)
    }
}

/// A text with a 32-bit length.
pub open spec fn long_text(s: Seq<u8>, pos: int) -> core::result::Result<
    (Seq<char>, int),
    Failure,
> {
    if s.len() < pos + 4 {
        Err(failed("truncated u32"@, pos))
    } else {
        text_body(s, pos + 4, be32(s, pos) as int)
    }
}

/// The signed value of 16 bits.
pub open spec fn signed16(v: u16) -> i16 {
    (if v >= 0x8000 {
        v - 0x1_0000
    } else {
        v as int
    }) as i16
}

/// The 16 bits of a signed value.
pub open spec fn bits16(v: i16) -> u16 {
    (if v < 0 {
        v + 0x1_0000
    } else {
        v as int
    }) as u16
}

/// The containers of named values.
pub enum Container {
    Object,
    EcmaArray,
    TypedObject(Seq<char>),
}

/// A container with the given named values.
pub open spec fn container_of(kind: Container, pairs: Seq<(Seq<char>, Amf0)>) -> Amf0 {
    match kind {
        Container::Object => Amf0::Object(pairs),
        Container::EcmaArray => Amf0::EcmaArray(pairs),
        Container::TypedObject(class_name) => Amf0::TypedObject { class_name, pairs },
    }
}

/// A value without parts, from what a text reader gave.
pub open spec fn text_value(
    r: core::result::Result<(Seq<char>, int), Failure>,
    xml: bool,
    refs: Seq<Amf0>,
) -> core::result::Result<Decoded, Failure> {
    match r {
        Err(e) => Err(e),
        Ok((t, pos)) => Ok(
            Decoded {
                value: if xml {
                    Amf0::XmlDocument(t)
                } else {
                    Amf0::String(t)
                },
                pos,
                refs,
            },
        ),
    }
}

/// The text that is given for a double where none is needed.
pub open spec fn no_text() -> spec_fn(u64) -> Seq<char> {
    |bits: u64| Seq::<char>::empty()
}

/// What the text of a double is, by its bits, if that is known.
pub type TextRule = Option<spec_fn(u64) -> Seq<char>>;

/// The error for a dictionary with a double for a key, where the text of a double is
/// not known.
pub open spec fn no_text_fault() -> Fault {
    Fault::InvalidAmf0("AMF3 dictionary with a double for a key has no AMF0 form"@)
}

/// The AMF0 form of what reading an AMF3 value came to. Dictionaries with a double
/// for a key have one only where the text of a double is known.
pub open spec fn switched(
    r: Step<Amf3>,
    refs: Seq<Amf0>,
    texts: TextRule,
) -> core::result::Result<Decoded, Failure> {
    match r.out {
        Err(fault) => Err(Failure { fault, pos: r.pos }),
        Ok(v) => match texts {
            Some(text) => Ok(Decoded { value: bridged(v, text), pos: r.pos, refs }),
            None => if plain_keys(v) {
                Ok(Decoded { value: bridged(v, no_text()), pos: r.pos, refs })
            } else {
                Err(Failure { fault: no_text_fault(), pos: r.pos })
            },
        },
    }
}

/// The AMF0 form of the AMF3 value at offset `p`, which stands for itself: it
/// reaches no table outside, and takes no place in the table of references.
pub open spec fn inline_at(
    s: Seq<u8>,
    p: int,
    refs: Seq<Amf0>,
    texts: TextRule,
) -> core::result::Result<Decoded, Failure> {
    switched(value_at(s, p, 0, Tables::new(), Seq::empty()), refs, texts)
}

/// A value without parts in AMF0, after its marker `m` at offset `p - 1`.
#[verifier::opaque]
pub open spec fn scalar_at(
    s: Seq<u8>,
    p: int,
    m: u8,
    refs: Seq<Amf0>,
    texts: TextRule,
) -> core::result::Result<Decoded, Failure> {
    if m == M_NUMBER {
        if s.len() < p + 8 {
            Err(failed("truncated u64"@, p))
        } else {
            Ok(Decoded { value: Amf0::Number(be64(s, p)), pos: p + 8, refs })
        }
    } else if m == M_BOOLEAN {
        if s.len() <= p {
            Err(failed("truncated"@, p))
        } else {
            Ok(Decoded { value: Amf0::Boolean(s[p] != 0), pos: p + 1, refs })
        }
    } else if m == M_STRING {
        text_value(short_text(s, p), false, refs)
    } else if m == M_LONG_STRING {
        text_value(long_text(s, p), false, refs)
    } else if m == M_XML_DOCUMENT {
        text_value(long_text(s, p), true, refs)
    } else if m == M_NULL {
        Ok(Decoded { value: Amf0::Null, pos: p, refs })
    } else if m == M_UNDEFINED {
        Ok(Decoded { value: Amf0::Undefined, pos: p, refs })
    } else if m == M_UNSUPPORTED {
        Ok(Decoded { value: Amf0::Unsupported, pos: p, refs })
    } else if m == M_DATE {
        if s.len() < p + 8 {
            Err(failed("truncated u64"@, p))
        } else if s.len() < p + 10 {
            Err(failed("truncated u16"@, p + 8))
        } else {
            Ok(
                Decoded {
                    value: Amf0::Date {
                        millis: be64(s, p),
                        timezone: signed16(be16(s, p + 8)),
                    },
                    pos: p + 10,
                    refs,
                },
            )
        }
    } else if m == M_REFERENCE {
        if s.len() < p + 2 {
            Err(failed("truncated u16"@, p))
        } else if be16(s, p) >= refs.len() {
            Err(
                failed(
                    "AMF0 reference index "@ + decimal(be16(s, p) as nat)
                        + " out of range (table has "@ + decimal(refs.len()) + " entries)"@,
                    p + 2,
                ),
            )
        } else {
            Ok(Decoded { value: refs[be16(s, p) as int], pos: p + 2, refs })
        }
    } else if m == M_AVMPLUS {
        inline_at(s, p, refs, texts)
    } else {
        Err(failed("unknown marker 0x"@ + numeral(m as nat, 16), p))
    }
}

/// The value at offset `pos`, nested `depth` deep. A container takes its place in
/// the table of references before its parts do; until it is complete a reference
/// to it gives an empty container.
pub open spec fn decode_at(
    s: Seq<u8>,
    pos: int,
    depth: nat,
    refs: Seq<Amf0>,
    texts: TextRule,
) -> core::result::Result<Decoded, Failure>
    decreases 64 - depth, 0int, 0int,
{
    if depth >= 64 {
        Err(failed("nested container depth exceeded 64"@, pos))
    } else if s.len() <= pos {
        Err(failed("truncated"@, pos))
    } else {
        let m = s[pos];
        let p = pos + 1;
        if m == M_OBJECT {
            container_at(s, p, depth + 1, refs, Container::Object, texts)
        } else if m == M_ECMA_ARRAY {
            if s.len() < p + 4 {
                Err(failed("truncated u32"@, p))
            } else {
                container_at(s, p + 4, depth + 1, refs, Container::EcmaArray, texts)
            }
        } else if m == M_TYPED_OBJECT {
            match short_text(s, p) {
                Err(e) => Err(e),
                Ok((name, q)) => container_at(
                    s,
                    q,
                    depth + 1,
                    refs,
                    Container::TypedObject(name),
                    texts,
                ),
            }
        } else if m == M_STRICT_ARRAY {
            if s.len() < p + 4 {
                Err(failed("truncated u32"@, p))
            } else {
                array_at(s, p + 4, depth + 1, refs, be32(s, p) as nat, texts)
            }
        } else {
            scalar_at(s, p, m, refs, texts)
        }
    }
}

/// A container whose named values start at offset `pos`.
pub open spec fn container_at(
    s: Seq<u8>,
    pos: int,
    depth: nat,
    refs: Seq<Amf0>,
    kind: Container,
    texts: TextRule,
) -> core::result::Result<Decoded, Failure>
    decreases 64 - depth, 2int, 0int,
{
    match pairs_at(s, pos, depth, refs.push(container_of(kind, Seq::empty())), texts) {
        Err(e) => Err(e),
        Ok(d) => {
            let v = container_of(kind, d.pairs);
            Ok(Decoded { value: v, pos: d.pos, refs: d.refs.update(refs.len() as int, v) })
        },
    }
}

/// An array of `n` values that start at offset `pos`.
pub open spec fn array_at(
    s: Seq<u8>,
    pos: int,
    depth: nat,
    refs: Seq<Amf0>,
    n: nat,
    texts: TextRule,
) -> core::result::Result<Decoded, Failure>
    decreases 64 - depth, 2int, 0int,
{
    match items_at(s, pos, depth, refs.push(Amf0::StrictArray(Seq::empty())), n, texts) {
        Err(e) => Err(e),
        Ok(d) => {
            let v = Amf0::StrictArray(d.items);
            Ok(Decoded { value: v, pos: d.pos, refs: d.refs.update(refs.len() as int, v) })
        },
    }
}

/// The named values at offset `pos`, up to an empty key and the end marker.
pub open spec fn pairs_at(
    s: Seq<u8>,
    pos: int,
    depth: nat,
    refs: Seq<Amf0>,
    texts: TextRule,
) -> core::result::Result<DecodedPairs, Failure>
    decreases 64 - depth, 1int, s.len() - pos,
{
    match short_text(s, pos) {
        Err(e) => Err(e),
        Ok((key, p)) => if key.len() == 0 {
            if s.len() <= p {
                Err(failed("truncated"@, p))
            } else if s[p] != M_OBJECT_END {
                Err(
                    failed(
                        "expected OBJECT_END (0x09) after empty key, got 0x"@ + numeral(
                            s[p] as nat,
                            16,
                        ),
                        p + 1,
                    ),
                )
            } else {
                Ok(DecodedPairs { pairs: Seq::empty(), pos: p + 1, refs })
            }
        } else {
            match decode_at(s, p, depth, refs, texts) {
                Err(e) => Err(e),
                Ok(d) => if d.pos <= pos || s.len() < d.pos {
                    Err(failed("truncated"@, p))
                } else {
                    more_pairs(seq![(key, d.value)], pairs_at(s, d.pos, depth, d.refs, texts))
                },
            }
        },
    }
}

/// `n` values, from offset `pos` on.
pub open spec fn items_at(
    s: Seq<u8>,
    pos: int,
    depth: nat,
    refs: Seq<Amf0>,
    n: nat,
    texts: TextRule,
) -> core::result::Result<DecodedItems, Failure>
    decreases 64 - depth, 1int, n,
{
    if n == 0 {
        Ok(DecodedItems { items: Seq::empty(), pos, refs })
    } else {
        match decode_at(s, pos, depth, refs, texts) {
            Err(e) => Err(e),
            Ok(d) => more_items(
                seq![d.value],
                items_at(s, d.pos, depth, d.refs, (n - 1) as nat, texts),
            ),
        }
    }
}

/// `front` before the pairs that follow.
pub open spec fn more_pairs(
    front: Seq<(Seq<char>, Amf0)>,
    rest: core::result::Result<DecodedPairs, Failure>,
) -> core::result::Result<DecodedPairs, Failure> {
    match rest {
        Err(e) => Err(e),
        Ok(d) => Ok(DecodedPairs { pairs: front + d.pairs, ..d }),
    }
}

/// `front` before the values that follow.
pub open spec fn more_items(
    front: Seq<Amf0>,
    rest: core::result::Result<DecodedItems, Failure>,
) -> core::result::Result<DecodedItems, Failure> {
    match rest {
        Err(e) => Err(e),
        Ok(d) => Ok(DecodedItems { items: front + d.items, ..d }),
    }
}

/// All values from offset `pos` to the end of a message.
pub open spec fn values_at(
    s: Seq<u8>,
    pos: int,
    refs: Seq<Amf0>,
    texts: TextRule,
) -> core::result::Result<
    DecodedItems,
    Failure,
>
    decreases s.len() - pos,
{
    if pos >= s.len() {
        Ok(DecodedItems { items: Seq::empty(), pos, refs })
    } else {
        match decode_at(s, pos, 0, refs, texts) {
            Err(e) => Err(e),
            Ok(d) => if d.pos <= pos || s.len() < d.pos {
                Err(failed("truncated"@, pos))
            } else {
                more_items(seq![d.value], values_at(s, d.pos, d.refs, texts))
            },
        }
    }
}

proof fn lemma_more_pairs_twice(
    a: Seq<(Seq<char>, Amf0)>,
    b: Seq<(Seq<char>, Amf0)>,
    r: core::result::Result<DecodedPairs, Failure>,
)
    ensures
        more_pairs(a, more_pairs(b, r)) == more_pairs(a + b, r),
        more_pairs(Seq::empty(), r) == r,
{
    if let Ok(d) = r {
        assert(a + (b + d.pairs) =~= a + b + d.pairs);
        assert(Seq::<(Seq<char>, Amf0)>::empty() + d.pairs =~= d.pairs);
    }
}

proof fn lemma_more_items_twice(
    a: Seq<Amf0>,
    b: Seq<Amf0>,
    r: core::result::Result<DecodedItems, Failure>,
)
    ensures
        more_items(a, more_items(b, r)) == more_items(a + b, r),
        more_items(Seq::empty(), r) == r,
{
    if let Ok(d) = r {
        assert(a + (b + d.items) =~= a + b + d.items);
        assert(Seq::<Amf0>::empty() + d.items =~= d.items);
    }
}

// ---------------------------------------------------------------------------
// Decoding: the code
// ---------------------------------------------------------------------------

fn read_utf8_body(buf: &[u8], pos: &mut usize, len: usize) -> (r: Result<String>)
    requires
        *old(pos) <= buf@.len(),
    ensures
        match r {
            Ok(t) => text_body(buf@, *old(pos) as int, len as int) == Ok::<
                (Seq<char>, int),
                Failure,
            >((t@, *final(pos) as int)) && *old(pos) <= *final(pos) <= buf@.len(),
            Err(e) => text_body(buf@, *old(pos) as int, len as int) == Err::<
                (Seq<char>, int),
                Failure,
            >(Failure { fault: e@, pos: *final(pos) as int }),
        },
{
    let p: usize = *pos;
    let have: usize = buf.len() - p;
    if have < len {
        let want = decimal_text(len as u64);
        let got = decimal_text(have as u64);
        return Err(
            Error::InvalidAmf0(
                cat4("truncated string: need ", want.as_str(), ", have ", got.as_str()),
            ),
        );
    }
    match utf8_text(vstd::slice::slice_subrange(buf, p, p + len)) {
        Ok(t) => {
            proof {
                vstd::utf8::encode_utf8_decode_utf8(t@);
            }
            *pos = p + len;
            Ok(t)
        },
        Err(e) => Err(Error::InvalidAmf0(cat("non-UTF8 string: ", e.as_str()))),
    }
}

fn read_utf8_short(buf: &[u8], pos: &mut usize) -> (r: Result<String>)
    ensures
        match r {
            Ok(t) => short_text(buf@, *old(pos) as int) == Ok::<(Seq<char>, int), Failure>(
                (t@, *final(pos) as int),
            ) && *old(pos) + 2 <= *final(pos) <= buf@.len(),
            Err(e) => short_text(buf@, *old(pos) as int) == Err::<(Seq<char>, int), Failure>(
                Failure { fault: e@, pos: *final(pos) as int },
            ),
        },
{
    let p: usize = *pos;
    if p > buf.len() || buf.len() - p < 2 {
        return Err(invalid_amf0("truncated u16"));
    }
    let len: usize = get_be16(buf, p) as usize;
    *pos = p + 2;
    read_utf8_body(buf, pos, len)
}

fn read_utf8_long(buf: &[u8], pos: &mut usize) -> (r: Result<String>)
    ensures
        match r {
            Ok(t) => long_text(buf@, *old(pos) as int) == Ok::<(Seq<char>, int), Failure>(
                (t@, *final(pos) as int),
            ) && *old(pos) + 4 <= *final(pos) <= buf@.len(),
            Err(e) => long_text(buf@, *old(pos) as int) == Err::<(Seq<char>, int), Failure>(
                Failure { fault: e@, pos: *final(pos) as int },
            ),
        },
{
    let p: usize = *pos;
    if p > buf.len() || buf.len() - p < 4 {
        return Err(invalid_amf0("truncated u32"));
    }
    let len: usize = get_be32(buf, p) as usize;
    *pos = p + 4;
    read_utf8_body(buf, pos, len)
}

fn signed_from(v: u16) -> (n: i16)
    ensures
        n == signed16(v),
{
    if v >= 0x8000 {
        (v as i32 - 0x1_0000) as i16
    } else {
        v as i16
    }
}

/// Whether an outcome of reading is the one that the model gives.
spec fn reads_as(
    r: Result<Amf0Value>,
    pos: usize,
    refs: Seq<Amf0Value>,
    expected: core::result::Result<Decoded, Failure>,
) -> bool {
    match r {
        Ok(v) => expected == Ok::<Decoded, Failure>(
            Decoded { value: v@, pos: pos as int, refs: views(refs) },
        ),
        Err(e) => expected == Err::<Decoded, Failure>(Failure { fault: e@, pos: pos as int }),
    }
}

fn no_number_text(d: Double) -> (s: String) {
    String::new()
}

/// Whether `texts` says what `number_text` gives; where it is not to be asked, nothing
/// is known.
pub open spec fn told<F: Fn(Double) -> String>(number_text: F, asked: bool, texts: TextRule) -> bool {
    match texts {
        None => !asked,
        Some(text) => asked && gives(number_text, text),
    }
}

/// Whether an outcome is not the error for want of the text of a double.
pub open spec fn needs_no_text<T>(r: core::result::Result<T, Failure>) -> bool {
    r matches Err(e) ==> e.fault != no_text_fault()
}

fn decode_inline<F: Fn(Double) -> String>(
    buf: &[u8],
    pos: &mut usize,
    refs: &Vec<Amf0Value>,
    number_text: &F,
    asked: bool,
) -> (r: Result<Amf0Value>)
    requires
        *old(pos) <= buf@.len(),
        forall|d: Double| call_requires(*number_text, (d,)),
    ensures
        forall|texts: TextRule|
            told(*number_text, asked, texts) || needs_no_text(
                inline_at(buf@, *old(pos) as int, views(refs@), None),
            ) ==> reads_as(
                r,
                *final(pos),
                refs@,
                #[trigger] inline_at(buf@, *old(pos) as int, views(refs@), texts),
            ),
        r is Ok ==> *old(pos) <= *final(pos) <= buf@.len(),
{
    proof {
        law_reading_keeps_tables(buf@, *pos as int, 0, Tables::new(), Seq::empty());
    }
    match amf3::decode(buf, pos) {
        Err(e) => Err(e),
        Ok(v) => if asked || v.has_plain_keys() {
            let ghost here = v@;
            let r = v.to_amf0(number_text);
            assert(plain_keys(here) ==> r@ == bridged(here, no_text()));
            Ok(r)
        } else {
            Err(invalid_amf0("AMF3 dictionary with a double for a key has no AMF0 form"))
        },
    }
}

fn decode_scalar<F: Fn(Double) -> String>(
    buf: &[u8],
    pos: &mut usize,
    marker: u8,
    refs: &Vec<Amf0Value>,
    number_text: &F,
    asked: bool,
) -> (r: Result<Amf0Value>)
    requires
        *old(pos) <= buf@.len(),
        forall|d: Double| call_requires(*number_text, (d,)),
    ensures
        forall|texts: TextRule|
            told(*number_text, asked, texts) || needs_no_text(
                scalar_at(buf@, *old(pos) as int, marker, views(refs@), None),
            ) ==> reads_as(
                r,
                *final(pos),
                refs@,
                #[trigger] scalar_at(buf@, *old(pos) as int, marker, views(refs@), texts),
            ),
        r is Ok ==> *old(pos) <= *final(pos) <= buf@.len(),
{
    proof {
        reveal(scalar_at);
    }
    let p: usize = *pos;
    let n: usize = buf.len();
    if marker == M_NUMBER {
        if n - p < 8 {
            return Err(invalid_amf0("truncated u64"));
        }
        *pos = p + 8;
        Ok(Amf0Value::Number(Double { bits: get_be64(buf, p) }))
    } else if marker == M_BOOLEAN {
        if n - p < 1 {
            return Err(invalid_amf0("truncated"));
        }
        *pos = p + 1;
        Ok(Amf0Value::Boolean(buf[p] != 0))
    } else if marker == M_STRING {
        match read_utf8_short(buf, pos) {
            Ok(t) => Ok(Amf0Value::String(t)),
            Err(e) => Err(e),
        }
    } else if marker == M_LONG_STRING {
        match read_utf8_long(buf, pos) {
            Ok(t) => Ok(Amf0Value::String(t)),
            Err(e) => Err(e),
        }
    } else if marker == M_XML_DOCUMENT {
        match read_utf8_long(buf, pos) {
            Ok(t) => Ok(Amf0Value::XmlDocument(t)),
            Err(e) => Err(e),
        }
    } else if marker == M_NULL {
        Ok(Amf0Value::Null)
    } else if marker == M_UNDEFINED {
        Ok(Amf0Value::Undefined)
    } else if marker == M_UNSUPPORTED {
        Ok(Amf0Value::Unsupported)
    } else if marker == M_DATE {
        if n - p < 8 {
            return Err(invalid_amf0("truncated u64"));
        }
        if n - p < 10 {
            *pos = p + 8;
            return Err(invalid_amf0("truncated u16"));
        }
        *pos = p + 10;
        let millis = Double { bits: get_be64(buf, p) };
        Ok(Amf0Value::Date { millis, timezone: signed_from(get_be16(buf, p + 8)) })
    } else if marker == M_REFERENCE {
        if n - p < 2 {
            return Err(invalid_amf0("truncated u16"));
        }
        *pos = p + 2;
        let idx: usize = get_be16(buf, p) as usize;
        if idx < refs.len() {
            Ok(refs[idx].clone())
        } else {
            let i = decimal_text(idx as u64);
            let count = decimal_text(refs.len() as u64);
            Err(
                Error::InvalidAmf0(
                    cat5(
                        "AMF0 reference index ",
                        i.as_str(),
                        " out of range (table has ",
                        count.as_str(),
                        " entries)",
                    ),
                ),
            )
        }
    } else if marker == M_AVMPLUS {
        decode_inline(buf, pos, refs, number_text, asked)
    } else {
        let digits = hex_text(marker as u64);
        Err(Error::InvalidAmf0(cat("unknown marker 0x", digits.as_str())))
    }
}

fn decode_at_depth<F: Fn(Double) -> String>(
    buf: &[u8],
    pos: &mut usize,
    depth: usize,
    refs: &mut Vec<Amf0Value>,
    number_text: &F,
    asked: bool,
) -> (r: Result<Amf0Value>)
    requires
        depth <= 64,
        forall|d: Double| call_requires(*number_text, (d,)),
    ensures
        forall|texts: TextRule|
            told(*number_text, asked, texts) || needs_no_text(
                decode_at(buf@, *old(pos) as int, depth as nat, views(old(refs)@), None),
            ) ==> reads_as(
                r,
                *final(pos),
                final(refs)@,
                #[trigger] decode_at(
                    buf@,
                    *old(pos) as int,
                    depth as nat,
                    views(old(refs)@),
                    texts,
                ),
            ),
        r is Ok ==> *old(pos) < *final(pos) <= buf@.len() && final(refs)@.len() >= old(
            refs,
        )@.len(),
    decreases 64 - depth, 0int,
{
    if depth >= MAX_DECODE_DEPTH {
        return Err(invalid_amf0("nested container depth exceeded 64"));
    }
    let start: usize = *pos;
    let n: usize = buf.len();
    if start >= n {
        return Err(invalid_amf0("truncated"));
    }
    let marker: u8 = buf[start];
    let p: usize = start + 1;
    *pos = p;
    if marker == M_OBJECT {
        return decode_container(buf, pos, depth + 1, refs, Shape::Object, number_text, asked);
    }
    if marker == M_ECMA_ARRAY {
        if n - p < 4 {
            return Err(invalid_amf0("truncated u32"));
        }
        *pos = p + 4;
        return decode_container(buf, pos, depth + 1, refs, Shape::EcmaArray, number_text, asked);
    }
    if marker == M_TYPED_OBJECT {
        return match read_utf8_short(buf, pos) {
            Err(e) => Err(e),
            Ok(name) => decode_container(
                buf,
                pos,
                depth + 1,
                refs,
                Shape::TypedObject(name),
                number_text,
                asked,
            ),
        };
    }
    if marker == M_STRICT_ARRAY {
        if n - p < 4 {
            return Err(invalid_amf0("truncated u32"));
        }
        let count: u32 = get_be32(buf, p);
        *pos = p + 4;
        return decode_array(buf, pos, depth + 1, refs, count, number_text, asked);
    }
    decode_scalar(buf, pos, marker, refs, number_text, asked)
}

/// The containers of named values.
enum Shape {
    Object,
    EcmaArray,
    TypedObject(String),
}

impl View for Shape {
    type V = Container;

    closed spec fn view(&self) -> Container {
        match *self {
            Shape::Object => Container::Object,
            Shape::EcmaArray => Container::EcmaArray,
            Shape::TypedObject(s) => Container::TypedObject(s@),
        }
    }
}

fn make_container(shape: &Shape, pairs: Vec<(String, Amf0Value)>) -> (v: Amf0Value)
    ensures
        v@ == container_of(shape@, pair_views(pairs@)),
{
    let v = match shape {
        Shape::Object => Amf0Value::Object(pairs),
        Shape::EcmaArray => Amf0Value::EcmaArray(pairs),
        Shape::TypedObject(name) => Amf0Value::TypedObject { class_name: name.clone(), pairs },
    };
    proof {
        lemma_container_views(v);
    }
    v
}

fn decode_container<F: Fn(Double) -> String>(
    buf: &[u8],
    pos: &mut usize,
    depth: usize,
    refs: &mut Vec<Amf0Value>,
    shape: Shape,
    number_text: &F,
    asked: bool,
) -> (r: Result<Amf0Value>)
    requires
        depth <= 64,
        forall|d: Double| call_requires(*number_text, (d,)),
    ensures
        forall|texts: TextRule|
            told(*number_text, asked, texts) || needs_no_text(
                container_at(
                    buf@,
                    *old(pos) as int,
                    depth as nat,
                    views(old(refs)@),
                    shape@,
                    None,
                ),
            ) ==> reads_as(
                r,
                *final(pos),
                final(refs)@,
                #[trigger] container_at(
                    buf@,
                    *old(pos) as int,
                    depth as nat,
                    views(old(refs)@),
                    shape@,
                    texts,
                ),
            ),
        r is Ok ==> *old(pos) < *final(pos) <= buf@.len() && final(refs)@.len() >= old(
            refs,
        )@.len(),
    decreases 64 - depth, 2int,
{
    let slot: usize = refs.len();
    let ghost before = views(refs@);
    let none: Vec<(String, Amf0Value)> = Vec::new();
    assert(pair_views(none@) =~= Seq::empty());
    let empty = make_container(&shape, none);
    let ghost hole = empty@;
    refs.push(empty);
    assert(views(refs@) =~= before.push(hole));
    match read_object_body_at_depth(buf, pos, depth, refs, number_text, asked) {
        Err(e) => Err(e),
        Ok(pairs) => {
            let v = make_container(&shape, pairs);
            let copy = v.clone();
            let ghost table = views(refs@);
            refs.set(slot, copy);
            assert(views(refs@) =~= table.update(slot as int, v@));
            Ok(v)
        },
    }
}

fn decode_array<F: Fn(Double) -> String>(
    buf: &[u8],
    pos: &mut usize,
    depth: usize,
    refs: &mut Vec<Amf0Value>,
    count: u32,
    number_text: &F,
    asked: bool,
) -> (r: Result<Amf0Value>)
    requires
        depth <= 64,
        *old(pos) <= buf@.len(),
        forall|d: Double| call_requires(*number_text, (d,)),
    ensures
        forall|texts: TextRule|
            told(*number_text, asked, texts) || needs_no_text(
                array_at(
                    buf@,
                    *old(pos) as int,
                    depth as nat,
                    views(old(refs)@),
                    count as nat,
                    None,
                ),
            ) ==> reads_as(
                r,
                *final(pos),
                final(refs)@,
                #[trigger] array_at(
                    buf@,
                    *old(pos) as int,
                    depth as nat,
                    views(old(refs)@),
                    count as nat,
                    texts,
                ),
            ),
        r is Ok ==> *old(pos) <= *final(pos) <= buf@.len() && final(refs)@.len() >= old(
            refs,
        )@.len(),
    decreases 64 - depth, 2int,
{
    let slot: usize = refs.len();
    let ghost before = views(refs@);
    let empty = Amf0Value::StrictArray(Vec::new());
    proof {
        lemma_container_views(empty);
        assert(empty@->StrictArray_0 =~= Seq::empty());
    }
    refs.push(empty);
    assert(views(refs@) =~= before.push(Amf0::StrictArray(Seq::empty())));
    match read_items_at_depth(buf, pos, depth, refs, count, number_text, asked) {
        Err(e) => Err(e),
        Ok(items) => {
            let v = Amf0Value::StrictArray(items);
            let copy = v.clone();
            let ghost table = views(refs@);
            refs.set(slot, copy);
            proof {
                lemma_container_views(v);
                assert(views(refs@) =~= table.update(slot as int, v@));
            }
            Ok(v)
        },
    }
}

/// Whether an outcome of reading named values is the one that the model gives.
spec fn pairs_read_as(
    r: Result<Vec<(String, Amf0Value)>>,
    pos: usize,
    refs: Seq<Amf0Value>,
    expected: core::result::Result<DecodedPairs, Failure>,
) -> bool {
    match r {
        Ok(pairs) => expected == Ok::<DecodedPairs, Failure>(
            DecodedPairs { pairs: pair_views(pairs@), pos: pos as int, refs: views(refs) },
        ),
        Err(e) => expected == Err::<DecodedPairs, Failure>(
            Failure { fault: e@, pos: pos as int },
        ),
    }
}

fn read_object_body_at_depth<F: Fn(Double) -> String>(
    buf: &[u8],
    pos: &mut usize,
    depth: usize,
    refs: &mut Vec<Amf0Value>,
    number_text: &F,
    asked: bool,
) -> (r: Result<Vec<(String, Amf0Value)>>)
    requires
        depth <= 64,
        forall|d: Double| call_requires(*number_text, (d,)),
    ensures
        forall|texts: TextRule|
            told(*number_text, asked, texts) || needs_no_text(
                pairs_at(buf@, *old(pos) as int, depth as nat, views(old(refs)@), None),
            ) ==> pairs_read_as(
                r,
                *final(pos),
                final(refs)@,
                #[trigger] pairs_at(
                    buf@,
                    *old(pos) as int,
                    depth as nat,
                    views(old(refs)@),
                    texts,
                ),
            ),
        r is Ok ==> *old(pos) < *final(pos) <= buf@.len() && final(refs)@.len() >= old(
            refs,
        )@.len(),
    decreases 64 - depth, 1int,
{
    let mut out: Vec<(String, Amf0Value)> = Vec::new();
    let ghost at = *pos as int;
    let ghost table = views(refs@);
    let ghost bare = pairs_at(buf@, at, depth as nat, table, None);
    proof {
        assert(pair_views(out@) =~= Seq::empty());
        assert forall|texts: TextRule| #[trigger] pairs_at(buf@, at, depth as nat, table, texts)
            == more_pairs(
            pair_views(out@),
            pairs_at(buf@, at, depth as nat, table, texts),
        ) by {
            lemma_more_pairs_twice(
                Seq::empty(),
                Seq::empty(),
                pairs_at(buf@, at, depth as nat, table, texts),
            );
        }
    }
    loop
        invariant
            depth <= 64,
            forall|d: Double| call_requires(*number_text, (d,)),
            at == *old(pos),
            table == views(old(refs)@),
            at <= *pos,
            refs@.len() >= old(refs)@.len(),
            bare == pairs_at(buf@, at, depth as nat, table, None),
            forall|texts: TextRule|
                told(*number_text, asked, texts) || needs_no_text(bare) ==> #[trigger] pairs_at(
                    buf@,
                    at,
                    depth as nat,
                    table,
                    texts,
                ) == more_pairs(
                    pair_views(out@),
                    pairs_at(buf@, *pos as int, depth as nat, views(refs@), texts),
                ),
        decreases buf@.len() - *pos,
    {
        let ghost done = pair_views(out@);
        let ghost here = *pos as int;
        let ghost known = views(refs@);
        let key = match read_utf8_short(buf, pos) {
            Err(e) => {
                return Err(e);
            },
            Ok(k) => k,
        };
        if key.as_str().is_empty() {
            let p: usize = *pos;
            if p >= buf.len() {
                return Err(invalid_amf0("truncated"));
            }
            *pos = p + 1;
            let end: u8 = buf[p];
            if end == M_OBJECT_END {
                assert(done + Seq::empty() =~= done);
                return Ok(out);
            }
            let digits = hex_text(end as u64);
            return Err(
                Error::InvalidAmf0(
                    cat(
                        "expected OBJECT_END (0x09) after empty key, got 0x",
                        digits.as_str(),
                    ),
                ),
            );
        }
        let ghost p = *pos as int;
        proof {
            if needs_no_text(bare) {
                assert(needs_no_text(pairs_at(buf@, here, depth as nat, known, None)));
                assert(needs_no_text(decode_at(buf@, p, depth as nat, known, None)));
            }
        }
        let value = match decode_at_depth(buf, pos, depth, refs, number_text, asked) {
            Err(e) => {
                proof {
                    assert forall|texts: TextRule|
                        told(*number_text, asked, texts) || needs_no_text(
                            bare,
                        ) implies #[trigger] pairs_at(buf@, at, depth as nat, table, texts) == Err::<
                        DecodedPairs,
                        Failure,
                    >(Failure { fault: e@, pos: *pos as int }) by {
                        assert(reads_as(
                            Err::<Amf0Value, Error>(e),
                            *pos,
                            refs@,
                            decode_at(buf@, p, depth as nat, known, texts),
                        ));
                    }
                }
                return Err(e);
            },
            Ok(v) => v,
        };
        let ghost pair = (key@, value@);
        out.push((key, value));
        proof {
            assert(pair_views(out@) =~= done + seq![pair]);
            assert forall|texts: TextRule|
                told(*number_text, asked, texts) || needs_no_text(bare) implies #[trigger] pairs_at(
                buf@,
                at,
                depth as nat,
                table,
                texts,
            ) == more_pairs(
                pair_views(out@),
                pairs_at(buf@, *pos as int, depth as nat, views(refs@), texts),
            ) by {
                let rest = pairs_at(buf@, *pos as int, depth as nat, views(refs@), texts);
                assert(reads_as(
                    Ok::<Amf0Value, Error>(value),
                    *pos,
                    refs@,
                    decode_at(buf@, p, depth as nat, known, texts),
                ));
                assert(pairs_at(buf@, here, depth as nat, known, texts) == more_pairs(
                    seq![pair],
                    rest,
                ));
                lemma_more_pairs_twice(done, seq![pair], rest);
            }
        }
    }
}

/// Whether an outcome of reading values is the one that the model gives.
spec fn items_read_as(
    r: Result<Vec<Amf0Value>>,
    pos: usize,
    refs: Seq<Amf0Value>,
    expected: core::result::Result<DecodedItems, Failure>,
) -> bool {
    match r {
        Ok(items) => expected == Ok::<DecodedItems, Failure>(
            DecodedItems { items: views(items@), pos: pos as int, refs: views(refs) },
        ),
        Err(e) => expected == Err::<DecodedItems, Failure>(
            Failure { fault: e@, pos: pos as int },
        ),
    }
}

fn read_items_at_depth<F: Fn(Double) -> String>(
    buf: &[u8],
    pos: &mut usize,
    depth: usize,
    refs: &mut Vec<Amf0Value>,
    count: u32,
    number_text: &F,
    asked: bool,
) -> (r: Result<Vec<Amf0Value>>)
    requires
        depth <= 64,
        *old(pos) <= buf@.len(),
        forall|d: Double| call_requires(*number_text, (d,)),
    ensures
        forall|texts: TextRule|
            told(*number_text, asked, texts) || needs_no_text(
                items_at(
                    buf@,
                    *old(pos) as int,
                    depth as nat,
                    views(old(refs)@),
                    count as nat,
                    None,
                ),
            ) ==> items_read_as(
                r,
                *final(pos),
                final(refs)@,
                #[trigger] items_at(
                    buf@,
                    *old(pos) as int,
                    depth as nat,
                    views(old(refs)@),
                    count as nat,
                    texts,
                ),
            ),
        r is Ok ==> *old(pos) <= *final(pos) <= buf@.len() && final(refs)@.len() >= old(
            refs,
        )@.len(),
    decreases 64 - depth, 1int,
{
    let mut items: Vec<Amf0Value> = Vec::new();
    let mut i: u32 = 0;
    let ghost at = *pos as int;
    let ghost table = views(refs@);
    let ghost bare = items_at(buf@, at, depth as nat, table, count as nat, None);
    proof {
        assert(views(items@) =~= Seq::empty());
        assert forall|texts: TextRule| #[trigger]
            items_at(buf@, at, depth as nat, table, count as nat, texts) == more_items(
            views(items@),
            items_at(buf@, at, depth as nat, table, count as nat, texts),
        ) by {
            lemma_more_items_twice(
                Seq::empty(),
                Seq::empty(),
                items_at(buf@, at, depth as nat, table, count as nat, texts),
            );
        }
    }
    while i < count
        invariant
            i <= count,
            depth <= 64,
            forall|d: Double| call_requires(*number_text, (d,)),
            at == *old(pos),
            table == views(old(refs)@),
            at <= *pos <= buf@.len(),
            refs@.len() >= old(refs)@.len(),
            bare == items_at(buf@, at, depth as nat, table, count as nat, None),
            forall|texts: TextRule|
                told(*number_text, asked, texts) || needs_no_text(bare) ==> #[trigger] items_at(
                    buf@,
                    at,
                    depth as nat,
                    table,
                    count as nat,
                    texts,
                ) == more_items(
                    views(items@),
                    items_at(
                        buf@,
                        *pos as int,
                        depth as nat,
                        views(refs@),
                        (count - i) as nat,
                        texts,
                    ),
                ),
        decreases count - i,
    {
        let ghost done = views(items@);
        let ghost here = *pos as int;
        let ghost known = views(refs@);
        let ghost left = (count - i) as nat;
        proof {
            if needs_no_text(bare) {
                assert(needs_no_text(items_at(buf@, here, depth as nat, known, left, None)));
                assert(needs_no_text(decode_at(buf@, here, depth as nat, known, None)));
            }
        }
        match decode_at_depth(buf, pos, depth, refs, number_text, asked) {
            Err(e) => {
                proof {
                    assert forall|texts: TextRule|
                        told(*number_text, asked, texts) || needs_no_text(
                            bare,
                        ) implies #[trigger] items_at(
                        buf@,
                        at,
                        depth as nat,
                        table,
                        count as nat,
                        texts,
                    ) == Err::<DecodedItems, Failure>(Failure { fault: e@, pos: *pos as int }) by {
                        assert(reads_as(
                            Err::<Amf0Value, Error>(e),
                            *pos,
                            refs@,
                            decode_at(buf@, here, depth as nat, known, texts),
                        ));
                    }
                }
                return Err(e);
            },
            Ok(v) => {
                let ghost value = v@;
                items.push(v);
                proof {
                    assert(views(items@) =~= done + seq![value]);
                    assert forall|texts: TextRule|
                        told(*number_text, asked, texts) || needs_no_text(
                            bare,
                        ) implies #[trigger] items_at(
                        buf@,
                        at,
                        depth as nat,
                        table,
                        count as nat,
                        texts,
                    ) == more_items(
                        views(items@),
                        items_at(
                            buf@,
                            *pos as int,
                            depth as nat,
                            views(refs@),
                            (left - 1) as nat,
                            texts,
                        ),
                    ) by {
                        let rest = items_at(
                            buf@,
                            *pos as int,
                            depth as nat,
                            views(refs@),
                            (left - 1) as nat,
                            texts,
                        );
                        assert(reads_as(
                            Ok::<Amf0Value, Error>(v),
                            *pos,
                            refs@,
                            decode_at(buf@, here, depth as nat, known, texts),
                        ));
                        assert(items_at(buf@, here, depth as nat, known, left, texts)
                            == more_items(seq![value], rest));
                        lemma_more_items_twice(done, seq![value], rest);
                    }
                }
            },
        }
        i = i + 1;
    }
    proof {
        assert(views(items@) + Seq::empty() =~= views(items@));
    }
    Ok(items)
}

/// Read one value at `*pos` and move `*pos` behind it, or to where reading
/// failed. References reach the objects inside the same value; see
/// [`decode_all`] for those of a whole message.
pub fn decode(buf: &[u8], pos: &mut usize) -> (r: Result<Amf0Value>)
    ensures
        match r {
            Ok(v) => {
                let d = decode_at(buf@, *old(pos) as int, 0, Seq::empty(), None);
                d is Ok && d->Ok_0.value == v@ && d->Ok_0.pos == *final(pos)
            },
            Err(e) => decode_at(buf@, *old(pos) as int, 0, Seq::empty(), None) == Err::<
                Decoded,
                Failure,
            >(Failure { fault: e@, pos: *final(pos) as int }),
        },
{
    let mut refs: Vec<Amf0Value> = Vec::new();
    assert(views(refs@) =~= Seq::empty());
    assert(told(no_number_text, false, None));
    decode_at_depth(buf, pos, 0, &mut refs, &no_number_text, false)
}

/// The values of a whole message.
pub open spec fn values_of(s: Seq<u8>) -> core::result::Result<Seq<Amf0>, Fault> {
    values_with(s, None)
}

/// The values of a whole message, where `texts` says what the text of a double is.
pub open spec fn values_with(s: Seq<u8>, texts: TextRule) -> core::result::Result<
    Seq<Amf0>,
    Fault,
> {
    match values_at(s, 0, Seq::empty(), texts) {
        Ok(d) => Ok(d.items),
        Err(e) => Err(e.fault),
    }
}

fn read_values<F: Fn(Double) -> String>(buf: &[u8], number_text: &F, asked: bool) -> (r: Result<
    Vec<Amf0Value>,
>)
    requires
        forall|d: Double| call_requires(*number_text, (d,)),
    ensures
        forall|texts: TextRule|
            told(*number_text, asked, texts) || values_of(buf@) != Err::<Seq<Amf0>, Fault>(
                no_text_fault(),
            ) ==> outcome_of(r) == #[trigger] values_with(buf@, texts),
{
    let mut pos: usize = 0;
    let mut out: Vec<Amf0Value> = Vec::new();
    let mut refs: Vec<Amf0Value> = Vec::new();
    let ghost none = Seq::<Amf0>::empty();
    let ghost bare = values_at(buf@, 0, none, None);
    proof {
        assert(views(out@) =~= none);
        assert(views(refs@) =~= none);
        assert forall|texts: TextRule| #[trigger] values_at(buf@, 0, none, texts) == more_items(
            views(out@),
            values_at(buf@, 0, none, texts),
        ) by {
            lemma_more_items_twice(none, none, values_at(buf@, 0, none, texts));
        }
    }
    while pos < buf.len()
        invariant
            forall|d: Double| call_requires(*number_text, (d,)),
            none == Seq::<Amf0>::empty(),
            bare == values_at(buf@, 0, none, None),
            forall|texts: TextRule|
                told(*number_text, asked, texts) || needs_no_text(bare) ==> #[trigger] values_at(
                    buf@,
                    0,
                    none,
                    texts,
                ) == more_items(views(out@), values_at(buf@, pos as int, views(refs@), texts)),
        decreases buf@.len() - pos,
    {
        let ghost done = views(out@);
        let ghost here = pos as int;
        let ghost known = views(refs@);
        proof {
            if needs_no_text(bare) {
                assert(needs_no_text(values_at(buf@, here, known, None)));
                assert(needs_no_text(decode_at(buf@, here, 0, known, None)));
            }
        }
        match decode_at_depth(buf, &mut pos, 0, &mut refs, number_text, asked) {
            Err(e) => {
                proof {
                    assert forall|texts: TextRule|
                        told(*number_text, asked, texts) || needs_no_text(
                            bare,
                        ) implies #[trigger] values_at(buf@, 0, none, texts) == Err::<
                        DecodedItems,
                        Failure,
                    >(Failure { fault: e@, pos: pos as int }) by {
                        assert(reads_as(
                            Err::<Amf0Value, Error>(e),
                            pos,
                            refs@,
                            decode_at(buf@, here, 0, known, texts),
                        ));
                    }
                }
                return Err(e);
            },
            Ok(v) => {
                let ghost value = v@;
                out.push(v);
                proof {
                    assert(views(out@) =~= done + seq![value]);
                    assert forall|texts: TextRule|
                        told(*number_text, asked, texts) || needs_no_text(
                            bare,
                        ) implies #[trigger] values_at(buf@, 0, none, texts) == more_items(
                        views(out@),
                        values_at(buf@, pos as int, views(refs@), texts),
                    ) by {
                        let rest = values_at(buf@, pos as int, views(refs@), texts);
                        assert(reads_as(
                            Ok::<Amf0Value, Error>(v),
                            pos,
                            refs@,
                            decode_at(buf@, here, 0, known, texts),
                        ));
                        assert(values_at(buf@, here, known, texts) == more_items(
                            seq![value],
                            rest,
                        ));
                        lemma_more_items_twice(done, seq![value], rest);
                    }
                }
            },
        }
    }
    assert(views(out@) + none =~= views(out@));
    Ok(out)
}

/// What reading a whole message came to.
pub open spec fn outcome_of(r: Result<Vec<Amf0Value>>) -> core::result::Result<Seq<Amf0>, Fault> {
    match r {
        Ok(v) => Ok(views(v@)),
        Err(e) => Err(e@),
    }
}

/// Read values until the input is used up. References reach all that came before
/// in `buf`. An AMF3 dictionary with a double for a key is an error; see
/// [`decode_all_with`].
pub fn decode_all(buf: &[u8]) -> (r: Result<Vec<Amf0Value>>)
    ensures
        match r {
            Ok(v) => values_of(buf@) == Ok::<Seq<Amf0>, Fault>(views(v@)),
            Err(e) => values_of(buf@) == Err::<Seq<Amf0>, Fault>(e@),
        },
{
    assert(told(no_number_text, false, None));
    read_values(buf, &no_number_text, false)
}

/// Read values as [`decode_all`] does. `number_text` gives the text of a double that is
/// a key of an AMF3 dictionary; where there is none, it does not matter.
pub fn decode_all_with<F: Fn(Double) -> String>(buf: &[u8], number_text: &F) -> (r: Result<
    Vec<Amf0Value>,
>)
    requires
        forall|d: Double| call_requires(*number_text, (d,)),
    ensures
        forall|text: spec_fn(u64) -> Seq<char>|
            gives(*number_text, text) ==> outcome_of(r) == #[trigger] values_with(
                buf@,
                Some(text),
            ),
        values_of(buf@) != Err::<Seq<Amf0>, Fault>(no_text_fault()) ==> outcome_of(r)
            == values_of(buf@),
{
    let r = read_values(buf, number_text, true);
    proof {
        assert forall|text: spec_fn(u64) -> Seq<char>| gives(*number_text, text) implies outcome_of(
            r,
        ) == #[trigger] values_with(buf@, Some(text)) by {
            assert(told(*number_text, true, Some(text)));
        }
    }
    r
}

// ---------------------------------------------------------------------------
// Encoding
// ---------------------------------------------------------------------------

/// A text with a 16-bit length, of which the low bits are kept.
pub open spec fn short_text_bytes(t: Seq<char>) -> Seq<u8> {
    be16_bytes((encode_utf8(t).len() % 0x1_0000) as u16) + encode_utf8(t)
}

/// A text with a 32-bit length, of which the low bits are kept.
pub open spec fn long_text_bytes(t: Seq<char>) -> Seq<u8> {
    be32_bytes((encode_utf8(t).len() % 0x1_0000_0000) as u32) + encode_utf8(t)
}

/// A 32-bit count, of which the low bits are kept.
pub open spec fn count_bytes(n: nat) -> Seq<u8> {
    be32_bytes((n % 0x1_0000_0000) as u32)
}

/// The bytes of a value. A string takes the short form if it fits; a document
/// never does.
pub open spec fn encoded(v: Amf0) -> Seq<u8>
    decreases v,
{
    match v {
        Amf0::Number(n) => seq![M_NUMBER] + be64_bytes(n),
        Amf0::Boolean(b) => seq![
            M_BOOLEAN,
            if b {
                1
            } else {
                0
            },
        ],
        Amf0::String(t) => if encode_utf8(t).len() <= 0xFFFF {
            seq![M_STRING] + short_text_bytes(t)
        } else {
            seq![M_LONG_STRING] + long_text_bytes(t)
        },
        Amf0::Object(p) => seq![M_OBJECT] + pairs_bytes(p),
        Amf0::Null => seq![M_NULL],
        Amf0::Undefined => seq![M_UNDEFINED],
        Amf0::EcmaArray(p) => seq![M_ECMA_ARRAY] + count_bytes(p.len()) + pairs_bytes(p),
        Amf0::StrictArray(a) => seq![M_STRICT_ARRAY] + count_bytes(a.len()) + items_bytes(a),
        Amf0::Date { millis, timezone } => seq![M_DATE] + be64_bytes(millis) + be16_bytes(
            bits16(timezone),
        ),
        Amf0::XmlDocument(t) => seq![M_XML_DOCUMENT] + long_text_bytes(t),
        Amf0::TypedObject { class_name, pairs } => seq![M_TYPED_OBJECT] + short_text_bytes(
            class_name,
        ) + pairs_bytes(pairs),
        Amf0::Unsupported => seq![M_UNSUPPORTED],
    }
}

/// The bytes of named values, with their end marker.
pub open spec fn pairs_bytes(p: Seq<(Seq<char>, Amf0)>) -> Seq<u8>
    decreases p,
{
    if p.len() == 0 {
        seq![0u8, 0, M_OBJECT_END]
    } else {
        short_text_bytes(p[0].0) + encoded(p[0].1) + pairs_bytes(p.subrange(1, p.len() as int))
    }
}

/// The bytes of a run of values.
pub open spec fn items_bytes(a: Seq<Amf0>) -> Seq<u8>
    decreases a,
{
    if a.len() == 0 {
        Seq::empty()
    } else {
        encoded(a[0]) + items_bytes(a.subrange(1, a.len() as int))
    }
}

fn put_short_text(out: &mut Vec<u8>, t: &str)
    ensures
        final(out)@ == old(out)@ + short_text_bytes(t@),
{
    let bytes = t.as_bytes();
    put_be16(out, (bytes.len() % 0x1_0000) as u16);
    put_bytes(out, bytes);
    assert(out@ =~= old(out)@ + short_text_bytes(t@));
}

fn put_long_text(out: &mut Vec<u8>, t: &str)
    ensures
        final(out)@ == old(out)@ + long_text_bytes(t@),
{
    let bytes = t.as_bytes();
    put_be32(out, (bytes.len() as u64 % 0x1_0000_0000) as u32);
    put_bytes(out, bytes);
    assert(out@ =~= old(out)@ + long_text_bytes(t@));
}

fn bits_from(v: i16) -> (n: u16)
    ensures
        n == bits16(v),
{
    if v < 0 {
        (v as i32 + 0x1_0000) as u16
    } else {
        v as u16
    }
}

/// Append a value.
pub fn encode(out: &mut Vec<u8>, v: &Amf0Value)
    ensures
        final(out)@ == old(out)@ + encoded(v@),
    decreases v,
{
    proof {
        lemma_container_views(*v);
    }
    match v {
        Amf0Value::Number(n) => {
            out.push(M_NUMBER);
            put_be64(out, n.bits);
        },
        Amf0Value::Boolean(b) => {
            out.push(M_BOOLEAN);
            out.push(
                if *b {
                    1
                } else {
                    0
                },
            );
        },
        Amf0Value::String(s) => {
            if s.as_str().as_bytes().len() <= 0xFFFF {
                out.push(M_STRING);
                put_short_text(out, s.as_str());
            } else {
                out.push(M_LONG_STRING);
                put_long_text(out, s.as_str());
            }
        },
        Amf0Value::Object(p) => {
            out.push(M_OBJECT);
            write_object_body(out, p);
        },
        Amf0Value::Null => {
            out.push(M_NULL);
        },
        Amf0Value::Undefined => {
            out.push(M_UNDEFINED);
        },
        Amf0Value::EcmaArray(p) => {
            out.push(M_ECMA_ARRAY);
            put_be32(out, (p.len() as u64 % 0x1_0000_0000) as u32);
            write_object_body(out, p);
        },
        Amf0Value::StrictArray(a) => {
            out.push(M_STRICT_ARRAY);
            put_be32(out, (a.len() as u64 % 0x1_0000_0000) as u32);
            write_items(out, a);
        },
        Amf0Value::Date { millis, timezone } => {
            out.push(M_DATE);
            put_be64(out, millis.bits);
            put_be16(out, bits_from(*timezone));
        },
        Amf0Value::XmlDocument(s) => {
            out.push(M_XML_DOCUMENT);
            put_long_text(out, s.as_str());
        },
        Amf0Value::TypedObject { class_name, pairs } => {
            out.push(M_TYPED_OBJECT);
            put_short_text(out, class_name.as_str());
            write_object_body(out, pairs);
        },
        Amf0Value::Unsupported => {
            out.push(M_UNSUPPORTED);
        },
    }
    assert(out@ =~= old(out)@ + encoded(v@));
}

fn write_object_body(out: &mut Vec<u8>, pairs: &Vec<(String, Amf0Value)>)
    ensures
        final(out)@ == old(out)@ + pairs_bytes(pair_views(pairs@)),
    decreases pairs,
{
    let ghost all = pair_views(pairs@);
    let mut i: usize = 0;
    assert(all.subrange(0, all.len() as int) =~= all);
    while i < pairs.len()
        invariant
            all == pair_views(pairs@),
            i <= pairs@.len(),
            out@ + pairs_bytes(all.subrange(i as int, all.len() as int)) == old(out)@
                + pairs_bytes(all),
        decreases pairs@.len() - i,
    {
        let ghost was = out@;
        let ghost rest = all.subrange(i as int, all.len() as int);
        put_short_text(out, pairs[i].0.as_str());
        encode(out, &pairs[i].1);
        proof {
            let more = all.subrange(i + 1, all.len() as int);
            assert(rest.subrange(1, rest.len() as int) =~= more);
            let key = short_text_bytes(rest[0].0);
            let value = encoded(rest[0].1);
            assert(was + key + value + pairs_bytes(more) =~= was + (key + value + pairs_bytes(
                more,
            )));
        }
        i = i + 1;
    }
    out.push(0);
    out.push(0);
    out.push(M_OBJECT_END);
    assert(out@ =~= old(out)@ + pairs_bytes(all));
}

fn write_items(out: &mut Vec<u8>, items: &Vec<Amf0Value>)
    ensures
        final(out)@ == old(out)@ + items_bytes(views(items@)),
    decreases items,
{
    let ghost all = views(items@);
    let mut i: usize = 0;
    assert(all.subrange(0, all.len() as int) =~= all);
    while i < items.len()
        invariant
            all == views(items@),
            i <= items@.len(),
            out@ + items_bytes(all.subrange(i as int, all.len() as int)) == old(out)@
                + items_bytes(all),
        decreases items@.len() - i,
    {
        let ghost was = out@;
        let ghost rest = all.subrange(i as int, all.len() as int);
        encode(out, &items[i]);
        proof {
            let more = all.subrange(i + 1, all.len() as int);
            assert(rest.subrange(1, rest.len() as int) =~= more);
            assert(was + encoded(rest[0]) + items_bytes(more) =~= was + (encoded(rest[0])
                + items_bytes(more)));
        }
        i = i + 1;
    }
    assert(out@ + Seq::empty() =~= out@);
}

fn write_args(out: &mut Vec<u8>, args: &[Amf0Value])
    ensures
        final(out)@ == old(out)@ + items_bytes(views(args@)),
{
    let ghost all = views(args@);
    let mut i: usize = 0;
    assert(all.subrange(0, all.len() as int) =~= all);
    while i < args.len()
        invariant
            all == views(args@),
            i <= args@.len(),
            out@ + items_bytes(all.subrange(i as int, all.len() as int)) == old(out)@
                + items_bytes(all),
        decreases args@.len() - i,
    {
        let ghost was = out@;
        let ghost rest = all.subrange(i as int, all.len() as int);
        encode(out, &args[i]);
        proof {
            let more = all.subrange(i + 1, all.len() as int);
            assert(rest.subrange(1, rest.len() as int) =~= more);
            assert(was + encoded(rest[0]) + items_bytes(more) =~= was + (encoded(rest[0])
                + items_bytes(more)));
        }
        i = i + 1;
    }
    assert(out@ + Seq::empty() =~= out@);
}

/// The payload of a command: its name, transaction id, command object and
/// arguments.
pub open spec fn command_bytes(
    name: Seq<char>,
    transaction_id: u64,
    object: Amf0,
    args: Seq<Amf0>,
) -> Seq<u8> {
    items_bytes(seq![Amf0::String(name), Amf0::Number(transaction_id), object] + args)
}

/// The payload of a command.
pub fn encode_command(
    name: &str,
    transaction_id: Double,
    command_object: Amf0Value,
    args: &[Amf0Value],
) -> (out: Vec<u8>)
    ensures
        out@ == command_bytes(name@, transaction_id.bits, command_object@, views(args@)),
{
    let mut out: Vec<u8> = Vec::new();
    encode(&mut out, &Amf0Value::String(name.to_owned()));
    encode(&mut out, &Amf0Value::Number(transaction_id));
    encode(&mut out, &command_object);
    write_args(&mut out, args);
    proof {
        let a = Amf0::String(name@);
        let b = Amf0::Number(transaction_id.bits);
        let c = command_object@;
        let all = seq![a, b, c] + views(args@);
        let one = all.subrange(1, all.len() as int);
        let two = one.subrange(1, one.len() as int);
        assert(two.subrange(1, two.len() as int) =~= views(args@));
        assert(out@ =~= encoded(a) + (encoded(b) + (encoded(c) + items_bytes(views(args@)))));
        assert(items_bytes(two) == encoded(c) + items_bytes(views(args@)));
        assert(items_bytes(one) == encoded(b) + items_bytes(two));
        assert(items_bytes(all) == encoded(a) + items_bytes(one));
    }
    out
}

/// An object with the given named values.
pub fn obj(pairs: Vec<(String, Amf0Value)>) -> (v: Amf0Value)
    ensures
        v@ == Amf0::Object(pair_views(pairs@)),
{
    let v = Amf0Value::Object(pairs);
    proof {
        lemma_container_views(v);
    }
    v
}

} // verus!
