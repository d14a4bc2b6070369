//! Reading AMF3.

use vstd::prelude::*;
#[allow(unused_imports)]
use vstd::utf8::{decode_utf8, valid_utf8};
use crate::amf::Failure;
#[allow(unused_imports)]
use crate::amf::failed;
use crate::amf3::u29::{read_u29, sign_extend_29};
#[allow(unused_imports)]
use crate::amf3::u29::{signed29, u29_at};
use crate::amf3::value::Amf3Value;
#[allow(unused_imports)]
use crate::amf3::value::{double_bits, entry_views, lemma_container_views, member_views, Amf3};
use crate::amf3::{
    M_ARRAY, M_BYTE_ARRAY, M_DATE, M_DICTIONARY, M_DOUBLE, M_FALSE, M_INTEGER, M_NULL, M_OBJECT,
    M_STRING, M_TRUE, M_UNDEFINED, M_VECTOR_DOUBLE, M_VECTOR_OBJECT, M_VECTOR_UINT, M_XML,
    M_XML_DOC,
};
use crate::error::{invalid_amf0, Error, Result};
#[allow(unused_imports)]
use crate::error::{outcome, Fault};
#[allow(unused_imports)]
use crate::model::views;
use crate::number::Double;
use crate::text::{cat, cat3, cat4, cat5, decimal_text, hex_text, quoted_text, same_text, utf8_text};
#[allow(unused_imports)]
use crate::text::{decimal, numeral, quoted, utf8_fault_text};
use crate::wire::{copy_range, get_be32, get_be64};
#[allow(unused_imports)]
use crate::wire::{be32, be64};

verus! {

/// How deep containers may nest when decoding.
pub const MAX_DECODE_DEPTH: usize = 64;

/// The AMF0 marker that switches to AMF3 for one value.
pub const AVMPLUS_OBJECT_MARKER: u8 = 0x11;

/// What knows where the body of an externalizable class ends.
///
/// Such a class writes its own bytes, and only an agreement between sender and
/// receiver says how many there are. A reader answers for one class, and always
/// gives the same answer for the same bytes.
pub trait ExternalizableReader {
    /// How many bytes the body at offset `start` takes. A reader of which nothing is
    /// proved leaves this open.
    closed spec fn length_at(&self, s: Seq<u8>, start: int) -> core::result::Result<usize, Fault> {
        vstd::pervasive::arbitrary()
    }

    /// How many bytes the body at offset `start` takes.
    fn body_len(&self, buf: &[u8], start: usize) -> (r: Result<usize>)
        requires
            start <= buf@.len(),
        ensures
            outcome(r) == self.length_at(buf@, start as int),
    ;
}

/// A body that always takes the same number of bytes.
#[derive(Debug, Clone, Copy)]
pub struct FixedBody {
    pub len: usize,
}

impl ExternalizableReader for FixedBody {
    open spec fn length_at(&self, s: Seq<u8>, start: int) -> core::result::Result<usize, Fault> {
        Ok(self.len)
    }

    fn body_len(&self, buf: &[u8], start: usize) -> (r: Result<usize>) {
        Ok(self.len)
    }
}

// ---------------------------------------------------------------------------
// The model
// ---------------------------------------------------------------------------

/// What the members of an object are called.
pub struct TraitView {
    pub class_name: Seq<char>,
    pub dynamic: bool,
    pub externalizable: bool,
    pub names: Seq<Seq<char>>,
}

/// What can be referred to.
pub struct Tables {
    pub strings: Seq<Seq<char>>,
    pub objects: Seq<Amf3>,
    pub traits: Seq<TraitView>,
}

/// What reading came to, where it stopped, and the tables then.
pub struct Step<T> {
    pub out: core::result::Result<T, Fault>,
    pub pos: int,
    pub tables: Tables,
}

/// Readers by class.
pub type Readers = Seq<(String, Box<dyn ExternalizableReader>)>;

/// Reading that failed.
pub open spec fn stopped<T>(fault: Fault, pos: int, tables: Tables) -> Step<T> {
    Step { out: Err(fault), pos, tables }
}

/// Reading that gave a value.
pub open spec fn given<T>(v: T, pos: int, tables: Tables) -> Step<T> {
    Step { out: Ok(v), pos, tables }
}

impl Tables {
    /// Empty tables.
    pub open spec fn new() -> Tables {
        Tables { strings: Seq::empty(), objects: Seq::empty(), traits: Seq::empty() }
    }

    /// With one more object.
    pub open spec fn with_object(self, v: Amf3) -> Tables {
        Tables { objects: self.objects.push(v), ..self }
    }

    /// With the object at `slot` replaced.
    pub open spec fn filled(self, slot: int, v: Amf3) -> Tables {
        Tables { objects: self.objects.update(slot, v), ..self }
    }
}

/// What the reader for a class answers; `None` if there is none.
pub open spec fn answer(h: Readers, i: int, class: Seq<char>, s: Seq<u8>, pos: int) -> Option<
    core::result::Result<usize, Fault>,
>
    decreases h.len() - i,
{
    if i >= h.len() {
        None
    } else if h[i].0@ == class {
        Some(h[i].1.length_at(s, pos))
    } else {
        answer(h, i + 1, class, s, pos)
    }
}

/// The `len` bytes of text at offset `pos`, and where they end.
pub open spec fn text_body(s: Seq<u8>, pos: int, len: int) -> core::result::Result<
    (Seq<char>, int),
    Failure,
> {
    let bytes = s.subrange(pos, pos + len);
    if s.len() < pos + len {
        Err(
            failed(
                "amf3 truncated string: need "@ + decimal(len as nat) + ", have "@ + decimal(
                    (s.len() - pos) as nat,
                ),
                pos,
            ),
        )
    } else if !valid_utf8(bytes) {
        Err(failed("amf3 non-UTF8 string: "@ + utf8_fault_text(bytes), pos))
    } else {
        Ok((decode_utf8(bytes), pos + len))
    }
}

/// The string at offset `pos`: a place in the table, or a text that takes the
/// next place in it unless it is empty.
pub open spec fn string_at(s: Seq<u8>, pos: int, t: Tables) -> Step<Seq<char>> {
    match u29_at(s, pos) {
        Err(f) => stopped(f.fault, f.pos, t),
        Ok((h, p)) => if h % 2 == 0 {
            if h / 2 < t.strings.len() {
                given(t.strings[(h / 2) as int], p, t)
            } else {
                stopped(
                    Fault::InvalidAmf0(
                        "amf3 string ref "@ + decimal((h / 2) as nat) + " out of range"@,
                    ),
                    p,
                    t,
                )
            }
        } else {
            match text_body(s, p, (h / 2) as int) {
                Err(f) => stopped(f.fault, f.pos, t),
                Ok((text, q)) => given(
                    text,
                    q,
                    if text.len() == 0 {
                        t
                    } else {
                        Tables { strings: t.strings.push(text), ..t }
                    },
                ),
            }
        },
    }
}

/// `n` strings from offset `pos` on.
pub open spec fn names_at(s: Seq<u8>, pos: int, t: Tables, n: nat) -> Step<Seq<Seq<char>>>
    decreases n,
{
    if n == 0 {
        given(Seq::empty(), pos, t)
    } else {
        let r = string_at(s, pos, t);
        match r.out {
            Err(f) => stopped(f, r.pos, r.tables),
            Ok(name) => before(seq![name], names_at(s, r.pos, r.tables, (n - 1) as nat)),
        }
    }
}

/// `front` before what follows.
pub open spec fn before<A>(front: Seq<A>, rest: Step<Seq<A>>) -> Step<Seq<A>> {
    match rest.out {
        Err(f) => stopped(f, rest.pos, rest.tables),
        Ok(s) => given(front + s, rest.pos, rest.tables),
    }
}

/// The traits of an object with header `h`: a place in the table, or a class
/// name and the names of the sealed members, which take the next place in it.
pub open spec fn traits_at(s: Seq<u8>, pos: int, t: Tables, h: u32) -> Step<TraitView> {
    if h / 2 % 2 == 0 {
        if h / 4 < t.traits.len() {
            given(t.traits[(h / 4) as int], pos, t)
        } else {
            stopped(
                Fault::InvalidAmf0("amf3 trait ref "@ + decimal((h / 4) as nat) + " out of range"@),
                pos,
                t,
            )
        }
    } else {
        let c = string_at(s, pos, t);
        match c.out {
            Err(f) => stopped(f, c.pos, c.tables),
            Ok(class_name) => {
                let r = names_at(s, c.pos, c.tables, (h / 16) as nat);
                match r.out {
                    Err(f) => stopped(f, r.pos, r.tables),
                    Ok(names) => {
                        let v = TraitView {
                            class_name,
                            dynamic: h / 8 % 2 == 1,
                            externalizable: h / 4 % 2 == 1,
                            names,
                        };
                        given(v, r.pos, Tables { traits: r.tables.traits.push(v), ..r.tables })
                    },
                }
            },
        }
    }
}

/// The signed value of 32 bits.
pub open spec fn signed32(v: u32) -> i32 {
    (if v >= 0x8000_0000 {
        v - 0x1_0000_0000
    } else {
        v as int
    }) as i32
}

/// `n` 32-bit values from offset `p` on, and where they end.
pub open spec fn words_at(s: Seq<u8>, p: int, n: nat) -> core::result::Result<
    (Seq<u32>, int),
    Failure,
> {
    if s.len() < p + 4 * n {
        Err(failed("amf3 truncated u32"@, p + 4 * ((s.len() - p) / 4)))
    } else {
        Ok((Seq::new(n, |i: int| be32(s, p + 4 * i)), p + 4 * n))
    }
}

/// `n` 64-bit values from offset `p` on, and where they end.
pub open spec fn long_words_at(s: Seq<u8>, p: int, n: nat) -> core::result::Result<
    (Seq<u64>, int),
    Failure,
> {
    if s.len() < p + 8 * n {
        Err(failed("amf3 truncated u64"@, p + 8 * ((s.len() - p) / 8)))
    } else {
        Ok((Seq::new(n, |i: int| be64(s, p + 8 * i)), p + 8 * n))
    }
}

/// A value without parts, written out at offset `q` after marker `m` and the
/// length or count `n`.
pub open spec fn flat_at(s: Seq<u8>, q: int, t: Tables, m: u8, n: nat) -> Step<Amf3> {
    if m == M_XML_DOC || m == M_XML {
        match text_body(s, q, n as int) {
            Err(f) => stopped(f.fault, f.pos, t),
            Ok((text, p)) => given(
                if m == M_XML {
                    Amf3::Xml(text)
                } else {
                    Amf3::XmlDocument(text)
                },
                p,
                t.with_object(Amf3::XmlDocument(text)),
            ),
        }
    } else if m == M_DATE {
        if s.len() < q + 8 {
            stopped(Fault::InvalidAmf0("amf3 truncated u64"@), q, t)
        } else {
            let v = Amf3::Date(be64(s, q));
            given(v, q + 8, t.with_object(v))
        }
    } else if m == M_BYTE_ARRAY {
        if s.len() < q + n {
            stopped(
                Fault::InvalidAmf0(
                    "amf3 truncated bytes: need "@ + decimal(n) + ", have "@ + decimal(
                        (s.len() - q) as nat,
                    ),
                ),
                q,
                t,
            )
        } else {
            let v = Amf3::ByteArray(s.subrange(q, q + n));
            given(v, q + n, t.with_object(v))
        }
    } else if s.len() <= q {
        stopped(Fault::InvalidAmf0("amf3 truncated"@), q, t)
    } else if m == M_VECTOR_DOUBLE {
        match long_words_at(s, q + 1, n) {
            Err(f) => stopped(f.fault, f.pos, t),
            Ok((doubles, p)) => {
                let v = Amf3::VectorDouble { fixed: s[q] != 0, doubles };
                given(v, p, t.with_object(v))
            },
        }
    } else {
        match words_at(s, q + 1, n) {
            Err(f) => stopped(f.fault, f.pos, t),
            Ok((words, p)) => {
                let v = if m == M_VECTOR_UINT {
                    Amf3::VectorUInt { fixed: s[q] != 0, uints: words }
                } else {
                    Amf3::VectorInt {
                        fixed: s[q] != 0,
                        ints: Seq::new(n, |i: int| signed32(words[i])),
                    }
                };
                given(v, p, t.with_object(v))
            },
        }
    }
}

/// The object that an earlier value is; a document must be one.
pub open spec fn referred(t: Tables, m: u8, idx: nat, p: int) -> Step<Amf3> {
    let xml = m == M_XML_DOC || m == M_XML;
    if idx >= t.objects.len() {
        stopped(
            Fault::InvalidAmf0(
                (if xml {
                    "amf3 xml ref "@
                } else {
                    "amf3 object ref "@
                }) + decimal(idx) + " out of range"@,
            ),
            p,
            t,
        )
    } else if !xml {
        given(t.objects[idx as int], p, t)
    } else {
        let text = match t.objects[idx as int] {
            Amf3::Xml(x) => Some(x),
            Amf3::XmlDocument(x) => Some(x),
            _ => None,
        };
        match text {
            Some(x) => given(
                if m == M_XML {
                    Amf3::Xml(x)
                } else {
                    Amf3::XmlDocument(x)
                },
                p,
                t,
            ),
            None => stopped(
                Fault::InvalidAmf0(
                    "amf3 xml ref "@ + decimal(idx) + " resolved to non-xml value"@,
                ),
                p,
                t,
            ),
        }
    }
}

/// A value whose marker says all, or that is only a number or a string; `p` is
/// behind the marker.
pub open spec fn simple_at(s: Seq<u8>, p: int, t: Tables, m: u8) -> Step<Amf3> {
    if m == M_UNDEFINED {
        given(Amf3::Undefined, p, t)
    } else if m == M_NULL {
        given(Amf3::Null, p, t)
    } else if m == M_FALSE {
        given(Amf3::Boolean(false), p, t)
    } else if m == M_TRUE {
        given(Amf3::Boolean(true), p, t)
    } else if m == M_INTEGER {
        match u29_at(s, p) {
            Err(f) => stopped(f.fault, f.pos, t),
            Ok((v, q)) => given(Amf3::Integer(signed29(v) as i32), q, t),
        }
    } else if m == M_DOUBLE {
        if s.len() < p + 8 {
            stopped(Fault::InvalidAmf0("amf3 truncated u64"@), p, t)
        } else {
            given(Amf3::Double(be64(s, p)), p + 8, t)
        }
    } else if m == M_STRING {
        let r = string_at(s, p, t);
        match r.out {
            Err(f) => stopped(f, r.pos, r.tables),
            Ok(text) => given(Amf3::String(text), r.pos, r.tables),
        }
    } else {
        stopped(Fault::InvalidAmf0("amf3: unknown marker 0x"@ + numeral(m as nat, 16)), p, t)
    }
}

/// The value at offset `pos`, nested `depth` deep.
pub open spec fn value_at(s: Seq<u8>, pos: int, depth: nat, t: Tables, h: Readers) -> Step<Amf3>
    decreases 64 - depth, 0int, 0int,
{
    if depth >= 64 {
        stopped(Fault::InvalidAmf0("amf3: nested container depth exceeded 64"@), pos, t)
    } else if s.len() <= pos {
        stopped(Fault::InvalidAmf0("amf3 truncated"@), pos, t)
    } else {
        let m = s[pos];
        if m <= M_STRING || m > M_DICTIONARY {
            simple_at(s, pos + 1, t, m)
        } else {
            match u29_at(s, pos + 1) {
                Err(f) => stopped(f.fault, f.pos, t),
                Ok((header, q)) => if header % 2 == 0 {
                    referred(t, m, (header / 2) as nat, q)
                } else if m == M_ARRAY {
                    array_at(s, q, depth + 1, t, h, (header / 2) as nat)
                } else if m == M_OBJECT {
                    let r = traits_at(s, q, t, header);
                    match r.out {
                        Err(f) => stopped(f, r.pos, r.tables),
                        Ok(v) => object_at(s, r.pos, depth + 1, r.tables, h, v),
                    }
                } else if m == M_VECTOR_OBJECT {
                    vector_at(s, q, depth + 1, t, h, (header / 2) as nat)
                } else if m == M_DICTIONARY {
                    dictionary_at(s, q, depth + 1, t, h, (header / 2) as nat)
                } else {
                    flat_at(s, q, t, m, (header / 2) as nat)
                },
            }
        }
    }
}

/// An array with `n` values by number: first come those by name. It takes its
/// place in the table before its parts do.
pub open spec fn array_at(s: Seq<u8>, pos: int, depth: nat, t: Tables, h: Readers, n: nat) -> Step<
    Amf3,
>
    decreases 64 - depth, 2int, 0int,
{
    let slot = t.objects.len() as int;
    let a = members_at(s, pos, depth, t.with_object(Amf3::Null), h);
    match a.out {
        Err(f) => stopped(f, a.pos, a.tables),
        Ok(assoc) => {
            let b = values_at(s, a.pos, depth, a.tables, h, n);
            match b.out {
                Err(f) => stopped(f, b.pos, b.tables),
                Ok(dense) => {
                    let v = Amf3::Array { dense, assoc };
                    given(v, b.pos, b.tables.filled(slot, v))
                },
            }
        },
    }
}

/// An externalizable object, of which the tables hold a place at `slot`.
pub open spec fn external_at(
    s: Seq<u8>,
    pos: int,
    t: Tables,
    h: Readers,
    class: Seq<char>,
    slot: int,
) -> Step<Amf3> {
    match answer(h, 0, class, s, pos) {
        None => stopped(
            Fault::InvalidAmf0(
                "amf3: externalizable class "@ + quoted(class)
                    + " requires a registered handler; generic decoder cannot determine body length"@,
            ),
            pos,
            t,
        ),
        Some(Err(f)) => stopped(f, pos, t),
        Some(Ok(len)) => if pos + len > usize::MAX {
            stopped(
                Fault::InvalidAmf0(
                    "amf3: externalizable class "@ + quoted(class) + " body length "@ + decimal(
                        len as nat,
                    ) + " overflows"@,
                ),
                pos,
                t,
            )
        } else if pos + len > s.len() {
            stopped(
                Fault::InvalidAmf0(
                    "amf3: externalizable class "@ + quoted(class) + " body length "@ + decimal(
                        len as nat,
                    ) + (" runs past buffer end ("@ + decimal((s.len() - pos) as nat)
                        + " byte(s) available)"@),
                ),
                pos,
                t,
            )
        } else {
            let v = Amf3::Object {
                class_name: class,
                dynamic: false,
                sealed: Seq::empty(),
                dynamic_members: Seq::empty(),
                externalizable_body: Some(s.subrange(pos, pos + len)),
            };
            given(v, pos + len, t.filled(slot, v))
        },
    }
}

/// Names and values, side by side.
pub open spec fn zipped(names: Seq<Seq<char>>, values: Seq<Amf3>) -> Seq<(Seq<char>, Amf3)> {
    Seq::new(names.len(), |i: int| (names[i], values[i]))
}

/// An object with the given traits. It takes its place in the table before its
/// members do.
pub open spec fn object_at(
    s: Seq<u8>,
    pos: int,
    depth: nat,
    t: Tables,
    h: Readers,
    traits: TraitView,
) -> Step<Amf3>
    decreases 64 - depth, 2int, 0int,
{
    let slot = t.objects.len() as int;
    let t1 = t.with_object(Amf3::Null);
    if traits.externalizable {
        external_at(s, pos, t1, h, traits.class_name, slot)
    } else {
        let a = values_at(s, pos, depth, t1, h, traits.names.len());
        match a.out {
            Err(f) => stopped(f, a.pos, a.tables),
            Ok(values) => {
                let b = if traits.dynamic {
                    members_at(s, a.pos, depth, a.tables, h)
                } else {
                    given(Seq::empty(), a.pos, a.tables)
                };
                match b.out {
                    Err(f) => stopped(f, b.pos, b.tables),
                    Ok(dynamic_members) => {
                        let v = Amf3::Object {
                            class_name: traits.class_name,
                            dynamic: traits.dynamic,
                            sealed: zipped(traits.names, values),
                            dynamic_members,
                            externalizable_body: None,
                        };
                        given(v, b.pos, b.tables.filled(slot, v))
                    },
                }
            },
        }
    }
}

/// A vector of `n` values.
pub open spec fn vector_at(s: Seq<u8>, pos: int, depth: nat, t: Tables, h: Readers, n: nat) -> Step<
    Amf3,
>
    decreases 64 - depth, 2int, 0int,
{
    if s.len() <= pos {
        stopped(Fault::InvalidAmf0("amf3 truncated"@), pos, t)
    } else {
        let c = string_at(s, pos + 1, t);
        match c.out {
            Err(f) => stopped(f, c.pos, c.tables),
            Ok(object_type_name) => {
                let slot = c.tables.objects.len() as int;
                let a = values_at(s, c.pos, depth, c.tables.with_object(Amf3::Null), h, n);
                match a.out {
                    Err(f) => stopped(f, a.pos, a.tables),
                    Ok(values) => {
                        let v = Amf3::VectorObject { fixed: s[pos] != 0, object_type_name, values };
                        given(v, a.pos, a.tables.filled(slot, v))
                    },
                }
            },
        }
    }
}

/// A dictionary of `n` entries.
pub open spec fn dictionary_at(
    s: Seq<u8>,
    pos: int,
    depth: nat,
    t: Tables,
    h: Readers,
    n: nat,
) -> Step<Amf3>
    decreases 64 - depth, 2int, 0int,
{
    if s.len() <= pos {
        stopped(Fault::InvalidAmf0("amf3 truncated"@), pos, t)
    } else {
        let slot = t.objects.len() as int;
        let a = entries_at(s, pos + 1, depth, t.with_object(Amf3::Null), h, n);
        match a.out {
            Err(f) => stopped(f, a.pos, a.tables),
            Ok(entries) => {
                let v = Amf3::Dictionary { weak_keys: s[pos] != 0, entries };
                given(v, a.pos, a.tables.filled(slot, v))
            },
        }
    }
}

/// Named values from offset `pos` on, up to an empty name.
pub open spec fn members_at(s: Seq<u8>, pos: int, depth: nat, t: Tables, h: Readers) -> Step<
    Seq<(Seq<char>, Amf3)>,
>
    decreases 64 - depth, 1int, s.len() - pos,
{
    let k = string_at(s, pos, t);
    match k.out {
        Err(f) => stopped(f, k.pos, k.tables),
        Ok(name) => if name.len() == 0 {
            given(Seq::empty(), k.pos, k.tables)
        } else {
            let r = value_at(s, k.pos, depth, k.tables, h);
            match r.out {
                Err(f) => stopped(f, r.pos, r.tables),
                Ok(v) => if r.pos <= pos || s.len() < r.pos {
                    stopped(Fault::InvalidAmf0("amf3 truncated"@), r.pos, r.tables)
                } else {
                    before(seq![(name, v)], members_at(s, r.pos, depth, r.tables, h))
                },
            }
        },
    }
}

/// `n` values from offset `pos` on.
pub open spec fn values_at(s: Seq<u8>, pos: int, depth: nat, t: Tables, h: Readers, n: nat) -> Step<
    Seq<Amf3>,
>
    decreases 64 - depth, 1int, n,
{
    if n == 0 {
        given(Seq::empty(), pos, t)
    } else {
        let r = value_at(s, pos, depth, t, h);
        match r.out {
            Err(f) => stopped(f, r.pos, r.tables),
            Ok(v) => before(
                seq![v],
                values_at(s, r.pos, depth, r.tables, h, (n - 1) as nat),
            ),
        }
    }
}

/// `n` keys with their values from offset `pos` on.
pub open spec fn entries_at(
    s: Seq<u8>,
    pos: int,
    depth: nat,
    t: Tables,
    h: Readers,
    n: nat,
) -> Step<Seq<(Amf3, Amf3)>>
    decreases 64 - depth, 1int, n,
{
    if n == 0 {
        given(Seq::empty(), pos, t)
    } else {
        let k = value_at(s, pos, depth, t, h);
        match k.out {
            Err(f) => stopped(f, k.pos, k.tables),
            Ok(key) => {
                let r = value_at(s, k.pos, depth, k.tables, h);
                match r.out {
                    Err(f) => stopped(f, r.pos, r.tables),
                    Ok(v) => before(
                        seq![(key, v)],
                        entries_at(s, r.pos, depth, r.tables, h, (n - 1) as nat),
                    ),
                }
            },
        }
    }
}

proof fn lemma_before_twice<A>(a: Seq<A>, b: Seq<A>, r: Step<Seq<A>>)
    ensures
        before(a, before(b, r)) == before(a + b, r),
{
    if let Ok(s) = r.out {
        assert(a + (b + s) =~= a + b + s);
    }
}

proof fn lemma_before_nothing<A>(r: Step<Seq<A>>)
    ensures
        before(Seq::empty(), r) == r,
{
    if let Ok(s) = r.out {
        assert(Seq::<A>::empty() + s =~= s);
    }
}

// ---------------------------------------------------------------------------
// The code
// ---------------------------------------------------------------------------

struct TraitDef {
    class_name: String,
    dynamic: bool,
    externalizable: bool,
    sealed_members: Vec<String>,
}

impl View for TraitDef {
    type V = TraitView;

    closed spec fn view(&self) -> TraitView {
        TraitView {
            class_name: self.class_name@,
            dynamic: self.dynamic,
            externalizable: self.externalizable,
            names: views(self.sealed_members@),
        }
    }
}

impl TraitDef {
    fn copy(&self) -> (r: TraitDef)
        ensures
            r@ == self@,
    {
        let mut names: Vec<String> = Vec::new();
        let mut i: usize = 0;
        while i < self.sealed_members.len()
            invariant
                i <= self.sealed_members@.len(),
                names@.len() == i,
                forall|k: int| 0 <= k < i ==> (#[trigger] names@[k])@ == self.sealed_members@[k]@,
            decreases self.sealed_members@.len() - i,
        {
            names.push(self.sealed_members[i].clone());
            i = i + 1;
        }
        assert(views(names@) =~= views(self.sealed_members@));
        TraitDef {
            class_name: self.class_name.clone(),
            dynamic: self.dynamic,
            externalizable: self.externalizable,
            sealed_members: names,
        }
    }
}

/// Reads AMF3 values, keeping the tables from one to the next.
pub struct Decoder {
    strings: Vec<String>,
    objects: Vec<Amf3Value>,
    traits: Vec<TraitDef>,
    readers: Vec<(String, Box<dyn ExternalizableReader>)>,
}

/// The mathematical view of [`Decoder`].
pub struct DecoderView {
    pub tables: Tables,
    pub readers: Readers,
}

impl View for Decoder {
    type V = DecoderView;

    closed spec fn view(&self) -> DecoderView {
        DecoderView {
            tables: Tables {
                strings: views(self.strings@),
                objects: views(self.objects@),
                traits: views(self.traits@),
            },
            readers: self.readers@,
        }
    }
}

fn read_utf8_body(buf: &[u8], pos: &mut usize, len: usize) -> (r: Result<String>)
    requires
        *old(pos) <= buf@.len(),
    ensures
        match r {
            Ok(t) => text_body(buf@, *old(pos) as int, len as int) == Ok::<
                (Seq<char>, int),
                Failure,
            >((t@, *final(pos) as int)) && *old(pos) <= *final(pos) <= buf@.len(),
            Err(e) => text_body(buf@, *old(pos) as int, len as int) == Err::<
                (Seq<char>, int),
                Failure,
            >(Failure { fault: e@, pos: *final(pos) as int }),
        },
{
    let p: usize = *pos;
    let have: usize = buf.len() - p;
    if have < len {
        let want = decimal_text(len as u64);
        let got = decimal_text(have as u64);
        return Err(
            Error::InvalidAmf0(
                cat4("amf3 truncated string: need ", want.as_str(), ", have ", got.as_str()),
            ),
        );
    }
    match utf8_text(vstd::slice::slice_subrange(buf, p, p + len)) {
        Ok(t) => {
            proof {
                vstd::utf8::encode_utf8_decode_utf8(t@);
            }
            *pos = p + len;
            Ok(t)
        },
        Err(e) => Err(Error::InvalidAmf0(cat("amf3 non-UTF8 string: ", e.as_str()))),
    }
}

fn read_words(buf: &[u8], pos: &mut usize, count: u32) -> (r: Result<Vec<u32>>)
    requires
        *old(pos) <= buf@.len(),
    ensures
        match r {
            Ok(v) => words_at(buf@, *old(pos) as int, count as nat) == Ok::<
                (Seq<u32>, int),
                Failure,
            >((v@, *final(pos) as int)) && *old(pos) <= *final(pos) <= buf@.len(),
            Err(e) => words_at(buf@, *old(pos) as int, count as nat) == Err::<
                (Seq<u32>, int),
                Failure,
            >(Failure { fault: e@, pos: *final(pos) as int }),
        },
{
    let start: usize = *pos;
    let n: usize = buf.len();
    let mut out: Vec<u32> = Vec::new();
    let mut i: u32 = 0;
    while i < count
        invariant
            i <= count,
            n == buf@.len(),
            start == *old(pos),
            *pos == start + 4 * i,
            *pos <= n,
            out@.len() == i,
            forall|k: int| 0 <= k < i ==> #[trigger] out@[k] == be32(buf@, start + 4 * k),
        decreases count - i,
    {
        let p: usize = *pos;
        if n - p < 4 {
            return Err(invalid_amf0("amf3 truncated u32"));
        }
        out.push(get_be32(buf, p));
        *pos = p + 4;
        i = i + 1;
    }
    assert(out@ =~= Seq::new(count as nat, |k: int| be32(buf@, start + 4 * k)));
    Ok(out)
}

fn read_long_words(buf: &[u8], pos: &mut usize, count: u32) -> (r: Result<Vec<Double>>)
    requires
        *old(pos) <= buf@.len(),
    ensures
        match r {
            Ok(v) => long_words_at(buf@, *old(pos) as int, count as nat) == Ok::<
                (Seq<u64>, int),
                Failure,
            >((double_bits(v@), *final(pos) as int)) && *old(pos) <= *final(pos) <= buf@.len(),
            Err(e) => long_words_at(buf@, *old(pos) as int, count as nat) == Err::<
                (Seq<u64>, int),
                Failure,
            >(Failure { fault: e@, pos: *final(pos) as int }),
        },
{
    let start: usize = *pos;
    let n: usize = buf.len();
    let mut out: Vec<Double> = Vec::new();
    let mut i: u32 = 0;
    while i < count
        invariant
            i <= count,
            n == buf@.len(),
            start == *old(pos),
            *pos == start + 8 * i,
            *pos <= n,
            out@.len() == i,
            forall|k: int| 0 <= k < i ==> (#[trigger] out@[k]).bits == be64(buf@, start + 8 * k),
        decreases count - i,
    {
        let p: usize = *pos;
        if n - p < 8 {
            return Err(invalid_amf0("amf3 truncated u64"));
        }
        out.push(Double { bits: get_be64(buf, p) });
        *pos = p + 8;
        i = i + 1;
    }
    assert(double_bits(out@) =~= Seq::new(count as nat, |k: int| be64(buf@, start + 8 * k)));
    Ok(out)
}

fn as_signed(words: &Vec<u32>) -> (out: Vec<i32>)
    ensures
        out@ == Seq::new(words@.len(), |i: int| signed32(words@[i])),
{
    let mut out: Vec<i32> = Vec::new();
    let mut i: usize = 0;
    while i < words.len()
        invariant
            i <= words@.len(),
            out@.len() == i,
            forall|k: int| 0 <= k < i ==> #[trigger] out@[k] == signed32(words@[k]),
        decreases words@.len() - i,
    {
        let v: u32 = words[i];
        out.push(
            if v >= 0x8000_0000 {
                (v as i64 - 0x1_0000_0000) as i32
            } else {
                v as i32
            },
        );
        i = i + 1;
    }
    assert(out@ =~= Seq::new(words@.len(), |i: int| signed32(words@[i])));
    out
}

impl Decoder {
    /// A decoder with empty tables and no readers.
    pub fn new() -> (d: Decoder)
        ensures
            d@ == (DecoderView { tables: Tables::new(), readers: Seq::empty() }),
    {
        let d = Decoder {
            strings: Vec::new(),
            objects: Vec::new(),
            traits: Vec::new(),
            readers: Vec::new(),
        };
        assert(d@.tables.strings =~= Seq::empty());
        assert(d@.tables.objects =~= Seq::empty());
        assert(d@.tables.traits =~= Seq::empty());
        d
    }

    /// Let `reader` answer for the externalizable class `class_name`, in place of
    /// any reader it had.
    pub fn register_externalizable(
        &mut self,
        class_name: &str,
        reader: Box<dyn ExternalizableReader>,
    )
        ensures
            final(self)@.tables == old(self)@.tables,
            forall|s: Seq<u8>, pos: int|
                answer(final(self)@.readers, 0, class_name@, s, pos) == Some(
                    reader.length_at(s, pos),
                ),
            forall|class: Seq<char>, s: Seq<u8>, pos: int|
                class != class_name@ ==> answer(final(self)@.readers, 0, class, s, pos) == answer(
                    old(self)@.readers,
                    0,
                    class,
                    s,
                    pos,
                ),
    {
        let ghost was = self.readers@;
        let entry = (class_name.to_owned(), reader);
        proof {
            was.insert_ensures(0, entry);
        }
        self.readers.insert(0, entry);
        proof {
            let now = self.readers@;
            assert forall|class: Seq<char>, s: Seq<u8>, pos: int| class != class_name@ implies answer(
                now,
                0,
                class,
                s,
                pos,
            ) == answer(was, 0, class, s, pos) by {
                lemma_answer_shift(was, now, 0, class, s, pos);
            }
        }
    }

    /// Empty the tables, as at the start of a message. Readers stay.
    pub fn reset_tables(&mut self)
        ensures
            final(self)@ == (DecoderView { tables: Tables::new(), ..old(self)@ }),
    {
        self.strings.clear();
        self.objects.clear();
        self.traits.clear();
        assert(self@.tables.strings =~= Seq::empty());
        assert(self@.tables.objects =~= Seq::empty());
        assert(self@.tables.traits =~= Seq::empty());
    }

    /// Read the value at `*pos` and move `*pos` behind it, or to where reading
    /// failed.
    pub fn decode(&mut self, buf: &[u8], pos: &mut usize) -> (r: Result<Amf3Value>)
        ensures
            ({
                let step = value_at(
                    buf@,
                    *old(pos) as int,
                    0,
                    old(self)@.tables,
                    old(self)@.readers,
                );
                &&& outcome(r) == step.out
                &&& *final(pos) == step.pos
                &&& final(self)@ == (DecoderView { tables: step.tables, ..old(self)@ })
            }),
            r is Ok ==> *old(pos) < *final(pos) <= buf@.len(),
    {
        self.decode_nested(buf, pos, 0)
    }

    /// Whether `self` is what it was, but for the tables of `step`.
    spec fn holds(&self, was: DecoderView, tables: Tables) -> bool {
        self@ == (DecoderView { tables, ..was })
    }

    fn read_string(&mut self, buf: &[u8], pos: &mut usize) -> (r: Result<String>)
        ensures
            ({
                let step = string_at(buf@, *old(pos) as int, old(self)@.tables);
                &&& outcome(r) == step.out
                &&& *final(pos) == step.pos
                &&& final(self).holds(old(self)@, step.tables)
            }),
            r is Ok ==> *old(pos) < *final(pos) <= buf@.len(),
            final(self).objects@ == old(self).objects@,
    {
        let header: u32 = match read_u29(buf, pos) {
            Err(e) => {
                return Err(e);
            },
            Ok(h) => h,
        };
        let n: usize = (header / 2) as usize;
        if header % 2 == 0 {
            if n < self.strings.len() {
                return Ok(self.strings[n].clone());
            }
            let digits = decimal_text(n as u64);
            return Err(
                Error::InvalidAmf0(cat3("amf3 string ref ", digits.as_str(), " out of range")),
            );
        }
        let s = match read_utf8_body(buf, pos, n) {
            Err(e) => {
                return Err(e);
            },
            Ok(s) => s,
        };
        if !s.as_str().is_empty() {
            let ghost was = views(self.strings@);
            self.strings.push(s.clone());
            assert(views(self.strings@) =~= was.push(s@));
        }
        Ok(s)
    }

    fn read_names(&mut self, buf: &[u8], pos: &mut usize, count: u32) -> (r: Result<Vec<String>>)
        requires
            *old(pos) <= buf@.len(),
        ensures
            ({
                let step = names_at(buf@, *old(pos) as int, old(self)@.tables, count as nat);
                &&& match r {
                    Ok(v) => step.out == Ok::<Seq<Seq<char>>, Fault>(views(v@)),
                    Err(e) => step.out == Err::<Seq<Seq<char>>, Fault>(e@),
                }
                &&& *final(pos) == step.pos
                &&& final(self).holds(old(self)@, step.tables)
            }),
            r is Ok ==> *old(pos) <= *final(pos) <= buf@.len(),
            final(self).objects@ == old(self).objects@,
    {
        let mut out: Vec<String> = Vec::new();
        let mut i: u32 = 0;
        let ghost whole = names_at(buf@, *pos as int, self@.tables, count as nat);
        proof {
            assert(views(out@) =~= Seq::empty());
            lemma_before_nothing(whole);
        }
        while i < count
            invariant
                i <= count,
                *old(pos) <= *pos <= buf@.len(),
                self@.readers == old(self)@.readers,
                self.objects@ == old(self).objects@,
                whole == names_at(buf@, *old(pos) as int, old(self)@.tables, count as nat),
                whole == before(
                    views(out@),
                    names_at(buf@, *pos as int, self@.tables, (count - i) as nat),
                ),
            decreases count - i,
        {
            let ghost done = views(out@);
            match self.read_string(buf, pos) {
                Err(e) => {
                    return Err(e);
                },
                Ok(s) => {
                    let ghost here = s@;
                    out.push(s);
                    proof {
                        assert(views(out@) =~= done + seq![here]);
                        lemma_before_twice(
                            done,
                            seq![here],
                            names_at(buf@, *pos as int, self@.tables, (count - i - 1) as nat),
                        );
                    }
                },
            }
            i = i + 1;
        }
        assert(views(out@) + Seq::empty() =~= views(out@));
        Ok(out)
    }

    fn read_traits(&mut self, buf: &[u8], pos: &mut usize, header: u32) -> (r: Result<TraitDef>)
        requires
            *old(pos) <= buf@.len(),
        ensures
            ({
                let step = traits_at(buf@, *old(pos) as int, old(self)@.tables, header);
                &&& outcome(r) == step.out
                &&& *final(pos) == step.pos
                &&& final(self).holds(old(self)@, step.tables)
            }),
            r is Ok ==> *old(pos) <= *final(pos) <= buf@.len(),
            final(self).objects@ == old(self).objects@,
    {
        if header / 2 % 2 == 0 {
            let idx: usize = (header / 4) as usize;
            if idx < self.traits.len() {
                return Ok(self.traits[idx].copy());
            }
            let digits = decimal_text(idx as u64);
            return Err(
                Error::InvalidAmf0(cat3("amf3 trait ref ", digits.as_str(), " out of range")),
            );
        }
        let class_name = match self.read_string(buf, pos) {
            Err(e) => {
                return Err(e);
            },
            Ok(s) => s,
        };
        let sealed_members = match self.read_names(buf, pos, header / 16) {
            Err(e) => {
                return Err(e);
            },
            Ok(v) => v,
        };
        let t = TraitDef {
            class_name,
            dynamic: header / 8 % 2 == 1,
            externalizable: header / 4 % 2 == 1,
            sealed_members,
        };
        let ghost was = views(self.traits@);
        self.traits.push(t.copy());
        assert(views(self.traits@) =~= was.push(t@));
        Ok(t)
    }

    fn push_object(&mut self, v: &Amf3Value)
        ensures
            final(self).holds(old(self)@, old(self)@.tables.with_object(v@)),
            final(self).objects@.len() == old(self).objects@.len() + 1,
    {
        let ghost was = views(self.objects@);
        self.objects.push(v.clone());
        assert(views(self.objects@) =~= was.push(v@));
    }

    fn fill_object(&mut self, slot: usize, v: &Amf3Value)
        requires
            slot < old(self).objects@.len(),
        ensures
            final(self).holds(old(self)@, old(self)@.tables.filled(slot as int, v@)),
            final(self).objects@.len() == old(self).objects@.len(),
    {
        let ghost was = views(self.objects@);
        self.objects.set(slot, v.clone());
        assert(views(self.objects@) =~= was.update(slot as int, v@));
    }

    fn read_flat(&mut self, buf: &[u8], pos: &mut usize, marker: u8, count: u32) -> (r: Result<
        Amf3Value,
    >)
        requires
            *old(pos) <= buf@.len(),
        ensures
            ({
                let step = flat_at(
                    buf@,
                    *old(pos) as int,
                    old(self)@.tables,
                    marker,
                    count as nat,
                );
                &&& outcome(r) == step.out
                &&& *final(pos) == step.pos
                &&& final(self).holds(old(self)@, step.tables)
            }),
            r is Ok ==> *old(pos) <= *final(pos) <= buf@.len(),
            final(self).objects@.len() >= old(self).objects@.len(),
    {
        let n: usize = buf.len();
        let p: usize = *pos;
        if marker == M_XML_DOC || marker == M_XML {
            let s = match read_utf8_body(buf, pos, count as usize) {
                Err(e) => {
                    return Err(e);
                },
                Ok(s) => s,
            };
            self.push_object(&Amf3Value::XmlDocument(s.clone()));
            return if marker == M_XML {
                Ok(Amf3Value::Xml(s))
            } else {
                Ok(Amf3Value::XmlDocument(s))
            };
        }
        if marker == M_DATE {
            if n - p < 8 {
                return Err(invalid_amf0("amf3 truncated u64"));
            }
            *pos = p + 8;
            let v = Amf3Value::Date(Double { bits: get_be64(buf, p) });
            self.push_object(&v);
            return Ok(v);
        }
        if marker == M_BYTE_ARRAY {
            let len: usize = count as usize;
            if n - p < len {
                let want = decimal_text(len as u64);
                let got = decimal_text((n - p) as u64);
                return Err(
                    Error::InvalidAmf0(
                        cat4("amf3 truncated bytes: need ", want.as_str(), ", have ", got.as_str()),
                    ),
                );
            }
            *pos = p + len;
            let v = Amf3Value::ByteArray(copy_range(buf, p, p + len));
            self.push_object(&v);
            return Ok(v);
        }
        if p >= n {
            return Err(invalid_amf0("amf3 truncated"));
        }
        let fixed = buf[p] != 0;
        *pos = p + 1;
        let v = if marker == M_VECTOR_DOUBLE {
            match read_long_words(buf, pos, count) {
                Err(e) => {
                    return Err(e);
                },
                Ok(items) => Amf3Value::VectorDouble { fixed, items },
            }
        } else {
            match read_words(buf, pos, count) {
                Err(e) => {
                    return Err(e);
                },
                Ok(items) => if marker == M_VECTOR_UINT {
                    Amf3Value::VectorUInt { fixed, items }
                } else {
                    let ints = as_signed(&items);
                    proof {
                        let words = words_at(buf@, p + 1, count as nat)->Ok_0.0;
                        assert(ints@ =~= Seq::new(count as nat, |i: int| signed32(words[i])));
                    }
                    Amf3Value::VectorInt { fixed, items: ints }
                },
            }
        };
        self.push_object(&v);
        Ok(v)
    }

    fn lookup(&self, marker: u8, idx: usize) -> (r: Result<Amf3Value>)
        ensures
            forall|p: int|
                #![trigger referred(self@.tables, marker, idx as nat, p)]
                outcome(r) == referred(self@.tables, marker, idx as nat, p).out,
    {
        let xml = marker == M_XML_DOC || marker == M_XML;
        if idx >= self.objects.len() {
            let digits = decimal_text(idx as u64);
            let head = if xml {
                "amf3 xml ref "
            } else {
                "amf3 object ref "
            };
            return Err(Error::InvalidAmf0(cat3(head, digits.as_str(), " out of range")));
        }
        if !xml {
            return Ok(self.objects[idx].clone());
        }
        let text = match &self.objects[idx] {
            Amf3Value::Xml(x) => x.clone(),
            Amf3Value::XmlDocument(x) => x.clone(),
            _ => {
                let digits = decimal_text(idx as u64);
                return Err(
                    Error::InvalidAmf0(
                        cat3("amf3 xml ref ", digits.as_str(), " resolved to non-xml value"),
                    ),
                );
            },
        };
        if marker == M_XML {
            Ok(Amf3Value::Xml(text))
        } else {
            Ok(Amf3Value::XmlDocument(text))
        }
    }

    fn read_simple(&mut self, buf: &[u8], pos: &mut usize, marker: u8) -> (r: Result<Amf3Value>)
        requires
            *old(pos) <= buf@.len(),
            marker <= M_STRING || marker > M_DICTIONARY,
        ensures
            ({
                let step = simple_at(buf@, *old(pos) as int, old(self)@.tables, marker);
                &&& outcome(r) == step.out
                &&& *final(pos) == step.pos
                &&& final(self).holds(old(self)@, step.tables)
            }),
            r is Ok ==> *old(pos) <= *final(pos) <= buf@.len(),
            final(self).objects@ == old(self).objects@,
    {
        let p: usize = *pos;
        if marker == M_UNDEFINED {
            Ok(Amf3Value::Undefined)
        } else if marker == M_NULL {
            Ok(Amf3Value::Null)
        } else if marker == M_FALSE {
            Ok(Amf3Value::Boolean(false))
        } else if marker == M_TRUE {
            Ok(Amf3Value::Boolean(true))
        } else if marker == M_INTEGER {
            match read_u29(buf, pos) {
                Err(e) => Err(e),
                Ok(v) => Ok(Amf3Value::Integer(sign_extend_29(v))),
            }
        } else if marker == M_DOUBLE {
            if buf.len() - p < 8 {
                return Err(invalid_amf0("amf3 truncated u64"));
            }
            *pos = p + 8;
            Ok(Amf3Value::Double(Double { bits: get_be64(buf, p) }))
        } else if marker == M_STRING {
            match self.read_string(buf, pos) {
                Err(e) => Err(e),
                Ok(s) => Ok(Amf3Value::String(s)),
            }
        } else {
            let digits = hex_text(marker as u64);
            Err(Error::InvalidAmf0(cat("amf3: unknown marker 0x", digits.as_str())))
        }
    }

    fn ask(&self, class: &str, buf: &[u8], pos: usize) -> (r: Option<Result<usize>>)
        requires
            pos <= buf@.len(),
        ensures
            match r {
                None => answer(self@.readers, 0, class@, buf@, pos as int) is None,
                Some(x) => answer(self@.readers, 0, class@, buf@, pos as int) == Some(outcome(x)),
            },
    {
        let mut i: usize = 0;
        while i < self.readers.len()
            invariant
                i <= self.readers@.len(),
                pos <= buf@.len(),
                self@.readers == self.readers@,
                answer(self@.readers, 0, class@, buf@, pos as int) == answer(
                    self@.readers,
                    i as int,
                    class@,
                    buf@,
                    pos as int,
                ),
            decreases self.readers@.len() - i,
        {
            if same_text(self.readers[i].0.as_str(), class) {
                return Some(self.readers[i].1.body_len(buf, pos));
            }
            i = i + 1;
        }
        None
    }

    fn read_external(&mut self, buf: &[u8], pos: &mut usize, class: &str, slot: usize) -> (r: Result<
        Amf3Value,
    >)
        requires
            *old(pos) <= buf@.len(),
            slot < old(self).objects@.len(),
        ensures
            ({
                let step = external_at(
                    buf@,
                    *old(pos) as int,
                    old(self)@.tables,
                    old(self)@.readers,
                    class@,
                    slot as int,
                );
                &&& outcome(r) == step.out
                &&& *final(pos) == step.pos
                &&& final(self).holds(old(self)@, step.tables)
            }),
            r is Ok ==> *old(pos) <= *final(pos) <= buf@.len(),
            final(self).objects@.len() == old(self).objects@.len(),
    {
        let p: usize = *pos;
        let n: usize = buf.len();
        let len: usize = match self.ask(class, buf, p) {
            None => {
                let q = quoted_text(class);
                return Err(
                    Error::InvalidAmf0(
                        cat3(
                            "amf3: externalizable class ",
                            q.as_str(),
                            " requires a registered handler; generic decoder cannot determine body length",
                        ),
                    ),
                );
            },
            Some(Err(e)) => {
                return Err(e);
            },
            Some(Ok(len)) => len,
        };
        if len > usize::MAX - p {
            let q = quoted_text(class);
            let digits = decimal_text(len as u64);
            return Err(
                Error::InvalidAmf0(
                    cat5(
                        "amf3: externalizable class ",
                        q.as_str(),
                        " body length ",
                        digits.as_str(),
                        " overflows",
                    ),
                ),
            );
        }
        if len > n - p {
            let q = quoted_text(class);
            let digits = decimal_text(len as u64);
            let left = decimal_text((n - p) as u64);
            let tail = cat3(" runs past buffer end (", left.as_str(), " byte(s) available)");
            return Err(
                Error::InvalidAmf0(
                    cat5(
                        "amf3: externalizable class ",
                        q.as_str(),
                        " body length ",
                        digits.as_str(),
                        tail.as_str(),
                    ),
                ),
            );
        }
        let v = Amf3Value::Object {
            class_name: class.to_owned(),
            dynamic: false,
            sealed: Vec::new(),
            dynamic_members: Vec::new(),
            externalizable_body: Some(copy_range(buf, p, p + len)),
        };
        proof {
            lemma_container_views(v);
            assert(member_views(Seq::empty()) =~= Seq::empty());
        }
        *pos = p + len;
        self.fill_object(slot, &v);
        Ok(v)
    }

    fn decode_nested(&mut self, buf: &[u8], pos: &mut usize, depth: usize) -> (r: Result<Amf3Value>)
        requires
            depth <= 64,
        ensures
            ({
                let step = value_at(
                    buf@,
                    *old(pos) as int,
                    depth as nat,
                    old(self)@.tables,
                    old(self)@.readers,
                );
                &&& outcome(r) == step.out
                &&& *final(pos) == step.pos
                &&& final(self).holds(old(self)@, step.tables)
            }),
            r is Ok ==> *old(pos) < *final(pos) <= buf@.len(),
            final(self).objects@.len() >= old(self).objects@.len(),
        decreases 64 - depth, 0int,
    {
        if depth >= MAX_DECODE_DEPTH {
            return Err(invalid_amf0("amf3: nested container depth exceeded 64"));
        }
        let start: usize = *pos;
        if start >= buf.len() {
            return Err(invalid_amf0("amf3 truncated"));
        }
        let marker: u8 = buf[start];
        *pos = start + 1;
        if marker <= M_STRING || marker > M_DICTIONARY {
            return self.read_simple(buf, pos, marker);
        }
        let header: u32 = match read_u29(buf, pos) {
            Err(e) => {
                return Err(e);
            },
            Ok(h) => h,
        };
        if header % 2 == 0 {
            assert(referred(self@.tables, marker, (header / 2) as nat, *pos as int).tables
                == self@.tables);
            return self.lookup(marker, (header / 2) as usize);
        }
        if marker == M_ARRAY {
            return self.read_array(buf, pos, depth + 1, header / 2);
        }
        if marker == M_OBJECT {
            return match self.read_traits(buf, pos, header) {
                Err(e) => Err(e),
                Ok(t) => self.read_object(buf, pos, depth + 1, t),
            };
        }
        if marker == M_VECTOR_OBJECT {
            return self.read_vector_object(buf, pos, depth + 1, header / 2);
        }
        if marker == M_DICTIONARY {
            return self.read_dictionary(buf, pos, depth + 1, header / 2);
        }
        self.read_flat(buf, pos, marker, header / 2)
    }

    fn read_array(&mut self, buf: &[u8], pos: &mut usize, depth: usize, count: u32) -> (r: Result<
        Amf3Value,
    >)
        requires
            depth <= 64,
            *old(pos) <= buf@.len(),
        ensures
            ({
                let step = array_at(
                    buf@,
                    *old(pos) as int,
                    depth as nat,
                    old(self)@.tables,
                    old(self)@.readers,
                    count as nat,
                );
                &&& outcome(r) == step.out
                &&& *final(pos) == step.pos
                &&& final(self).holds(old(self)@, step.tables)
            }),
            r is Ok ==> *old(pos) <= *final(pos) <= buf@.len(),
            final(self).objects@.len() >= old(self).objects@.len(),
        decreases 64 - depth, 2int,
    {
        let slot: usize = self.objects.len();
        self.push_object(&Amf3Value::Null);
        let assoc = match self.read_members(buf, pos, depth) {
            Err(e) => {
                return Err(e);
            },
            Ok(v) => v,
        };
        let dense = match self.read_values(buf, pos, depth, count as usize) {
            Err(e) => {
                return Err(e);
            },
            Ok(v) => v,
        };
        let v = Amf3Value::Array { dense, assoc };
        proof {
            lemma_container_views(v);
        }
        self.fill_object(slot, &v);
        Ok(v)
    }

    fn read_object(&mut self, buf: &[u8], pos: &mut usize, depth: usize, traits: TraitDef) -> (r:
        Result<Amf3Value>)
        requires
            depth <= 64,
            *old(pos) <= buf@.len(),
        ensures
            ({
                let step = object_at(
                    buf@,
                    *old(pos) as int,
                    depth as nat,
                    old(self)@.tables,
                    old(self)@.readers,
                    traits@,
                );
                &&& outcome(r) == step.out
                &&& *final(pos) == step.pos
                &&& final(self).holds(old(self)@, step.tables)
            }),
            r is Ok ==> *old(pos) <= *final(pos) <= buf@.len(),
            final(self).objects@.len() >= old(self).objects@.len(),
        decreases 64 - depth, 2int,
    {
        let slot: usize = self.objects.len();
        self.push_object(&Amf3Value::Null);
        if traits.externalizable {
            return self.read_external(buf, pos, traits.class_name.as_str(), slot);
        }
        let values = match self.read_values(buf, pos, depth, traits.sealed_members.len()) {
            Err(e) => {
                return Err(e);
            },
            Ok(v) => v,
        };
        let mut dynamic_members: Vec<(String, Amf3Value)> = Vec::new();
        assert(member_views(dynamic_members@) =~= Seq::empty());
        if traits.dynamic {
            dynamic_members = match self.read_members(buf, pos, depth) {
                Err(e) => {
                    return Err(e);
                },
                Ok(v) => v,
            };
        }
        let sealed = zip(&traits.sealed_members, &values);
        let v = Amf3Value::Object {
            class_name: traits.class_name.clone(),
            dynamic: traits.dynamic,
            sealed,
            dynamic_members,
            externalizable_body: None,
        };
        proof {
            lemma_container_views(v);
        }
        self.fill_object(slot, &v);
        Ok(v)
    }

    fn read_vector_object(&mut self, buf: &[u8], pos: &mut usize, depth: usize, count: u32) -> (r:
        Result<Amf3Value>)
        requires
            depth <= 64,
            *old(pos) <= buf@.len(),
        ensures
            ({
                let step = vector_at(
                    buf@,
                    *old(pos) as int,
                    depth as nat,
                    old(self)@.tables,
                    old(self)@.readers,
                    count as nat,
                );
                &&& outcome(r) == step.out
                &&& *final(pos) == step.pos
                &&& final(self).holds(old(self)@, step.tables)
            }),
            r is Ok ==> *old(pos) <= *final(pos) <= buf@.len(),
            final(self).objects@.len() >= old(self).objects@.len(),
        decreases 64 - depth, 2int,
    {
        let p: usize = *pos;
        if p >= buf.len() {
            return Err(invalid_amf0("amf3 truncated"));
        }
        let fixed = buf[p] != 0;
        *pos = p + 1;
        let object_type_name = match self.read_string(buf, pos) {
            Err(e) => {
                return Err(e);
            },
            Ok(s) => s,
        };
        let slot: usize = self.objects.len();
        self.push_object(&Amf3Value::Null);
        let items = match self.read_values(buf, pos, depth, count as usize) {
            Err(e) => {
                return Err(e);
            },
            Ok(v) => v,
        };
        let v = Amf3Value::VectorObject { fixed, object_type_name, items };
        proof {
            lemma_container_views(v);
        }
        self.fill_object(slot, &v);
        Ok(v)
    }

    fn read_dictionary(&mut self, buf: &[u8], pos: &mut usize, depth: usize, count: u32) -> (r:
        Result<Amf3Value>)
        requires
            depth <= 64,
            *old(pos) <= buf@.len(),
        ensures
            ({
                let step = dictionary_at(
                    buf@,
                    *old(pos) as int,
                    depth as nat,
                    old(self)@.tables,
                    old(self)@.readers,
                    count as nat,
                );
                &&& outcome(r) == step.out
                &&& *final(pos) == step.pos
                &&& final(self).holds(old(self)@, step.tables)
            }),
            r is Ok ==> *old(pos) <= *final(pos) <= buf@.len(),
            final(self).objects@.len() >= old(self).objects@.len(),
        decreases 64 - depth, 2int,
    {
        let p: usize = *pos;
        if p >= buf.len() {
            return Err(invalid_amf0("amf3 truncated"));
        }
        let weak_keys = buf[p] != 0;
        *pos = p + 1;
        let slot: usize = self.objects.len();
        self.push_object(&Amf3Value::Null);
        let entries = match self.read_entries(buf, pos, depth, count) {
            Err(e) => {
                return Err(e);
            },
            Ok(v) => v,
        };
        let v = Amf3Value::Dictionary { weak_keys, entries };
        proof {
            lemma_container_views(v);
        }
        self.fill_object(slot, &v);
        Ok(v)
    }

    fn read_members(&mut self, buf: &[u8], pos: &mut usize, depth: usize) -> (r: Result<
        Vec<(String, Amf3Value)>,
    >)
        requires
            depth <= 64,
            *old(pos) <= buf@.len(),
        ensures
            ({
                let step = members_at(
                    buf@,
                    *old(pos) as int,
                    depth as nat,
                    old(self)@.tables,
                    old(self)@.readers,
                );
                &&& match r {
                    Ok(v) => step.out == Ok::<Seq<(Seq<char>, Amf3)>, Fault>(member_views(v@)),
                    Err(e) => step.out == Err::<Seq<(Seq<char>, Amf3)>, Fault>(e@),
                }
                &&& *final(pos) == step.pos
                &&& final(self).holds(old(self)@, step.tables)
            }),
            r is Ok ==> *old(pos) <= *final(pos) <= buf@.len(),
            final(self).objects@.len() >= old(self).objects@.len(),
        decreases 64 - depth, 1int,
    {
        let mut out: Vec<(String, Amf3Value)> = Vec::new();
        let ghost h = self@.readers;
        let ghost whole = members_at(buf@, *pos as int, depth as nat, self@.tables, h);
        proof {
            assert(member_views(out@) =~= Seq::empty());
            lemma_before_nothing(whole);
        }
        loop
            invariant
                depth <= 64,
                *old(pos) <= *pos <= buf@.len(),
                h == old(self)@.readers,
                self@.readers == h,
                self.objects@.len() >= old(self).objects@.len(),
                whole == members_at(
                    buf@,
                    *old(pos) as int,
                    depth as nat,
                    old(self)@.tables,
                    h,
                ),
                whole == before(
                    member_views(out@),
                    members_at(buf@, *pos as int, depth as nat, self@.tables, h),
                ),
            decreases buf@.len() - *pos,
        {
            let ghost done = member_views(out@);
            let k = match self.read_string(buf, pos) {
                Err(e) => {
                    return Err(e);
                },
                Ok(k) => k,
            };
            if k.as_str().is_empty() {
                assert(done + Seq::empty() =~= done);
                return Ok(out);
            }
            let v = match self.decode_nested(buf, pos, depth) {
                Err(e) => {
                    return Err(e);
                },
                Ok(v) => v,
            };
            let ghost here = (k@, v@);
            out.push((k, v));
            proof {
                assert(member_views(out@) =~= done + seq![here]);
                lemma_before_twice(
                    done,
                    seq![here],
                    members_at(buf@, *pos as int, depth as nat, self@.tables, h),
                );
            }
        }
    }

    fn read_values(&mut self, buf: &[u8], pos: &mut usize, depth: usize, count: usize) -> (r:
        Result<Vec<Amf3Value>>)
        requires
            depth <= 64,
            *old(pos) <= buf@.len(),
        ensures
            ({
                let step = values_at(
                    buf@,
                    *old(pos) as int,
                    depth as nat,
                    old(self)@.tables,
                    old(self)@.readers,
                    count as nat,
                );
                &&& match r {
                    Ok(v) => step.out == Ok::<Seq<Amf3>, Fault>(views(v@)) && v@.len() == count,
                    Err(e) => step.out == Err::<Seq<Amf3>, Fault>(e@),
                }
                &&& *final(pos) == step.pos
                &&& final(self).holds(old(self)@, step.tables)
            }),
            r is Ok ==> *old(pos) <= *final(pos) <= buf@.len(),
            final(self).objects@.len() >= old(self).objects@.len(),
        decreases 64 - depth, 1int,
    {
        let mut out: Vec<Amf3Value> = Vec::new();
        let mut i: usize = 0;
        let ghost h = self@.readers;
        let ghost whole = values_at(
            buf@,
            *pos as int,
            depth as nat,
            self@.tables,
            h,
            count as nat,
        );
        proof {
            assert(views(out@) =~= Seq::empty());
            lemma_before_nothing(whole);
        }
        while i < count
            invariant
                i <= count,
                out@.len() == i,
                depth <= 64,
                *old(pos) <= *pos <= buf@.len(),
                h == old(self)@.readers,
                self@.readers == h,
                self.objects@.len() >= old(self).objects@.len(),
                whole == values_at(
                    buf@,
                    *old(pos) as int,
                    depth as nat,
                    old(self)@.tables,
                    h,
                    count as nat,
                ),
                whole == before(
                    views(out@),
                    values_at(
                        buf@,
                        *pos as int,
                        depth as nat,
                        self@.tables,
                        h,
                        (count - i) as nat,
                    ),
                ),
            decreases count - i,
        {
            let ghost done = views(out@);
            match self.decode_nested(buf, pos, depth) {
                Err(e) => {
                    return Err(e);
                },
                Ok(v) => {
                    let ghost here = v@;
                    out.push(v);
                    proof {
                        assert(views(out@) =~= done + seq![here]);
                        lemma_before_twice(
                            done,
                            seq![here],
                            values_at(
                                buf@,
                                *pos as int,
                                depth as nat,
                                self@.tables,
                                h,
                                (count - i - 1) as nat,
                            ),
                        );
                    }
                },
            }
            i = i + 1;
        }
        assert(views(out@) + Seq::empty() =~= views(out@));
        Ok(out)
    }

    fn read_entries(&mut self, buf: &[u8], pos: &mut usize, depth: usize, count: u32) -> (r: Result<
        Vec<(Amf3Value, Amf3Value)>,
    >)
        requires
            depth <= 64,
            *old(pos) <= buf@.len(),
        ensures
            ({
                let step = entries_at(
                    buf@,
                    *old(pos) as int,
                    depth as nat,
                    old(self)@.tables,
                    old(self)@.readers,
                    count as nat,
                );
                &&& match r {
                    Ok(v) => step.out == Ok::<Seq<(Amf3, Amf3)>, Fault>(entry_views(v@)),
                    Err(e) => step.out == Err::<Seq<(Amf3, Amf3)>, Fault>(e@),
                }
                &&& *final(pos) == step.pos
                &&& final(self).holds(old(self)@, step.tables)
            }),
            r is Ok ==> *old(pos) <= *final(pos) <= buf@.len(),
            final(self).objects@.len() >= old(self).objects@.len(),
        decreases 64 - depth, 1int,
    {
        let mut out: Vec<(Amf3Value, Amf3Value)> = Vec::new();
        let mut i: u32 = 0;
        let ghost h = self@.readers;
        let ghost whole = entries_at(
            buf@,
            *pos as int,
            depth as nat,
            self@.tables,
            h,
            count as nat,
        );
        proof {
            assert(entry_views(out@) =~= Seq::empty());
            lemma_before_nothing(whole);
        }
        while i < count
            invariant
                i <= count,
                depth <= 64,
                *old(pos) <= *pos <= buf@.len(),
                h == old(self)@.readers,
                self@.readers == h,
                self.objects@.len() >= old(self).objects@.len(),
                whole == entries_at(
                    buf@,
                    *old(pos) as int,
                    depth as nat,
                    old(self)@.tables,
                    h,
                    count as nat,
                ),
                whole == before(
                    entry_views(out@),
                    entries_at(
                        buf@,
                        *pos as int,
                        depth as nat,
                        self@.tables,
                        h,
                        (count - i) as nat,
                    ),
                ),
            decreases count - i,
        {
            let ghost done = entry_views(out@);
            let k = match self.decode_nested(buf, pos, depth) {
                Err(e) => {
                    return Err(e);
                },
                Ok(k) => k,
            };
            let v = match self.decode_nested(buf, pos, depth) {
                Err(e) => {
                    return Err(e);
                },
                Ok(v) => v,
            };
            let ghost here = (k@, v@);
            out.push((k, v));
            proof {
                assert(entry_views(out@) =~= done + seq![here]);
                lemma_before_twice(
                    done,
                    seq![here],
                    entries_at(
                        buf@,
                        *pos as int,
                        depth as nat,
                        self@.tables,
                        h,
                        (count - i - 1) as nat,
                    ),
                );
            }
            i = i + 1;
        }
        assert(entry_views(out@) + Seq::empty() =~= entry_views(out@));
        Ok(out)
    }
}

fn zip(names: &Vec<String>, values: &Vec<Amf3Value>) -> (out: Vec<(String, Amf3Value)>)
    requires
        names@.len() == values@.len(),
    ensures
        member_views(out@) == zipped(views(names@), views(values@)),
{
    let mut out: Vec<(String, Amf3Value)> = Vec::new();
    let mut i: usize = 0;
    while i < names.len()
        invariant
            i <= names@.len(),
            names@.len() == values@.len(),
            out@.len() == i,
            forall|k: int|
                0 <= k < i ==> (#[trigger] out@[k]).0@ == names@[k]@ && out@[k].1@
                    == values@[k]@,
        decreases names@.len() - i,
    {
        out.push((names[i].clone(), values[i].clone()));
        i = i + 1;
    }
    assert(member_views(out@) =~= zipped(views(names@), views(values@)));
    out
}

/// A reader put in front of the others does not change their answers.
proof fn lemma_answer_shift(
    was: Readers,
    now: Readers,
    i: int,
    class: Seq<char>,
    s: Seq<u8>,
    pos: int,
)
    requires
        0 <= i <= was.len(),
        now.len() == was.len() + 1,
        forall|k: int| 0 <= k < was.len() ==> now[k + 1] == #[trigger] was[k],
        i == 0 ==> now[0].0@ != class,
    ensures
        answer(now, i + 1, class, s, pos) == answer(was, i, class, s, pos),
        i == 0 ==> answer(now, 0, class, s, pos) == answer(was, 0, class, s, pos),
    decreases was.len() - i,
{
    if i < was.len() {
        assert(now[i + 1] == was[i]);
        lemma_answer_shift(was, now, i + 1, class, s, pos);
    }
}

/// Read one value at `*pos`, with empty tables.
pub fn decode(buf: &[u8], pos: &mut usize) -> (r: Result<Amf3Value>)
    ensures
        ({
            let step = value_at(buf@, *old(pos) as int, 0, Tables::new(), Seq::empty());
            &&& outcome(r) == step.out
            &&& *final(pos) == step.pos
        }),
{
    let mut d = Decoder::new();
    d.decode(buf, pos)
}

/// All values from offset `pos` to the end. Where `switched`, each may have the
/// marker in front that switches from AMF0.
pub open spec fn message_at(s: Seq<u8>, pos: int, t: Tables, switched: bool) -> Step<Seq<Amf3>>
    decreases s.len() - pos,
{
    if pos >= s.len() {
        given(Seq::empty(), pos, t)
    } else {
        let marked = switched && s[pos] == AVMPLUS_OBJECT_MARKER;
        if marked && pos + 1 >= s.len() {
            stopped(
                Fault::InvalidAmf0("avmplus marker (0x11) at end of body with no AMF3 value"@),
                pos + 1,
                t,
            )
        } else {
            let r = value_at(
                s,
                if marked {
                    pos + 1
                } else {
                    pos
                },
                0,
                t,
                Seq::empty(),
            );
            match r.out {
                Err(f) => stopped(f, r.pos, r.tables),
                Ok(v) => if r.pos <= pos || s.len() < r.pos {
                    stopped(Fault::InvalidAmf0("amf3 truncated"@), r.pos, r.tables)
                } else {
                    before(seq![v], message_at(s, r.pos, r.tables, switched))
                },
            }
        }
    }
}

fn decode_message(buf: &[u8], switched: bool) -> (r: Result<Vec<Amf3Value>>)
    ensures
        match r {
            Ok(v) => message_at(buf@, 0, Tables::new(), switched).out == Ok::<Seq<Amf3>, Fault>(
                views(v@),
            ),
            Err(e) => message_at(buf@, 0, Tables::new(), switched).out == Err::<Seq<Amf3>, Fault>(
                e@,
            ),
        },
{
    let mut d = Decoder::new();
    let mut pos: usize = 0;
    let mut out: Vec<Amf3Value> = Vec::new();
    let ghost whole = message_at(buf@, 0, Tables::new(), switched);
    proof {
        assert(views(out@) =~= Seq::empty());
        lemma_before_nothing(whole);
    }
    while pos < buf.len()
        invariant
            d@.readers == Seq::<(String, Box<dyn ExternalizableReader>)>::empty(),
            whole == message_at(buf@, 0, Tables::new(), switched),
            whole == before(
                views(out@),
                message_at(buf@, pos as int, d@.tables, switched),
            ),
        decreases buf@.len() - pos,
    {
        let ghost done = views(out@);
        if switched && buf[pos] == AVMPLUS_OBJECT_MARKER {
            pos = pos + 1;
            if pos >= buf.len() {
                return Err(
                    invalid_amf0("avmplus marker (0x11) at end of body with no AMF3 value"),
                );
            }
        }
        match d.decode(buf, &mut pos) {
            Err(e) => {
                return Err(e);
            },
            Ok(v) => {
                let ghost here = v@;
                out.push(v);
                proof {
                    assert(views(out@) =~= done + seq![here]);
                    lemma_before_twice(
                        done,
                        seq![here],
                        message_at(buf@, pos as int, d@.tables, switched),
                    );
                }
            },
        }
    }
    assert(views(out@) + Seq::empty() =~= views(out@));
    Ok(out)
}

/// Read values until the input is used up, with one set of tables for all.
pub fn decode_all(buf: &[u8]) -> (r: Result<Vec<Amf3Value>>)
    ensures
        match r {
            Ok(v) => message_at(buf@, 0, Tables::new(), false).out == Ok::<Seq<Amf3>, Fault>(
                views(v@),
            ),
            Err(e) => message_at(buf@, 0, Tables::new(), false).out == Err::<Seq<Amf3>, Fault>(
                e@,
            ),
        },
{
    decode_message(buf, false)
}

/// Read the body of an AMF3 data or command message: values with or without the
/// marker in front that switches from AMF0.
pub fn decode_data_message(buf: &[u8]) -> (r: Result<Vec<Amf3Value>>)
    ensures
        match r {
            Ok(v) => message_at(buf@, 0, Tables::new(), true).out == Ok::<Seq<Amf3>, Fault>(
                views(v@),
            ),
            Err(e) => message_at(buf@, 0, Tables::new(), true).out == Err::<Seq<Amf3>, Fault>(e@),
        },
{
    decode_message(buf, true)
}

} // verus!
