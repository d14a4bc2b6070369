//! What decoding makes of encoded AMF3 values, and what the tables keep.

use vstd::prelude::*;
#[allow(unused_imports)]
use vstd::utf8::encode_utf8;
#[allow(unused_imports)]
use crate::amf3::decode::{
    answer, array_at, dictionary_at, entries_at, flat_at, long_words_at, members_at, message_at,
    names_at, object_at, signed32, simple_at, string_at, text_body, traits_at, value_at, values_at,
    vector_at, words_at, zipped, Readers, Step, Tables, TraitView, AVMPLUS_OBJECT_MARKER,
};
#[allow(unused_imports)]
use crate::amf3::encode::{
    encoded, entries_bytes, flag, in_29_bits, int_words, literal, long_words_bytes, members_bytes,
    names_bytes, sealed_bytes, text_bytes, traits_header, values_bytes, words_bytes,
};
#[allow(unused_imports)]
use crate::amf3::u29::{
    bits29, law_i29_round_trip, law_u29_length, law_u29_round_trip, u29_at, u29_bytes,
};
#[allow(unused_imports)]
use crate::amf3::value::Amf3;
#[allow(unused_imports)]
use crate::amf3::{
    M_ARRAY, M_BYTE_ARRAY, M_DATE, M_DICTIONARY, M_DOUBLE, M_INTEGER, M_OBJECT, M_STRING,
    M_VECTOR_DOUBLE, M_VECTOR_INT, M_VECTOR_OBJECT, M_VECTOR_UINT, M_XML, M_XML_DOC,
};
#[allow(unused_imports)]
use crate::amf::Failure;
#[allow(unused_imports)]
use crate::error::Fault;
#[allow(unused_imports)]
use crate::number::int_bits;
#[allow(unused_imports)]
use crate::wire::{be32, be32_bytes, be64, be64_bytes, lemma_be32, lemma_be64};

verus! {

/// Whether a text fits its length.
pub open spec fn text_fits(t: Seq<char>) -> bool {
    encode_utf8(t).len() < 0x1000_0000
}

/// Whether the reader of a class knows `body` wherever it stands.
pub open spec fn body_known(h: Readers, class: Seq<char>, body: Seq<u8>) -> bool {
    forall|s: Seq<u8>, pos: int|
        #![trigger answer(h, 0, class, s, pos)]
        at(s, pos, body) ==> answer(h, 0, class, s, pos) == Some(
            Ok::<usize, Fault>(body.len() as usize),
        ) && body.len() <= usize::MAX
}

/// Whether `x` stands in `s` at offset `o`.
pub open spec fn at(s: Seq<u8>, o: int, x: Seq<u8>) -> bool {
    &&& 0 <= o
    &&& o + x.len() <= s.len()
    &&& s.subrange(o, o + x.len()) == x
}

/// Whether a value can be written as it is and read back with `room` levels of
/// nesting.
pub open spec fn fits(v: Amf3, room: nat, h: Readers) -> bool
    decreases v,
{
    room >= 1 && match v {
        Amf3::Integer(n) => in_29_bits(n),
        Amf3::String(t) => text_fits(t),
        Amf3::XmlDocument(t) => text_fits(t),
        Amf3::Xml(t) => text_fits(t),
        Amf3::ByteArray(b) => b.len() < 0x1000_0000,
        Amf3::Array { dense, assoc } => {
            &&& dense.len() < 0x1000_0000
            &&& members_fit(assoc, (room - 1) as nat, h)
            &&& values_fit(dense, (room - 1) as nat, h)
        },
        Amf3::Object { class_name, dynamic, sealed, dynamic_members, externalizable_body } => {
            &&& text_fits(class_name)
            &&& match externalizable_body {
                Some(body) => {
                    &&& body_known(h, class_name, body)
                    &&& !dynamic
                    &&& sealed.len() == 0
                    &&& dynamic_members.len() == 0
                },
                None => {
                    &&& sealed.len() < 0x200_0000
                    &&& sealed_fit(sealed, (room - 1) as nat, h)
                    &&& if dynamic {
                        members_fit(dynamic_members, (room - 1) as nat, h)
                    } else {
                        dynamic_members.len() == 0
                    }
                },
            }
        },
        Amf3::VectorInt { fixed, ints } => ints.len() < 0x1000_0000,
        Amf3::VectorUInt { fixed, uints } => uints.len() < 0x1000_0000,
        Amf3::VectorDouble { fixed, doubles } => doubles.len() < 0x1000_0000,
        Amf3::VectorObject { fixed, object_type_name, values } => {
            &&& values.len() < 0x1000_0000
            &&& text_fits(object_type_name)
            &&& values_fit(values, (room - 1) as nat, h)
        },
        Amf3::Dictionary { weak_keys, entries } => {
            &&& entries.len() < 0x1000_0000
            &&& entries_fit(entries, (room - 1) as nat, h)
        },
        _ => true,
    }
}

/// Whether named values fit; the empty name is the one that ends them.
pub open spec fn members_fit(p: Seq<(Seq<char>, Amf3)>, room: nat, h: Readers) -> bool
    decreases p,
{
    p.len() == 0 || {
        &&& text_fits(p[0].0)
        &&& p[0].0.len() > 0
        &&& fits(p[0].1, room, h)
        &&& members_fit(p.subrange(1, p.len() as int), room, h)
    }
}

/// Whether sealed members fit.
pub open spec fn sealed_fit(p: Seq<(Seq<char>, Amf3)>, room: nat, h: Readers) -> bool
    decreases p,
{
    p.len() == 0 || {
        &&& text_fits(p[0].0)
        &&& fits(p[0].1, room, h)
        &&& sealed_fit(p.subrange(1, p.len() as int), room, h)
    }
}

/// Whether a run of values fits.
pub open spec fn values_fit(a: Seq<Amf3>, room: nat, h: Readers) -> bool
    decreases a,
{
    a.len() == 0 || (fits(a[0], room, h) && values_fit(
        a.subrange(1, a.len() as int),
        room,
        h,
    ))
}

/// Whether keys and values fit.
pub open spec fn entries_fit(p: Seq<(Amf3, Amf3)>, room: nat, h: Readers) -> bool
    decreases p,
{
    p.len() == 0 || {
        &&& fits(p[0].0, room, h)
        &&& fits(p[0].1, room, h)
        &&& entries_fit(p.subrange(1, p.len() as int), room, h)
    }
}

// ---------------------------------------------------------------------------
// Places
// ---------------------------------------------------------------------------

proof fn lemma_split(s: Seq<u8>, o: int, a: Seq<u8>, b: Seq<u8>)
    requires
        at(s, o, a + b),
    ensures
        at(s, o, a),
        at(s, o + a.len(), b),
{
    let x = a + b;
    assert(s.subrange(o, o + a.len()) =~= a) by {
        assert forall|i: int| 0 <= i < a.len() implies s[o + i] == a[i] by {
            assert(x[i] == s.subrange(o, o + x.len())[i]);
        }
    }
    assert(s.subrange(o + a.len(), o + a.len() + b.len()) =~= b) by {
        assert forall|i: int| 0 <= i < b.len() implies s[o + a.len() + i] == b[i] by {
            assert(x[a.len() + i] == s.subrange(o, o + x.len())[a.len() + i]);
        }
    }
}

proof fn lemma_byte(s: Seq<u8>, o: int, b: u8)
    requires
        at(s, o, seq![b]),
    ensures
        o < s.len(),
        s[o] == b,
{
    assert(seq![b][0] == s.subrange(o, o + 1)[0]);
}

proof fn lemma_u29(s: Seq<u8>, o: int, v: u32)
    requires
        at(s, o, u29_bytes(v)),
        v < 0x2000_0000,
    ensures
        u29_at(s, o) == Ok::<(u32, int), Failure>((v, o + u29_bytes(v).len())),
        u29_bytes(v).len() >= 1,
{
    let x = u29_bytes(v);
    let pre = s.subrange(0, o);
    let post = s.subrange(o + x.len(), s.len() as int);
    assert(pre + x + post =~= s);
    law_u29_round_trip(pre, v, post);
    law_u29_length(v);
}

/// A marker and a header.
proof fn lemma_head(s: Seq<u8>, o: int, m: u8, v: u32)
    requires
        at(s, o, seq![m] + u29_bytes(v)),
        v < 0x2000_0000,
    ensures
        0 <= o < s.len(),
        s[o] == m,
        u29_at(s, o + 1) == Ok::<(u32, int), Failure>((v, o + 1 + u29_bytes(v).len())),
        u29_bytes(v).len() >= 1,
{
    lemma_split(s, o, seq![m], u29_bytes(v));
    lemma_byte(s, o, m);
    lemma_u29(s, o + 1, v);
}

proof fn lemma_text_body(s: Seq<u8>, o: int, t: Seq<char>)
    requires
        at(s, o, encode_utf8(t)),
    ensures
        text_body(s, o, encode_utf8(t).len() as int) == Ok::<(Seq<char>, int), Failure>(
            (t, (o + encode_utf8(t).len()) as int),
        ),
{
    vstd::utf8::encode_utf8_valid_utf8(t);
    vstd::utf8::encode_utf8_decode_utf8(t);
}

proof fn lemma_text(s: Seq<u8>, o: int, t: Seq<char>, tables: Tables)
    requires
        at(s, o, text_bytes(t)),
        text_fits(t),
    ensures
        string_at(s, o, tables).out == Ok::<Seq<char>, Fault>(t),
        string_at(s, o, tables).pos == o + text_bytes(t).len(),
        text_bytes(t).len() >= 1,
{
    let b = encode_utf8(t);
    let n = literal(b.len());
    lemma_split(s, o, u29_bytes(n), b);
    lemma_u29(s, o, n);
    lemma_text_body(s, o + u29_bytes(n).len(), t);
}

proof fn lemma_words(s: Seq<u8>, o: int, w: Seq<u32>)
    requires
        at(s, o, words_bytes(w)),
    ensures
        words_at(s, o, w.len()) == Ok::<(Seq<u32>, int), Failure>((w, o + 4 * w.len())),
        words_bytes(w).len() == 4 * w.len(),
{
    reveal(words_bytes);
    let x = words_bytes(w);
    assert forall|i: int| 0 <= i < w.len() implies be32(s, o + 4 * i) == w[i] by {
        assert(s.subrange(o + 4 * i, o + 4 * i + 4) =~= be32_bytes(w[i])) by {
            assert forall|j: int| 0 <= j < 4 implies s[o + 4 * i + j] == be32_bytes(w[i])[j] by {
                assert(x[4 * i + j] == s.subrange(o, o + x.len())[4 * i + j]);
                assert((4 * i + j) / 4 == i && (4 * i + j) % 4 == j);
            }
        }
        lemma_be32(s, o + 4 * i, w[i]);
    }
    assert(Seq::new(w.len(), |i: int| be32(s, o + 4 * i)) =~= w);
}

proof fn lemma_long_words(s: Seq<u8>, o: int, w: Seq<u64>)
    requires
        at(s, o, long_words_bytes(w)),
    ensures
        long_words_at(s, o, w.len()) == Ok::<(Seq<u64>, int), Failure>((w, o + 8 * w.len())),
        long_words_bytes(w).len() == 8 * w.len(),
{
    reveal(long_words_bytes);
    let x = long_words_bytes(w);
    assert forall|i: int| 0 <= i < w.len() implies be64(s, o + 8 * i) == w[i] by {
        assert(s.subrange(o + 8 * i, o + 8 * i + 8) =~= be64_bytes(w[i])) by {
            assert forall|j: int| 0 <= j < 8 implies s[o + 8 * i + j] == be64_bytes(w[i])[j] by {
                assert(x[8 * i + j] == s.subrange(o, o + x.len())[8 * i + j]);
                assert((8 * i + j) / 8 == i && (8 * i + j) % 8 == j);
            }
        }
        lemma_be64(s, o + 8 * i, w[i]);
    }
    assert(Seq::new(w.len(), |i: int| be64(s, o + 8 * i)) =~= w);
}

// ---------------------------------------------------------------------------
// Reading what was written
// ---------------------------------------------------------------------------

/// Whether `v` is read at `pos`, up to `end`.
spec fn reads(r: Step<Amf3>, v: Amf3, end: int) -> bool {
    r.out == Ok::<Amf3, Fault>(v) && r.pos == end
}

proof fn lemma_simple(s: Seq<u8>, o: int, v: Amf3, t: Tables)
    requires
        at(s, o, encoded(v)),
        match v {
            Amf3::Undefined => true,
            Amf3::Null => true,
            Amf3::Boolean(_) => true,
            Amf3::Integer(n) => in_29_bits(n),
            Amf3::Double(_) => true,
            Amf3::String(x) => text_fits(x),
            _ => false,
        },
    ensures
        0 <= o < s.len(),
        s[o] <= M_STRING,
        reads(simple_at(s, o + 1, t, s[o]), v, o + encoded(v).len()),
{
    match v {
        Amf3::Integer(n) => {
            law_i29_round_trip(n);
            lemma_head(s, o, M_INTEGER, bits29(n));
        },
        Amf3::Double(d) => {
            lemma_split(s, o, seq![M_DOUBLE], be64_bytes(d));
            lemma_byte(s, o, M_DOUBLE);
            lemma_be64(s, o + 1, d);
        },
        Amf3::String(x) => {
            lemma_split(s, o, seq![M_STRING], text_bytes(x));
            lemma_byte(s, o, M_STRING);
            lemma_text(s, o + 1, x, t);
        },
        _ => {
            lemma_byte(s, o, encoded(v)[0]);
        },
    }
}

proof fn lemma_document(s: Seq<u8>, o: int, m: u8, x: Seq<char>, t: Tables)
    requires
        at(s, o, seq![m] + text_bytes(x)),
        text_fits(x),
        m == M_XML || m == M_XML_DOC,
    ensures
        0 <= o < s.len(),
        s[o] == m,
        u29_at(s, o + 1) == Ok::<(u32, int), Failure>(
            (literal(encode_utf8(x).len()), o + 1 + u29_bytes(literal(encode_utf8(x).len())).len()),
        ),
        reads(
            flat_at(
                s,
                o + 1 + u29_bytes(literal(encode_utf8(x).len())).len(),
                t,
                m,
                encode_utf8(x).len(),
            ),
            if m == M_XML {
                Amf3::Xml(x)
            } else {
                Amf3::XmlDocument(x)
            },
            o + 1 + text_bytes(x).len(),
        ),
{
    let b = encode_utf8(x);
    let n = literal(b.len());
    lemma_split(s, o, seq![m], text_bytes(x));
    lemma_byte(s, o, m);
    lemma_split(s, o + 1, u29_bytes(n), b);
    lemma_u29(s, o + 1, n);
    lemma_text_body(s, o + 1 + u29_bytes(n).len(), x);
}

/// The marker of a value without parts.
spec fn flat_marker(v: Amf3) -> u8 {
    match v {
        Amf3::Date(_) => M_DATE,
        Amf3::ByteArray(_) => M_BYTE_ARRAY,
        Amf3::VectorInt { .. } => M_VECTOR_INT,
        Amf3::VectorUInt { .. } => M_VECTOR_UINT,
        Amf3::VectorDouble { .. } => M_VECTOR_DOUBLE,
        _ => 0,
    }
}

/// The count of a value without parts.
spec fn flat_count(v: Amf3) -> nat {
    match v {
        Amf3::Date(_) => 0,
        Amf3::ByteArray(b) => b.len(),
        Amf3::VectorInt { ints, .. } => ints.len(),
        Amf3::VectorUInt { uints, .. } => uints.len(),
        Amf3::VectorDouble { doubles, .. } => doubles.len(),
        _ => 0,
    }
}

/// What stands behind the header of a value without parts.
spec fn flat_rest(v: Amf3) -> Seq<u8> {
    match v {
        Amf3::Date(d) => be64_bytes(d),
        Amf3::ByteArray(b) => b,
        Amf3::VectorInt { fixed, ints } => seq![flag(fixed)] + words_bytes(int_words(ints)),
        Amf3::VectorUInt { fixed, uints } => seq![flag(fixed)] + words_bytes(uints),
        Amf3::VectorDouble { fixed, doubles } => seq![flag(fixed)] + long_words_bytes(doubles),
        _ => Seq::empty(),
    }
}

proof fn lemma_regroup(a: Seq<u8>, b: Seq<u8>, c: Seq<u8>)
    ensures
        a + b + c == a + (b + c),
{
    assert(a + b + c =~= a + (b + c));
}

proof fn lemma_flat_parts(v: Amf3)
    requires
        flat_marker(v) != 0,
    ensures
        encoded(v) == seq![flat_marker(v)] + u29_bytes(literal(flat_count(v))) + flat_rest(v),
{
    let head = seq![flat_marker(v)] + u29_bytes(literal(flat_count(v)));
    match v {
        Amf3::VectorInt { fixed, ints } => {
            lemma_regroup(head, seq![flag(fixed)], words_bytes(int_words(ints)));
        },
        Amf3::VectorUInt { fixed, uints } => {
            lemma_regroup(head, seq![flag(fixed)], words_bytes(uints));
        },
        Amf3::VectorDouble { fixed, doubles } => {
            lemma_regroup(head, seq![flag(fixed)], long_words_bytes(doubles));
        },
        _ => {},
    }
}

proof fn lemma_flat(s: Seq<u8>, q: int, v: Amf3, t: Tables)
    requires
        flat_marker(v) != 0,
        at(s, q, flat_rest(v)),
    ensures
        reads(flat_at(s, q, t, flat_marker(v), flat_count(v)), v, q + flat_rest(v).len()),
{
    match v {
        Amf3::Date(d) => {
            lemma_be64(s, q, d);
        },
        Amf3::VectorInt { fixed, ints } => {
            lemma_split(s, q, seq![flag(fixed)], words_bytes(int_words(ints)));
            lemma_byte(s, q, flag(fixed));
            lemma_words(s, q + 1, int_words(ints));
            let words = int_words(ints);
            assert(Seq::new(words.len(), |i: int| signed32(words[i])) =~= ints);
        },
        Amf3::VectorUInt { fixed, uints } => {
            lemma_split(s, q, seq![flag(fixed)], words_bytes(uints));
            lemma_byte(s, q, flag(fixed));
            lemma_words(s, q + 1, uints);
        },
        Amf3::VectorDouble { fixed, doubles } => {
            lemma_split(s, q, seq![flag(fixed)], long_words_bytes(doubles));
            lemma_byte(s, q, flag(fixed));
            lemma_long_words(s, q + 1, doubles);
        },
        _ => {},
    }
}

spec fn names_of(p: Seq<(Seq<char>, Amf3)>) -> Seq<Seq<char>> {
    Seq::new(p.len(), |i: int| p[i].0)
}

spec fn values_of(p: Seq<(Seq<char>, Amf3)>) -> Seq<Amf3> {
    Seq::new(p.len(), |i: int| p[i].1)
}

proof fn lemma_names(s: Seq<u8>, o: int, p: Seq<(Seq<char>, Amf3)>, t: Tables, room: nat, h: Readers)
    requires
        at(s, o, names_bytes(p)),
        sealed_fit(p, room, h),
    ensures
        names_at(s, o, t, p.len()).out == Ok::<Seq<Seq<char>>, Fault>(names_of(p)),
        names_at(s, o, t, p.len()).pos == o + names_bytes(p).len(),
    decreases p.len(),
{
    if p.len() == 0 {
        assert(names_of(p) =~= Seq::empty());
    } else {
        let tail = p.subrange(1, p.len() as int);
        lemma_split(s, o, text_bytes(p[0].0), names_bytes(tail));
        lemma_text(s, o, p[0].0, t);
        let r = string_at(s, o, t);
        lemma_names(s, r.pos, tail, r.tables, room, h);
        assert(seq![p[0].0] + names_of(tail) =~= names_of(p));
    }
}

/// The offset behind a marker at `o` and the header `v`.
spec fn behind(o: int, v: u32) -> int {
    o + 1 + u29_bytes(v).len()
}

/// Whether marker `m` and header `v` stand at `o`.
spec fn headed(s: Seq<u8>, o: int, m: u8, v: u32) -> bool {
    &&& 0 <= o < s.len()
    &&& s[o] == m
    &&& u29_at(s, o + 1) == Ok::<(u32, int), Failure>((v, behind(o, v)))
}

proof fn lemma_flat_value(s: Seq<u8>, o: int, v: Amf3, depth: nat, t: Tables, h: Readers)
    requires
        at(s, o, encoded(v)),
        depth < 64,
        flat_marker(v) != 0,
        flat_count(v) < 0x1000_0000,
    ensures
        reads(value_at(s, o, depth, t, h), v, o + encoded(v).len()),
        encoded(v).len() >= 1,
{
    lemma_flat_parts(v);
    let head = seq![flat_marker(v)] + u29_bytes(literal(flat_count(v)));
    lemma_split(s, o, head, flat_rest(v));
    lemma_head(s, o, flat_marker(v), literal(flat_count(v)));
    lemma_flat(s, o + head.len(), v, t);
    lemma_flat_step(s, o, flat_marker(v), flat_count(v), depth, t, h);
}

proof fn lemma_array_layout(s: Seq<u8>, o: int, dense: Seq<Amf3>, assoc: Seq<(Seq<char>, Amf3)>)
    requires
        at(s, o, encoded(Amf3::Array { dense, assoc })),
        dense.len() < 0x1000_0000,
    ensures
        headed(s, o, M_ARRAY, literal(dense.len())),
        ({
            let q = behind(o, literal(dense.len()));
            let a = members_bytes(assoc);
            let b = values_bytes(dense);
            &&& at(s, q, a)
            &&& at(s, q + a.len(), b)
            &&& o + encoded(Amf3::Array { dense, assoc }).len() == q + a.len() + b.len()
        }),
{
    let n = literal(dense.len());
    let head = seq![M_ARRAY] + u29_bytes(n);
    let a = members_bytes(assoc);
    let b = values_bytes(dense);
    lemma_split(s, o, head + a, b);
    lemma_split(s, o, head, a);
    lemma_head(s, o, M_ARRAY, n);
}

proof fn lemma_array_step(
    s: Seq<u8>,
    o: int,
    dense: Seq<Amf3>,
    assoc: Seq<(Seq<char>, Amf3)>,
    depth: nat,
    t: Tables,
    h: Readers,
)
    requires
        depth < 64,
        dense.len() < 0x1000_0000,
        headed(s, o, M_ARRAY, literal(dense.len())),
        ({
            let q = behind(o, literal(dense.len()));
            let a = members_at(s, q, depth + 1, t.with_object(Amf3::Null), h);
            let b = values_at(s, a.pos, depth + 1, a.tables, h, dense.len());
            &&& a.out == Ok::<Seq<(Seq<char>, Amf3)>, Fault>(assoc)
            &&& b.out == Ok::<Seq<Amf3>, Fault>(dense)
        }),
    ensures
        ({
            let q = behind(o, literal(dense.len()));
            let a = members_at(s, q, depth + 1, t.with_object(Amf3::Null), h);
            let b = values_at(s, a.pos, depth + 1, a.tables, h, dense.len());
            reads(value_at(s, o, depth, t, h), Amf3::Array { dense, assoc }, b.pos)
        }),
{
}

proof fn lemma_vector_layout(
    s: Seq<u8>,
    o: int,
    fixed: bool,
    object_type_name: Seq<char>,
    values: Seq<Amf3>,
)
    requires
        at(s, o, encoded(Amf3::VectorObject { fixed, object_type_name, values })),
        values.len() < 0x1000_0000,
    ensures
        headed(s, o, M_VECTOR_OBJECT, literal(values.len())),
        ({
            let q = behind(o, literal(values.len()));
            let a = text_bytes(object_type_name);
            let b = values_bytes(values);
            &&& q < s.len()
            &&& s[q] == flag(fixed)
            &&& at(s, q + 1, a)
            &&& at(s, q + 1 + a.len(), b)
            &&& o + encoded(Amf3::VectorObject { fixed, object_type_name, values }).len() == q + 1
                + a.len() + b.len()
        }),
{
    let n = literal(values.len());
    let head = seq![M_VECTOR_OBJECT] + u29_bytes(n);
    let f = seq![flag(fixed)];
    let name = text_bytes(object_type_name);
    let b = values_bytes(values);
    lemma_split(s, o, head + f + name, b);
    lemma_split(s, o, head + f, name);
    lemma_split(s, o, head, f);
    lemma_head(s, o, M_VECTOR_OBJECT, n);
    lemma_byte(s, o + head.len(), flag(fixed));
}

proof fn lemma_vector_step(
    s: Seq<u8>,
    o: int,
    fixed: bool,
    object_type_name: Seq<char>,
    values: Seq<Amf3>,
    depth: nat,
    t: Tables,
    h: Readers,
)
    requires
        depth < 64,
        values.len() < 0x1000_0000,
        headed(s, o, M_VECTOR_OBJECT, literal(values.len())),
        ({
            let q = behind(o, literal(values.len()));
            let c = string_at(s, q + 1, t);
            let a = values_at(
                s,
                c.pos,
                depth + 1,
                c.tables.with_object(Amf3::Null),
                h,
                values.len(),
            );
            &&& q < s.len()
            &&& s[q] == flag(fixed)
            &&& c.out == Ok::<Seq<char>, Fault>(object_type_name)
            &&& a.out == Ok::<Seq<Amf3>, Fault>(values)
        }),
    ensures
        ({
            let q = behind(o, literal(values.len()));
            let c = string_at(s, q + 1, t);
            let a = values_at(
                s,
                c.pos,
                depth + 1,
                c.tables.with_object(Amf3::Null),
                h,
                values.len(),
            );
            reads(
                value_at(s, o, depth, t, h),
                Amf3::VectorObject { fixed, object_type_name, values },
                a.pos,
            )
        }),
{
}

proof fn lemma_dictionary_layout(s: Seq<u8>, o: int, weak_keys: bool, entries: Seq<(Amf3, Amf3)>)
    requires
        at(s, o, encoded(Amf3::Dictionary { weak_keys, entries })),
        entries.len() < 0x1000_0000,
    ensures
        headed(s, o, M_DICTIONARY, literal(entries.len())),
        ({
            let q = behind(o, literal(entries.len()));
            let b = entries_bytes(entries);
            &&& q < s.len()
            &&& s[q] == flag(weak_keys)
            &&& at(s, q + 1, b)
            &&& o + encoded(Amf3::Dictionary { weak_keys, entries }).len() == q + 1 + b.len()
        }),
{
    let n = literal(entries.len());
    let head = seq![M_DICTIONARY] + u29_bytes(n);
    let f = seq![flag(weak_keys)];
    let b = entries_bytes(entries);
    lemma_split(s, o, head + f, b);
    lemma_split(s, o, head, f);
    lemma_head(s, o, M_DICTIONARY, n);
    lemma_byte(s, o + head.len(), flag(weak_keys));
}

proof fn lemma_dictionary_step(
    s: Seq<u8>,
    o: int,
    weak_keys: bool,
    entries: Seq<(Amf3, Amf3)>,
    depth: nat,
    t: Tables,
    h: Readers,
)
    requires
        depth < 64,
        entries.len() < 0x1000_0000,
        headed(s, o, M_DICTIONARY, literal(entries.len())),
        ({
            let q = behind(o, literal(entries.len()));
            let a = entries_at(
                s,
                q + 1,
                depth + 1,
                t.with_object(Amf3::Null),
                h,
                entries.len(),
            );
            &&& q < s.len()
            &&& s[q] == flag(weak_keys)
            &&& a.out == Ok::<Seq<(Amf3, Amf3)>, Fault>(entries)
        }),
    ensures
        ({
            let q = behind(o, literal(entries.len()));
            let a = entries_at(
                s,
                q + 1,
                depth + 1,
                t.with_object(Amf3::Null),
                h,
                entries.len(),
            );
            reads(value_at(s, o, depth, t, h), Amf3::Dictionary { weak_keys, entries }, a.pos)
        }),
{
}

/// What an object reads as once its traits are read.
proof fn lemma_object_step(
    s: Seq<u8>,
    o: int,
    header: u32,
    depth: nat,
    t: Tables,
    h: Readers,
)
    requires
        depth < 64,
        header % 2 == 1,
        headed(s, o, M_OBJECT, header),
        traits_at(s, behind(o, header), t, header).out is Ok,
    ensures
        ({
            let r = traits_at(s, behind(o, header), t, header);
            value_at(s, o, depth, t, h) == object_at(
                s,
                r.pos,
                depth + 1,
                r.tables,
                h,
                r.out->Ok_0,
            )
        }),
{
}

proof fn lemma_external(
    s: Seq<u8>,
    o: int,
    class_name: Seq<char>,
    body: Seq<u8>,
    depth: nat,
    t: Tables,
    h: Readers,
)
    requires
        at(s, o, seq![M_OBJECT] + u29_bytes(7) + text_bytes(class_name) + body),
        depth < 64,
        text_fits(class_name),
        body_known(h, class_name, body),
        s.len() <= usize::MAX,
    ensures
        reads(
            value_at(s, o, depth, t, h),
            Amf3::Object {
                class_name,
                dynamic: false,
                sealed: Seq::empty(),
                dynamic_members: Seq::empty(),
                externalizable_body: Some(body),
            },
            o + (seq![M_OBJECT] + u29_bytes(7) + text_bytes(class_name) + body).len(),
        ),
{
    let class = text_bytes(class_name);
    let head = seq![M_OBJECT] + u29_bytes(7);
    lemma_split(s, o, head + class, body);
    lemma_split(s, o, head, class);
    lemma_head(s, o, M_OBJECT, 7);
    let q = behind(o, 7);
    lemma_text(s, q, class_name, t);
    let r = traits_at(s, q, t, 7);
    let c = string_at(s, q, t);
    assert(names_at(s, c.pos, c.tables, 0).out == Ok::<Seq<Seq<char>>, Fault>(Seq::empty()));
    assert(r.out is Ok && r.pos == q + class.len());
    lemma_object_step(s, o, 7, depth, t, h);
    assert(at(s, r.pos, body));
    assert(answer(h, 0, class_name, s, r.pos) == Some(Ok::<usize, Fault>(body.len() as usize)));
}

proof fn lemma_object_layout(
    s: Seq<u8>,
    o: int,
    class: Seq<u8>,
    header: u32,
    names: Seq<u8>,
    values: Seq<u8>,
    tail: Seq<u8>,
)
    requires
        at(s, o, seq![M_OBJECT] + u29_bytes(header) + class + names + values + tail),
        header < 0x2000_0000,
    ensures
        headed(s, o, M_OBJECT, header),
        ({
            let q = behind(o, header);
            &&& at(s, q, class)
            &&& at(s, q + class.len(), names)
            &&& at(s, q + class.len() + names.len(), values)
            &&& at(s, q + class.len() + names.len() + values.len(), tail)
            &&& o + (seq![M_OBJECT] + u29_bytes(header) + class + names + values + tail).len() == q
                + class.len() + names.len() + values.len() + tail.len()
        }),
{
    let head = seq![M_OBJECT] + u29_bytes(header);
    lemma_split(s, o, head + class + names + values, tail);
    lemma_split(s, o, head + class + names, values);
    lemma_split(s, o, head + class, names);
    lemma_split(s, o, head, class);
    lemma_head(s, o, M_OBJECT, header);
}

proof fn lemma_traits_header(sealed: nat, dynamic: bool)
    requires
        sealed < 0x200_0000,
    ensures
        ({
            let n = traits_header(sealed, dynamic);
            &&& n < 0x2000_0000
            &&& n % 2 == 1
            &&& n / 2 % 2 == 1
            &&& n / 4 % 2 == 0
            &&& n / 16 == sealed
            &&& (n / 8 % 2 == 1) == dynamic
        }),
{
}

proof fn lemma_simple_value(s: Seq<u8>, o: int, v: Amf3, depth: nat, t: Tables, h: Readers)
    requires
        at(s, o, encoded(v)),
        depth < 64,
        match v {
            Amf3::Undefined => true,
            Amf3::Null => true,
            Amf3::Boolean(_) => true,
            Amf3::Integer(n) => in_29_bits(n),
            Amf3::Double(_) => true,
            Amf3::String(x) => text_fits(x),
            _ => false,
        },
    ensures
        reads(value_at(s, o, depth, t, h), v, o + encoded(v).len()),
        encoded(v).len() >= 1,
{
    lemma_simple(s, o, v, t);
}

/// What a value without parts reads as once its header is read.
proof fn lemma_flat_step(s: Seq<u8>, o: int, m: u8, n: nat, depth: nat, t: Tables, h: Readers)
    requires
        depth < 64,
        n < 0x1000_0000,
        headed(s, o, m, literal(n)),
        M_STRING < m < M_DICTIONARY,
        m != M_ARRAY && m != M_OBJECT && m != M_VECTOR_OBJECT,
    ensures
        value_at(s, o, depth, t, h) == flat_at(s, behind(o, literal(n)), t, m, n),
{
    let header = literal(n);
    assert(s[o] == m);
    assert(u29_at(s, o + 1) == Ok::<(u32, int), Failure>((header, behind(o, header))));
    assert(header % 2 == 1 && header / 2 == n);
}

proof fn lemma_document_value(
    s: Seq<u8>,
    o: int,
    m: u8,
    x: Seq<char>,
    depth: nat,
    t: Tables,
    h: Readers,
)
    requires
        at(s, o, seq![m] + text_bytes(x)),
        depth < 64,
        text_fits(x),
        m == M_XML || m == M_XML_DOC,
    ensures
        reads(
            value_at(s, o, depth, t, h),
            if m == M_XML {
                Amf3::Xml(x)
            } else {
                Amf3::XmlDocument(x)
            },
            o + 1 + text_bytes(x).len(),
        ),
{
    lemma_document(s, o, m, x, t);
    lemma_flat_step(s, o, m, encode_utf8(x).len(), depth, t, h);
}

#[verifier::rlimit(60)]
proof fn lemma_value(s: Seq<u8>, o: int, v: Amf3, depth: nat, t: Tables, h: Readers)
    requires
        at(s, o, encoded(v)),
        depth < 64,
        fits(v, (64 - depth) as nat, h),
        s.len() <= usize::MAX,
    ensures
        reads(value_at(s, o, depth, t, h), v, o + encoded(v).len()),
        encoded(v).len() >= 1,
    decreases v, 1int,
{
    match v {
        Amf3::Undefined | Amf3::Null | Amf3::Boolean(_) | Amf3::Integer(_) | Amf3::Double(
            _,
        ) | Amf3::String(_) => {
            lemma_simple_value(s, o, v, depth, t, h);
        },
        Amf3::Xml(x) => {
            lemma_document_value(s, o, M_XML, x, depth, t, h);
        },
        Amf3::XmlDocument(x) => {
            lemma_document_value(s, o, M_XML_DOC, x, depth, t, h);
        },
        Amf3::Array { dense, assoc } => {
            lemma_array_layout(s, o, dense, assoc);
            let q = behind(o, literal(dense.len()));
            let t1 = t.with_object(Amf3::Null);
            lemma_members(s, q, assoc, depth + 1, t1, h);
            let r = members_at(s, q, depth + 1, t1, h);
            lemma_values(s, r.pos, dense, depth + 1, r.tables, h);
            lemma_array_step(s, o, dense, assoc, depth, t, h);
        },
        Amf3::Object { .. } => {
            lemma_object(s, o, v, depth, t, h);
        },
        Amf3::VectorObject { fixed, object_type_name, values } => {
            lemma_vector_layout(s, o, fixed, object_type_name, values);
            let q = behind(o, literal(values.len()));
            lemma_text(s, q + 1, object_type_name, t);
            let c = string_at(s, q + 1, t);
            lemma_values(s, c.pos, values, depth + 1, c.tables.with_object(Amf3::Null), h);
            lemma_vector_step(s, o, fixed, object_type_name, values, depth, t, h);
        },
        Amf3::Dictionary { weak_keys, entries } => {
            lemma_dictionary_layout(s, o, weak_keys, entries);
            let q = behind(o, literal(entries.len()));
            lemma_entries(s, q + 1, entries, depth + 1, t.with_object(Amf3::Null), h);
            lemma_dictionary_step(s, o, weak_keys, entries, depth, t, h);
        },
        _ => {
            lemma_flat_value(s, o, v, depth, t, h);
        },
    }
}

proof fn lemma_object(s: Seq<u8>, o: int, v: Amf3, depth: nat, t: Tables, h: Readers)
    requires
        at(s, o, encoded(v)),
        depth < 64,
        fits(v, (64 - depth) as nat, h),
        v is Object,
        s.len() <= usize::MAX,
    ensures
        reads(value_at(s, o, depth, t, h), v, o + encoded(v).len()),
        encoded(v).len() >= 1,
    decreases v, 0int,
{
    let class_name = v->class_name;
    let dynamic = v->dynamic;
    let sealed = v->sealed;
    let dynamic_members = v->dynamic_members;
    let externalizable_body = v->externalizable_body;
    if let Some(body) = externalizable_body {
        assert(sealed =~= Seq::empty() && dynamic_members =~= Seq::empty());
        lemma_external(s, o, class_name, body, depth, t, h);
    } else {
        let n = traits_header(sealed.len(), dynamic);
        let tail = if dynamic {
            members_bytes(dynamic_members)
        } else {
            Seq::empty()
        };
        lemma_traits_header(sealed.len(), dynamic);
        lemma_object_layout(
            s,
            o,
            text_bytes(class_name),
            n,
            names_bytes(sealed),
            sealed_bytes(sealed),
            tail,
        );
        let q = behind(o, n);
        lemma_text(s, q, class_name, t);
        let c = string_at(s, q, t);
        lemma_names(s, c.pos, sealed, c.tables, (64 - depth - 1) as nat, h);
        let r = traits_at(s, q, t, n);
        let traits = TraitView { class_name, dynamic, externalizable: false, names: names_of(sealed) };
        assert(r.out == Ok::<TraitView, Fault>(traits));
        lemma_object_step(s, o, n, depth, t, h);
        let t1 = r.tables.with_object(Amf3::Null);
        lemma_sealed(s, r.pos, sealed, depth + 1, t1, h);
        let a = values_at(s, r.pos, depth + 1, t1, h, sealed.len());
        if dynamic {
            lemma_members(s, a.pos, dynamic_members, depth + 1, a.tables, h);
        } else {
            assert(dynamic_members =~= Seq::empty());
        }
        assert(zipped(names_of(sealed), values_of(sealed)) =~= sealed);
    }
}

proof fn lemma_members(
    s: Seq<u8>,
    o: int,
    p: Seq<(Seq<char>, Amf3)>,
    depth: nat,
    t: Tables,
    h: Readers,
)
    requires
        at(s, o, members_bytes(p)),
        depth <= 64,
        members_fit(p, (64 - depth) as nat, h),
        s.len() <= usize::MAX,
    ensures
        members_at(s, o, depth, t, h).out == Ok::<Seq<(Seq<char>, Amf3)>, Fault>(p),
        members_at(s, o, depth, t, h).pos == o + members_bytes(p).len(),
    decreases p, 1int,
{
    if p.len() == 0 {
        let none = Seq::<char>::empty();
        assert(encode_utf8(none) =~= Seq::empty());
        assert(text_bytes(none) =~= u29_bytes(1));
        lemma_text(s, o, none, t);
        assert(p =~= Seq::empty());
    } else {
        let tail = p.subrange(1, p.len() as int);
        let key = text_bytes(p[0].0);
        let value = encoded(p[0].1);
        lemma_split(s, o, key + value, members_bytes(tail));
        lemma_split(s, o, key, value);
        lemma_text(s, o, p[0].0, t);
        let k = string_at(s, o, t);
        assert(fits(p[0].1, (64 - depth) as nat, h));
        lemma_value(s, k.pos, p[0].1, depth, k.tables, h);
        let r = value_at(s, k.pos, depth, k.tables, h);
        lemma_members(s, r.pos, tail, depth, r.tables, h);
        assert(seq![(p[0].0, p[0].1)] + tail =~= p);
    }
}

proof fn lemma_sealed(
    s: Seq<u8>,
    o: int,
    p: Seq<(Seq<char>, Amf3)>,
    depth: nat,
    t: Tables,
    h: Readers,
)
    requires
        at(s, o, sealed_bytes(p)),
        depth <= 64,
        sealed_fit(p, (64 - depth) as nat, h),
        s.len() <= usize::MAX,
    ensures
        values_at(s, o, depth, t, h, p.len()).out == Ok::<Seq<Amf3>, Fault>(values_of(p)),
        values_at(s, o, depth, t, h, p.len()).pos == o + sealed_bytes(p).len(),
    decreases p, 1int,
{
    if p.len() == 0 {
        assert(values_of(p) =~= Seq::empty());
    } else {
        let tail = p.subrange(1, p.len() as int);
        let value = encoded(p[0].1);
        lemma_split(s, o, value, sealed_bytes(tail));
        assert(fits(p[0].1, (64 - depth) as nat, h));
        lemma_value(s, o, p[0].1, depth, t, h);
        let r = value_at(s, o, depth, t, h);
        lemma_sealed(s, r.pos, tail, depth, r.tables, h);
        assert(seq![p[0].1] + values_of(tail) =~= values_of(p));
    }
}

proof fn lemma_values(s: Seq<u8>, o: int, a: Seq<Amf3>, depth: nat, t: Tables, h: Readers)
    requires
        at(s, o, values_bytes(a)),
        depth <= 64,
        values_fit(a, (64 - depth) as nat, h),
        s.len() <= usize::MAX,
    ensures
        values_at(s, o, depth, t, h, a.len()).out == Ok::<Seq<Amf3>, Fault>(a),
        values_at(s, o, depth, t, h, a.len()).pos == o + values_bytes(a).len(),
    decreases a, 1int,
{
    if a.len() == 0 {
        assert(a =~= Seq::empty());
    } else {
        let tail = a.subrange(1, a.len() as int);
        let value = encoded(a[0]);
        lemma_split(s, o, value, values_bytes(tail));
        assert(fits(a[0], (64 - depth) as nat, h));
        lemma_value(s, o, a[0], depth, t, h);
        let r = value_at(s, o, depth, t, h);
        lemma_values(s, r.pos, tail, depth, r.tables, h);
        assert(seq![a[0]] + tail =~= a);
    }
}

proof fn lemma_entries(s: Seq<u8>, o: int, p: Seq<(Amf3, Amf3)>, depth: nat, t: Tables, h: Readers)
    requires
        at(s, o, entries_bytes(p)),
        depth <= 64,
        entries_fit(p, (64 - depth) as nat, h),
        s.len() <= usize::MAX,
    ensures
        entries_at(s, o, depth, t, h, p.len()).out == Ok::<Seq<(Amf3, Amf3)>, Fault>(p),
        entries_at(s, o, depth, t, h, p.len()).pos == o + entries_bytes(p).len(),
    decreases p, 1int,
{
    if p.len() == 0 {
        assert(p =~= Seq::empty());
    } else {
        let tail = p.subrange(1, p.len() as int);
        let key = encoded(p[0].0);
        let value = encoded(p[0].1);
        lemma_split(s, o, key + value, entries_bytes(tail));
        lemma_split(s, o, key, value);
        assert(fits(p[0].0, (64 - depth) as nat, h) && fits(p[0].1, (64 - depth) as nat, h));
        lemma_value(s, o, p[0].0, depth, t, h);
        let k = value_at(s, o, depth, t, h);
        lemma_value(s, k.pos, p[0].1, depth, k.tables, h);
        let r = value_at(s, k.pos, depth, k.tables, h);
        lemma_entries(s, r.pos, tail, depth, r.tables, h);
        assert(seq![(p[0].0, p[0].1)] + tail =~= p);
    }
}

/// A value reads back as it was written, wherever it stands in a buffer and
/// whatever the tables hold, up to its last byte and no further. Values are left
/// out whose texts or counts are too long for their fields, whose integers need
/// more than 29 bits, that have an empty name among named values, that hold
/// members they do not write, or that nest deeper than 64 levels; and the reader
/// of a class that writes itself must know where its bytes end.
pub proof fn law_value_round_trip(pre: Seq<u8>, v: Amf3, post: Seq<u8>, t: Tables, h: Readers)
    requires
        fits(v, 64, h),
        (pre + encoded(v) + post).len() <= usize::MAX,
    ensures
        ({
            let r = value_at(pre + encoded(v) + post, pre.len() as int, 0, t, h);
            r.out == Ok::<Amf3, Fault>(v) && r.pos == pre.len() + encoded(v).len()
        }),
{
    let s = pre + encoded(v) + post;
    assert(s.subrange(pre.len() as int, (pre.len() + encoded(v).len()) as int) =~= encoded(v));
    lemma_value(s, pre.len() as int, v, 0, t, h);
}

/// An integer that needs more than 29 bits reads back as the double of the same
/// number.
pub proof fn law_wide_integer_reads_as_double(
    pre: Seq<u8>,
    n: i32,
    post: Seq<u8>,
    t: Tables,
    h: Readers,
)
    requires
        !in_29_bits(n),
    ensures
        ({
            let e = encoded(Amf3::Integer(n));
            let r = value_at(pre + e + post, pre.len() as int, 0, t, h);
            r.out == Ok::<Amf3, Fault>(Amf3::Double(int_bits(n as int))) && r.pos == pre.len()
                + e.len()
        }),
{
    let d = Amf3::Double(int_bits(n as int));
    let s = pre + encoded(d) + post;
    assert(encoded(Amf3::Integer(n)) == encoded(d));
    assert(s.subrange(pre.len() as int, (pre.len() + encoded(d).len()) as int) =~= encoded(d));
    lemma_simple(s, pre.len() as int, d, t);
}

proof fn lemma_message(s: Seq<u8>, o: int, a: Seq<Amf3>, t: Tables)
    requires
        at(s, o, values_bytes(a)),
        s.len() == o + values_bytes(a).len(),
        values_fit(a, 64, Seq::empty()),
        s.len() <= usize::MAX,
    ensures
        message_at(s, o, t, false).out == Ok::<Seq<Amf3>, Fault>(a),
    decreases a.len(),
{
    if a.len() == 0 {
        assert(a =~= Seq::empty());
    } else {
        let tail = a.subrange(1, a.len() as int);
        lemma_split(s, o, encoded(a[0]), values_bytes(tail));
        lemma_value(s, o, a[0], 0, t, Seq::empty());
        let r = value_at(s, o, 0, t, Seq::empty());
        lemma_message(s, r.pos, tail, r.tables);
        assert(seq![a[0]] + tail =~= a);
    }
}

/// Values written one after another read back as they were written.
pub proof fn law_message_round_trip(a: Seq<Amf3>)
    requires
        values_fit(a, 64, Seq::empty()),
        values_bytes(a).len() <= usize::MAX,
    ensures
        message_at(values_bytes(a), 0, Tables::new(), false).out == Ok::<Seq<Amf3>, Fault>(a),
{
    let s = values_bytes(a);
    assert(s.subrange(0, s.len() as int) =~= s);
    lemma_message(s, 0, a, Tables::new());
}

/// Values, each with the marker in front that switches from AMF0.
pub open spec fn wrapped_bytes(a: Seq<Amf3>) -> Seq<u8>
    decreases a.len(),
{
    if a.len() == 0 {
        Seq::empty()
    } else {
        seq![AVMPLUS_OBJECT_MARKER] + encoded(a[0]) + wrapped_bytes(a.subrange(1, a.len() as int))
    }
}

proof fn lemma_wrapped(s: Seq<u8>, o: int, a: Seq<Amf3>, t: Tables)
    requires
        at(s, o, wrapped_bytes(a)),
        s.len() == o + wrapped_bytes(a).len(),
        values_fit(a, 64, Seq::empty()),
        s.len() <= usize::MAX,
    ensures
        message_at(s, o, t, true).out == Ok::<Seq<Amf3>, Fault>(a),
    decreases a.len(),
{
    if a.len() == 0 {
        assert(a =~= Seq::empty());
    } else {
        let tail = a.subrange(1, a.len() as int);
        let m = seq![AVMPLUS_OBJECT_MARKER];
        lemma_split(s, o, m + encoded(a[0]), wrapped_bytes(tail));
        lemma_split(s, o, m, encoded(a[0]));
        lemma_byte(s, o, AVMPLUS_OBJECT_MARKER);
        lemma_value(s, o + 1, a[0], 0, t, Seq::empty());
        let r = value_at(s, o + 1, 0, t, Seq::empty());
        lemma_wrapped(s, r.pos, tail, r.tables);
        assert(seq![a[0]] + tail =~= a);
    }
}

/// A data message whose values each have the marker in front reads back as they
/// were written.
pub proof fn law_wrapped_message_round_trip(a: Seq<Amf3>)
    requires
        values_fit(a, 64, Seq::empty()),
        wrapped_bytes(a).len() <= usize::MAX,
    ensures
        message_at(wrapped_bytes(a), 0, Tables::new(), true).out == Ok::<Seq<Amf3>, Fault>(a),
{
    let s = wrapped_bytes(a);
    assert(s.subrange(0, s.len() as int) =~= s);
    lemma_wrapped(s, 0, a, Tables::new());
}

// ---------------------------------------------------------------------------
// What reading does to the tables and to the position
// ---------------------------------------------------------------------------

/// Whether everything in `t` has kept its place in `u`.
pub open spec fn kept(t: Tables, u: Tables) -> bool {
    &&& t.strings.len() <= u.strings.len()
    &&& t.objects.len() <= u.objects.len()
    &&& t.traits.len() <= u.traits.len()
    &&& forall|i: int| 0 <= i < t.strings.len() ==> #[trigger] u.strings[i] == t.strings[i]
    &&& forall|i: int| 0 <= i < t.objects.len() ==> #[trigger] u.objects[i] == t.objects[i]
    &&& forall|i: int| 0 <= i < t.traits.len() ==> #[trigger] u.traits[i] == t.traits[i]
}

/// Whether reading from `pos` kept the tables and, if it gave something, took at
/// least `least` bytes and did not run past the end.
pub open spec fn went_on<T>(s: Seq<u8>, pos: int, t: Tables, r: Step<T>, least: int) -> bool {
    &&& kept(t, r.tables)
    &&& r.out is Ok ==> pos + least <= r.pos <= s.len()
}

pub proof fn lemma_u29_moves(s: Seq<u8>, pos: int)
    requires
        0 <= pos,
        u29_at(s, pos) is Ok,
    ensures
        ({
            let (v, p) = u29_at(s, pos)->Ok_0;
            pos < p <= s.len()
        }),
{
    reveal(u29_at);
}

pub proof fn lemma_string_moves(s: Seq<u8>, pos: int, t: Tables)
    requires
        0 <= pos,
    ensures
        went_on(s, pos, t, string_at(s, pos, t), 1),
{
    if u29_at(s, pos) is Ok {
        lemma_u29_moves(s, pos);
    }
}

proof fn lemma_names_move(s: Seq<u8>, pos: int, t: Tables, n: nat)
    requires
        0 <= pos <= s.len(),
    ensures
        went_on(s, pos, t, names_at(s, pos, t, n), 0),
    decreases n,
{
    if n > 0 {
        lemma_string_moves(s, pos, t);
        let r = string_at(s, pos, t);
        if r.out is Ok {
            lemma_names_move(s, r.pos, r.tables, (n - 1) as nat);
        }
    }
}

pub proof fn lemma_traits_move(s: Seq<u8>, pos: int, t: Tables, header: u32)
    requires
        0 <= pos <= s.len(),
    ensures
        went_on(s, pos, t, traits_at(s, pos, t, header), 0),
        traits_at(s, pos, t, header).tables.objects == t.objects,
{
    lemma_string_moves(s, pos, t);
    let c = string_at(s, pos, t);
    if c.out is Ok {
        lemma_names_move(s, c.pos, c.tables, (header / 16) as nat);
        lemma_names_objects(s, c.pos, c.tables, (header / 16) as nat);
    }
}

proof fn lemma_names_objects(s: Seq<u8>, pos: int, t: Tables, n: nat)
    ensures
        names_at(s, pos, t, n).tables.objects == t.objects,
    decreases n,
{
    if n > 0 {
        let r = string_at(s, pos, t);
        if r.out is Ok {
            lemma_names_objects(s, r.pos, r.tables, (n - 1) as nat);
        }
    }
}

proof fn lemma_flat_moves(s: Seq<u8>, q: int, t: Tables, m: u8, n: nat)
    requires
        0 <= q <= s.len(),
    ensures
        went_on(s, q, t, flat_at(s, q, t, m, n), 0),
{
}

proof fn lemma_simple_moves(s: Seq<u8>, p: int, t: Tables, m: u8)
    requires
        0 <= p <= s.len(),
    ensures
        went_on(s, p, t, simple_at(s, p, t, m), 0),
{
    lemma_string_moves(s, p, t);
    if u29_at(s, p) is Ok {
        lemma_u29_moves(s, p);
    }
}

/// Whatever is read, what was sent before keeps its place in the tables, so that
/// an index means the same for the rest of the message; and a value takes at
/// least one byte and never runs past the end.
pub proof fn law_reading_keeps_tables(s: Seq<u8>, pos: int, depth: nat, t: Tables, h: Readers)
    requires
        0 <= pos,
    ensures
        went_on(s, pos, t, value_at(s, pos, depth, t, h), 1),
    decreases 64 - depth, 0int, 0int,
{
    if depth < 64 && pos < s.len() {
        let m = s[pos];
        if m <= M_STRING || m > M_DICTIONARY {
            lemma_simple_moves(s, pos + 1, t, m);
        } else if u29_at(s, pos + 1) is Ok {
            lemma_u29_moves(s, pos + 1);
            let (header, q) = u29_at(s, pos + 1)->Ok_0;
            let n = (header / 2) as nat;
            if header % 2 == 0 {
            } else if m == M_ARRAY {
                lemma_array_moves(s, q, depth + 1, t, h, n);
            } else if m == M_OBJECT {
                lemma_traits_move(s, q, t, header);
                let r = traits_at(s, q, t, header);
                if r.out is Ok {
                    lemma_object_moves(s, r.pos, depth + 1, r.tables, h, r.out->Ok_0);
                }
            } else if m == M_VECTOR_OBJECT {
                lemma_vector_moves(s, q, depth + 1, t, h, n);
            } else if m == M_DICTIONARY {
                lemma_dictionary_moves(s, q, depth + 1, t, h, n);
            } else {
                lemma_flat_moves(s, q, t, m, n);
            }
        }
    }
}

proof fn lemma_array_moves(s: Seq<u8>, pos: int, depth: nat, t: Tables, h: Readers, n: nat)
    requires
        0 <= pos <= s.len(),
        depth <= 64,
    ensures
        went_on(s, pos, t, array_at(s, pos, depth, t, h, n), 0),
    decreases 64 - depth, 2int, 0int,
{
    let t1 = t.with_object(Amf3::Null);
    lemma_members_move(s, pos, depth, t1, h);
    let a = members_at(s, pos, depth, t1, h);
    if a.out is Ok {
        lemma_values_move(s, a.pos, depth, a.tables, h, n);
    }
}

proof fn lemma_object_moves(
    s: Seq<u8>,
    pos: int,
    depth: nat,
    t: Tables,
    h: Readers,
    traits: TraitView,
)
    requires
        0 <= pos <= s.len(),
        depth <= 64,
    ensures
        went_on(s, pos, t, object_at(s, pos, depth, t, h, traits), 0),
    decreases 64 - depth, 2int, 0int,
{
    let t1 = t.with_object(Amf3::Null);
    if !traits.externalizable {
        lemma_values_move(s, pos, depth, t1, h, traits.names.len());
        let a = values_at(s, pos, depth, t1, h, traits.names.len());
        if a.out is Ok && traits.dynamic {
            lemma_members_move(s, a.pos, depth, a.tables, h);
        }
    }
}

proof fn lemma_vector_moves(s: Seq<u8>, pos: int, depth: nat, t: Tables, h: Readers, n: nat)
    requires
        0 <= pos <= s.len(),
        depth <= 64,
    ensures
        went_on(s, pos, t, vector_at(s, pos, depth, t, h, n), 0),
    decreases 64 - depth, 2int, 0int,
{
    if pos < s.len() {
        lemma_string_moves(s, pos + 1, t);
        let c = string_at(s, pos + 1, t);
        if c.out is Ok {
            lemma_values_move(s, c.pos, depth, c.tables.with_object(Amf3::Null), h, n);
        }
    }
}

proof fn lemma_dictionary_moves(s: Seq<u8>, pos: int, depth: nat, t: Tables, h: Readers, n: nat)
    requires
        0 <= pos <= s.len(),
        depth <= 64,
    ensures
        went_on(s, pos, t, dictionary_at(s, pos, depth, t, h, n), 0),
    decreases 64 - depth, 2int, 0int,
{
    if pos < s.len() {
        lemma_entries_move(s, pos + 1, depth, t.with_object(Amf3::Null), h, n);
    }
}

proof fn lemma_members_move(s: Seq<u8>, pos: int, depth: nat, t: Tables, h: Readers)
    requires
        0 <= pos <= s.len(),
        depth <= 64,
    ensures
        went_on(s, pos, t, members_at(s, pos, depth, t, h), 0),
    decreases 64 - depth, 1int, s.len() - pos,
{
    lemma_string_moves(s, pos, t);
    let k = string_at(s, pos, t);
    if k.out is Ok && k.out->Ok_0.len() > 0 {
        law_reading_keeps_tables(s, k.pos, depth, k.tables, h);
        let r = value_at(s, k.pos, depth, k.tables, h);
        if r.out is Ok {
            lemma_members_move(s, r.pos, depth, r.tables, h);
        }
    }
}

proof fn lemma_values_move(s: Seq<u8>, pos: int, depth: nat, t: Tables, h: Readers, n: nat)
    requires
        0 <= pos <= s.len(),
        depth <= 64,
    ensures
        went_on(s, pos, t, values_at(s, pos, depth, t, h, n), 0),
    decreases 64 - depth, 1int, n,
{
    if n > 0 {
        law_reading_keeps_tables(s, pos, depth, t, h);
        let r = value_at(s, pos, depth, t, h);
        if r.out is Ok {
            lemma_values_move(s, r.pos, depth, r.tables, h, (n - 1) as nat);
        }
    }
}

proof fn lemma_entries_move(s: Seq<u8>, pos: int, depth: nat, t: Tables, h: Readers, n: nat)
    requires
        0 <= pos <= s.len(),
        depth <= 64,
    ensures
        went_on(s, pos, t, entries_at(s, pos, depth, t, h, n), 0),
    decreases 64 - depth, 1int, n,
{
    if n > 0 {
        law_reading_keeps_tables(s, pos, depth, t, h);
        let k = value_at(s, pos, depth, t, h);
        if k.out is Ok {
            law_reading_keeps_tables(s, k.pos, depth, k.tables, h);
            let r = value_at(s, k.pos, depth, k.tables, h);
            if r.out is Ok {
                lemma_entries_move(s, r.pos, depth, r.tables, h, (n - 1) as nat);
            }
        }
    }
}

/// A string that was sent in full can be sent again as its place in the table,
/// unless it is empty.
pub proof fn law_string_by_reference(pre: Seq<u8>, idx: u32, post: Seq<u8>, t: Tables)
    requires
        idx < t.strings.len(),
        idx < 0x1000_0000,
    ensures
        ({
            let e = u29_bytes((2 * idx) as u32);
            let r = string_at(pre + e + post, pre.len() as int, t);
            r.out == Ok::<Seq<char>, Fault>(t.strings[idx as int]) && r.pos == pre.len() + e.len()
                && r.tables == t
        }),
{
    law_u29_round_trip(pre, (2 * idx) as u32, post);
}

/// An array, object, date, byte array, vector or dictionary that was sent in full
/// can be sent again as its place in the table, under any of those markers.
pub proof fn law_object_by_reference(
    pre: Seq<u8>,
    m: u8,
    idx: u32,
    post: Seq<u8>,
    depth: nat,
    t: Tables,
    h: Readers,
)
    requires
        depth < 64,
        M_DATE <= m <= M_DICTIONARY,
        m != M_XML,
        idx < t.objects.len(),
        idx < 0x1000_0000,
    ensures
        ({
            let e = seq![m] + u29_bytes((2 * idx) as u32);
            let r = value_at(pre + e + post, pre.len() as int, depth, t, h);
            r.out == Ok::<Amf3, Fault>(t.objects[idx as int]) && r.pos == pre.len() + e.len()
                && r.tables == t
        }),
{
    let v = (2 * idx) as u32;
    let e = seq![m] + u29_bytes(v);
    let s = pre + e + post;
    assert(s.subrange(pre.len() as int, (pre.len() + e.len()) as int) =~= e);
    lemma_head(s, pre.len() as int, m, v);
}

/// An object may name traits by their place in the table, whichever place that is: the
/// marker 0x0A and four times the place, plus one. Behind that stand the values of the
/// sealed members, in the order of the names of those traits, and for a dynamic class
/// named values. It is read as an object of the class of those traits.
pub proof fn law_traits_by_reference(
    pre: Seq<u8>,
    place: u32,
    values: Seq<Amf3>,
    members: Seq<(Seq<char>, Amf3)>,
    post: Seq<u8>,
    depth: nat,
    t: Tables,
    h: Readers,
)
    requires
        depth < 64,
        place < t.traits.len(),
        place < 0x800_0000,
        !t.traits[place as int].externalizable,
        values.len() == t.traits[place as int].names.len(),
        values_fit(values, (63 - depth) as nat, h),
        t.traits[place as int].dynamic ==> members_fit(members, (63 - depth) as nat, h),
        !t.traits[place as int].dynamic ==> members.len() == 0,
        (pre + seq![0x0Au8] + u29_bytes((4 * place + 1) as u32) + values_bytes(values)
            + members_bytes(members) + post).len() <= usize::MAX,
    ensures
        ({
            let known = t.traits[place as int];
            let e = seq![0x0Au8] + u29_bytes((4 * place + 1) as u32) + values_bytes(values) + (
            if known.dynamic {
                members_bytes(members)
            } else {
                Seq::empty()
            });
            let r = value_at(pre + e + post, pre.len() as int, depth, t, h);
            &&& r.out == Ok::<Amf3, Fault>(
                Amf3::Object {
                    class_name: known.class_name,
                    dynamic: known.dynamic,
                    sealed: Seq::new(values.len(), |i: int| (known.names[i], values[i])),
                    dynamic_members: members,
                    externalizable_body: None,
                },
            )
            &&& r.pos == pre.len() + e.len()
            &&& r.tables.traits.len() >= t.traits.len()
        }),
{
    let known = t.traits[place as int];
    let n = (4 * place + 1) as u32;
    let head = seq![M_OBJECT] + u29_bytes(n);
    let a = values_bytes(values);
    let b = if known.dynamic {
        members_bytes(members)
    } else {
        Seq::empty()
    };
    let e = head + a + b;
    let o = pre.len() as int;
    let s = pre + e + post;
    assert(s.subrange(o, o + e.len()) =~= e);
    lemma_split(s, o, head + a, b);
    lemma_split(s, o, head, a);
    lemma_head(s, o, M_OBJECT, n);
    lemma_known_traits(s, o, place, depth, t, h);
    let q = behind(o, n);
    lemma_known_object(s, q, known, values, members, depth + 1, t, h);
    law_reading_keeps_tables(s, o, depth, t, h);
}

proof fn lemma_known_traits(s: Seq<u8>, o: int, place: u32, depth: nat, t: Tables, h: Readers)
    requires
        depth < 64,
        place < t.traits.len(),
        place < 0x800_0000,
        headed(s, o, M_OBJECT, (4 * place + 1) as u32),
    ensures
        value_at(s, o, depth, t, h) == object_at(
            s,
            behind(o, (4 * place + 1) as u32),
            depth + 1,
            t,
            h,
            t.traits[place as int],
        ),
{
    let n = (4 * place + 1) as u32;
    assert(n / 2 % 2 == 0 && n / 4 == place);
    lemma_object_step(s, o, n, depth, t, h);
}

proof fn lemma_known_object(
    s: Seq<u8>,
    q: int,
    known: TraitView,
    values: Seq<Amf3>,
    members: Seq<(Seq<char>, Amf3)>,
    depth: nat,
    t: Tables,
    h: Readers,
)
    requires
        depth <= 64,
        !known.externalizable,
        values.len() == known.names.len(),
        values_fit(values, (64 - depth) as nat, h),
        at(s, q, values_bytes(values)),
        known.dynamic ==> members_fit(members, (64 - depth) as nat, h) && at(
            s,
            q + values_bytes(values).len(),
            members_bytes(members),
        ),
        !known.dynamic ==> members.len() == 0,
        s.len() <= usize::MAX,
    ensures
        reads(
            object_at(s, q, depth, t, h, known),
            Amf3::Object {
                class_name: known.class_name,
                dynamic: known.dynamic,
                sealed: Seq::new(values.len(), |i: int| (known.names[i], values[i])),
                dynamic_members: members,
                externalizable_body: None,
            },
            q + values_bytes(values).len() + if known.dynamic {
                members_bytes(members).len()
            } else {
                0
            },
        ),
{
    let t1 = t.with_object(Amf3::Null);
    lemma_values(s, q, values, depth, t1, h);
    let r1 = values_at(s, q, depth, t1, h, values.len());
    if known.dynamic {
        lemma_members(s, r1.pos, members, depth, r1.tables, h);
    } else {
        assert(members =~= Seq::empty());
    }
    assert(zipped(known.names, values) =~= Seq::new(
        values.len(),
        |i: int| (known.names[i], values[i]),
    ));
}

proof fn lemma_names_traits(s: Seq<u8>, pos: int, t: Tables, n: nat)
    ensures
        names_at(s, pos, t, n).tables.traits == t.traits,
    decreases n,
{
    if n > 0 {
        let r = string_at(s, pos, t);
        if r.out is Ok {
            lemma_names_traits(s, r.pos, r.tables, (n - 1) as nat);
        }
    }
}

/// The traits of an object that is written out take the next place in the table: its
/// class, whether it is dynamic, and the names of its sealed members.
pub proof fn law_traits_take_the_next_place(
    pre: Seq<u8>,
    v: Amf3,
    post: Seq<u8>,
    depth: nat,
    t: Tables,
    h: Readers,
)
    requires
        v is Object,
        v->externalizable_body is None,
        depth < 64,
        fits(v, (64 - depth) as nat, h),
        (pre + encoded(v) + post).len() <= usize::MAX,
    ensures
        ({
            let r = value_at(pre + encoded(v) + post, pre.len() as int, depth, t, h);
            let place = t.traits.len() as int;
            &&& r.out == Ok::<Amf3, Fault>(v)
            &&& r.pos == pre.len() + encoded(v).len()
            &&& place < r.tables.traits.len()
            &&& r.tables.traits[place].class_name == v->class_name
            &&& r.tables.traits[place].dynamic == v->dynamic
            &&& !r.tables.traits[place].externalizable
            &&& r.tables.traits[place].names.len() == v->sealed.len()
            &&& forall|i: int|
                0 <= i < v->sealed.len() ==> #[trigger] r.tables.traits[place].names[i]
                    == v->sealed[i].0
            &&& forall|i: int| 0 <= i < place ==> #[trigger] r.tables.traits[i] == t.traits[i]
        }),
{
    let s = pre + encoded(v) + post;
    let o = pre.len() as int;
    assert(s.subrange(o, o + encoded(v).len()) =~= encoded(v));
    lemma_object(s, o, v, depth, t, h);
    law_reading_keeps_tables(s, o, depth, t, h);
    let sealed = v->sealed;
    let n = traits_header(sealed.len(), v->dynamic);
    let tail = if v->dynamic {
        members_bytes(v->dynamic_members)
    } else {
        Seq::empty()
    };
    lemma_traits_header(sealed.len(), v->dynamic);
    lemma_object_layout(
        s,
        o,
        text_bytes(v->class_name),
        n,
        names_bytes(sealed),
        sealed_bytes(sealed),
        tail,
    );
    let q = behind(o, n);
    lemma_text(s, q, v->class_name, t);
    lemma_string_moves(s, q, t);
    let c = string_at(s, q, t);
    lemma_names(s, c.pos, sealed, c.tables, (63 - depth) as nat, h);
    lemma_names_traits(s, c.pos, c.tables, sealed.len());
    let r1 = traits_at(s, q, t, n);
    lemma_object_step(s, o, n, depth, t, h);
    lemma_traits_move(s, q, t, n);
    lemma_object_moves(s, r1.pos, depth + 1, r1.tables, h, r1.out->Ok_0);
}

/// After an object with its traits written out, a later one may leave them out and name
/// them: it has the class, the flag and the names of the first one and its own values.
pub proof fn law_second_object_of_a_class(
    pre: Seq<u8>,
    first: Amf3,
    between: Seq<u8>,
    values: Seq<Amf3>,
    members: Seq<(Seq<char>, Amf3)>,
    post: Seq<u8>,
    t: Tables,
    later: Tables,
    h: Readers,
)
    requires
        first is Object,
        first->externalizable_body is None,
        fits(first, 64, h),
        t.traits.len() < 0x800_0000,
        values.len() == first->sealed.len(),
        values_fit(values, 63, h),
        first->dynamic ==> members_fit(members, 63, h),
        !first->dynamic ==> members.len() == 0,
        (pre + encoded(first) + between).len() <= usize::MAX,
        kept(
            value_at(pre + encoded(first) + between, pre.len() as int, 0, t, h).tables,
            later,
        ),
        (between + seq![0x0Au8] + u29_bytes((4 * t.traits.len() + 1) as u32) + values_bytes(values)
            + members_bytes(members) + post).len() <= usize::MAX,
    ensures
        ({
            let e = seq![0x0Au8] + u29_bytes((4 * t.traits.len() + 1) as u32) + values_bytes(values)
                + (if first->dynamic {
                members_bytes(members)
            } else {
                Seq::empty()
            });
            let r = value_at(between + e + post, between.len() as int, 0, later, h);
            r.out == Ok::<Amf3, Fault>(
                Amf3::Object {
                    class_name: first->class_name,
                    dynamic: first->dynamic,
                    sealed: Seq::new(values.len(), |i: int| (first->sealed[i].0, values[i])),
                    dynamic_members: members,
                    externalizable_body: None,
                },
            )
        }),
{
    law_traits_take_the_next_place(pre, first, between, 0, t, h);
    let place = t.traits.len() as u32;
    law_traits_by_reference(between, place, values, members, post, 0, later, h);
    let known = later.traits[place as int];
    assert(Seq::new(values.len(), |i: int| (known.names[i], values[i])) =~= Seq::new(
        values.len(),
        |i: int| (first->sealed[i].0, values[i]),
    ));
}

/// A text that is sent in full takes the next place in the table of strings, unless it
/// is empty, and nothing else changes.
pub proof fn law_strings_take_the_next_place(pre: Seq<u8>, x: Seq<char>, post: Seq<u8>, t: Tables)
    requires
        text_fits(x),
    ensures
        ({
            let e = u29_bytes((2 * encode_utf8(x).len() + 1) as u32) + encode_utf8(x);
            let r = string_at(pre + e + post, pre.len() as int, t);
            &&& r.out == Ok::<Seq<char>, Fault>(x)
            &&& r.pos == pre.len() + e.len()
            &&& x.len() == 0 ==> r.tables == t
            &&& x.len() > 0 ==> r.tables.strings == t.strings.push(x) && r.tables.objects
                == t.objects && r.tables.traits == t.traits
        }),
{
    let e = text_bytes(x);
    let s = pre + e + post;
    let o = pre.len() as int;
    let b = encode_utf8(x);
    let n = literal(b.len());
    assert(n == 2 * b.len() + 1);
    assert(s.subrange(o, o + e.len()) =~= e);
    lemma_split(s, o, u29_bytes(n), b);
    lemma_u29(s, o, n);
    lemma_text_body(s, o + u29_bytes(n).len(), x);
}

/// Whatever can be named again takes the next place in the table of objects when it is
/// sent in full, before anything inside it does; a document stands there as an XML
/// document.
pub proof fn law_objects_take_the_next_place(
    pre: Seq<u8>,
    v: Amf3,
    post: Seq<u8>,
    t: Tables,
    h: Readers,
)
    requires
        fits(v, 64, h),
        (pre + encoded(v) + post).len() <= usize::MAX,
    ensures
        ({
            let r = value_at(pre + encoded(v) + post, pre.len() as int, 0, t, h);
            let simple = v is Undefined || v is Null || v is Boolean || v is Integer || v is Double
                || v is String;
            &&& simple ==> r.tables.objects == t.objects
            &&& !simple ==> took_place(r.tables, t, v)
        }),
{
    let s = pre + encoded(v) + post;
    let o = pre.len() as int;
    assert(s.subrange(o, o + encoded(v).len()) =~= encoded(v));
    lemma_value(s, o, v, 0, t, h);
    match v {
        Amf3::Array { .. } => lemma_array_slot(s, o, v, t, h),
        Amf3::VectorObject { .. } => lemma_vector_slot(s, o, v, t, h),
        Amf3::Dictionary { .. } => lemma_dictionary_slot(s, o, v, t, h),
        Amf3::Object { .. } => lemma_object_slot(s, o, v, t, h),
        Amf3::Xml(_) => lemma_document_slot(s, o, v, t, h),
        Amf3::XmlDocument(_) => lemma_document_slot(s, o, v, t, h),
        _ => {
            if flat_marker(v) != 0 {
                lemma_flat_slot(s, o, v, t, h);
            } else {
                lemma_simple(s, o, v, t);
            }
        },
    }
}

/// Whether what is sent in full as `v` has taken the next place in the table of objects
/// after `t`.
pub open spec fn took_place(u: Tables, t: Tables, v: Amf3) -> bool {
    t.objects.len() < u.objects.len() && u.objects[t.objects.len() as int] == (match v {
        Amf3::Xml(x) => Amf3::XmlDocument(x),
        _ => v,
    })
}

proof fn lemma_array_slot(s: Seq<u8>, o: int, v: Amf3, t: Tables, h: Readers)
    requires
        v is Array,
        at(s, o, encoded(v)),
        fits(v, 64, h),
        s.len() <= usize::MAX,
        reads(value_at(s, o, 0, t, h), v, o + encoded(v).len()),
    ensures
        took_place(value_at(s, o, 0, t, h).tables, t, v),
{
    let dense = v->dense;
    let t1 = t.with_object(Amf3::Null);
    lemma_array_layout(s, o, dense, v->assoc);
    let q = behind(o, literal(dense.len()));
    assert(value_at(s, o, 0, t, h) == array_at(s, q, 1, t, h, dense.len()));
    lemma_members_move(s, q, 1, t1, h);
    let a = members_at(s, q, 1, t1, h);
    if a.out is Ok {
        lemma_values_move(s, a.pos, 1, a.tables, h, dense.len());
    }
}

proof fn lemma_vector_slot(s: Seq<u8>, o: int, v: Amf3, t: Tables, h: Readers)
    requires
        v is VectorObject,
        at(s, o, encoded(v)),
        fits(v, 64, h),
        s.len() <= usize::MAX,
        reads(value_at(s, o, 0, t, h), v, o + encoded(v).len()),
    ensures
        took_place(value_at(s, o, 0, t, h).tables, t, v),
{
    let values = v->values;
    lemma_vector_layout(s, o, v->VectorObject_fixed, v->object_type_name, values);
    let q = behind(o, literal(values.len()));
    assert(value_at(s, o, 0, t, h) == vector_at(s, q, 1, t, h, values.len()));
    lemma_string_moves(s, q + 1, t);
    let c = string_at(s, q + 1, t);
    if c.out is Ok {
        lemma_values_move(s, c.pos, 1, c.tables.with_object(Amf3::Null), h, values.len());
    }
}

proof fn lemma_dictionary_slot(s: Seq<u8>, o: int, v: Amf3, t: Tables, h: Readers)
    requires
        v is Dictionary,
        at(s, o, encoded(v)),
        fits(v, 64, h),
        s.len() <= usize::MAX,
        reads(value_at(s, o, 0, t, h), v, o + encoded(v).len()),
    ensures
        took_place(value_at(s, o, 0, t, h).tables, t, v),
{
    let entries = v->entries;
    let t1 = t.with_object(Amf3::Null);
    lemma_dictionary_layout(s, o, v->weak_keys, entries);
    let q = behind(o, literal(entries.len()));
    assert(value_at(s, o, 0, t, h) == dictionary_at(s, q, 1, t, h, entries.len()));
    lemma_entries_move(s, q + 1, 1, t1, h, entries.len());
}

proof fn lemma_document_slot(s: Seq<u8>, o: int, v: Amf3, t: Tables, h: Readers)
    requires
        v is Xml || v is XmlDocument,
        at(s, o, encoded(v)),
        fits(v, 64, h),
        s.len() <= usize::MAX,
        reads(value_at(s, o, 0, t, h), v, o + encoded(v).len()),
    ensures
        took_place(value_at(s, o, 0, t, h).tables, t, v),
{
    let x = match v {
        Amf3::Xml(x) => x,
        Amf3::XmlDocument(x) => x,
        _ => Seq::empty(),
    };
    let m = if v is Xml {
        M_XML
    } else {
        M_XML_DOC
    };
    let n = literal(encode_utf8(x).len());
    lemma_split(s, o, seq![m], text_bytes(x));
    lemma_split(s, o + 1, u29_bytes(n), encode_utf8(x));
    lemma_byte(s, o, m);
    lemma_u29(s, o + 1, n);
    assert(value_at(s, o, 0, t, h) == flat_at(
        s,
        o + 1 + u29_bytes(n).len(),
        t,
        m,
        encode_utf8(x).len(),
    ));
}

proof fn lemma_flat_slot(s: Seq<u8>, o: int, v: Amf3, t: Tables, h: Readers)
    requires
        flat_marker(v) != 0,
        at(s, o, encoded(v)),
        fits(v, 64, h),
        s.len() <= usize::MAX,
        reads(value_at(s, o, 0, t, h), v, o + encoded(v).len()),
    ensures
        took_place(value_at(s, o, 0, t, h).tables, t, v),
{
    lemma_flat_parts(v);
    let head = seq![flat_marker(v)] + u29_bytes(literal(flat_count(v)));
    lemma_split(s, o, head, flat_rest(v));
    lemma_head(s, o, flat_marker(v), literal(flat_count(v)));
    lemma_flat_step(s, o, flat_marker(v), flat_count(v), 0, t, h);
}

proof fn lemma_object_slot(s: Seq<u8>, o: int, v: Amf3, t: Tables, h: Readers)
    requires
        v is Object,
        at(s, o, encoded(v)),
        fits(v, 64, h),
        s.len() <= usize::MAX,
        reads(value_at(s, o, 0, t, h), v, o + encoded(v).len()),
    ensures
        took_place(value_at(s, o, 0, t, h).tables, t, v),
{
    let n = if v->externalizable_body is Some {
        7
    } else {
        traits_header(v->sealed.len(), v->dynamic)
    };
    if v->externalizable_body is Some {
        let body = v->externalizable_body->0;
        let head = seq![M_OBJECT] + u29_bytes(7);
        lemma_split(s, o, head + text_bytes(v->class_name), body);
        lemma_split(s, o, head, text_bytes(v->class_name));
    } else {
        lemma_traits_header(v->sealed.len(), v->dynamic);
        let tail = if v->dynamic {
            members_bytes(v->dynamic_members)
        } else {
            Seq::empty()
        };
        lemma_object_layout(
            s,
            o,
            text_bytes(v->class_name),
            n,
            names_bytes(v->sealed),
            sealed_bytes(v->sealed),
            tail,
        );
        let head = seq![M_OBJECT] + u29_bytes(n);
        lemma_split(
            s,
            o,
            head + text_bytes(v->class_name) + names_bytes(v->sealed) + sealed_bytes(v->sealed),
            tail,
        );
        lemma_split(
            s,
            o,
            head + text_bytes(v->class_name) + names_bytes(v->sealed),
            sealed_bytes(v->sealed),
        );
        lemma_split(s, o, head + text_bytes(v->class_name), names_bytes(v->sealed));
        lemma_split(s, o, head, text_bytes(v->class_name));
    }
    lemma_head(s, o, M_OBJECT, n);
    let q = behind(o, n);
    lemma_traits_move(s, q, t, n);
    let r1 = traits_at(s, q, t, n);
    assert(r1.out is Ok);
    lemma_object_step(s, o, n, 0, t, h);
    let k = r1.out->Ok_0;
    let t1 = r1.tables.with_object(Amf3::Null);
    if !k.externalizable {
        lemma_values_move(s, r1.pos, 1, t1, h, k.names.len());
        let a = values_at(s, r1.pos, 1, t1, h, k.names.len());
        if a.out is Ok && k.dynamic {
            lemma_members_move(s, a.pos, 1, a.tables, h);
        }
    }
}

} // verus!
