//! Writing AMF3.

use vstd::prelude::*;
#[allow(unused_imports)]
use vstd::utf8::encode_utf8;
use crate::amf3::u29::{write_i29, write_u29};
#[allow(unused_imports)]
use crate::amf3::u29::{bits29, u29_bytes};
use crate::amf3::value::Amf3Value;
#[allow(unused_imports)]
use crate::amf3::value::{double_bits, entry_views, lemma_container_views, member_views, Amf3};
use crate::amf3::{
    M_ARRAY, M_BYTE_ARRAY, M_DATE, M_DICTIONARY, M_DOUBLE, M_FALSE, M_INTEGER, M_NULL, M_OBJECT,
    M_STRING, M_TRUE, M_UNDEFINED, M_VECTOR_DOUBLE, M_VECTOR_INT, M_VECTOR_OBJECT, M_VECTOR_UINT,
    M_XML, M_XML_DOC,
};
#[allow(unused_imports)]
use crate::model::views;
use crate::number::Double;
#[allow(unused_imports)]
use crate::number::int_bits;
use crate::wire::{put_be32, put_be64, put_bytes};
#[allow(unused_imports)]
use crate::wire::{be32_bytes, be64_bytes};

verus! {

// ---------------------------------------------------------------------------
// The model
// ---------------------------------------------------------------------------

/// The header of a value that is written out: its length or count, and the flag
/// that says so. What does not fit 32 bits is lost.
pub open spec fn literal(n: nat) -> u32 {
    (2 * (n % 0x8000_0000) + 1) as u32
}

/// The header of an object whose traits are written out.
pub open spec fn traits_header(sealed: nat, dynamic: bool) -> u32 {
    (16 * (sealed % 0x1000_0000) + (if dynamic {
        11int
    } else {
        3int
    })) as u32
}

/// A flag byte.
pub open spec fn flag(b: bool) -> u8 {
    if b {
        1
    } else {
        0
    }
}

/// A string: its length and its bytes.
pub open spec fn text_bytes(t: Seq<char>) -> Seq<u8> {
    u29_bytes(literal(encode_utf8(t).len())) + encode_utf8(t)
}

/// The bits of a signed value.
pub open spec fn bits32(n: i32) -> u32 {
    (if n < 0 {
        n + 0x1_0000_0000
    } else {
        n as int
    }) as u32
}

/// The bits of signed values.
pub open spec fn int_words(s: Seq<i32>) -> Seq<u32> {
    Seq::new(s.len(), |i: int| bits32(s[i]))
}

/// 32-bit values, four bytes each.
#[verifier::opaque]
pub open spec fn words_bytes(w: Seq<u32>) -> Seq<u8> {
    Seq::new(4 * w.len(), |i: int| be32_bytes(w[i / 4])[i % 4])
}

/// 64-bit values, eight bytes each.
#[verifier::opaque]
pub open spec fn long_words_bytes(w: Seq<u64>) -> Seq<u8> {
    Seq::new(8 * w.len(), |i: int| be64_bytes(w[i / 8])[i % 8])
}

/// Whether an integer can be written as one.
pub open spec fn in_29_bits(n: i32) -> bool {
    -0x1000_0000 <= n < 0x1000_0000
}

/// The bytes of a value. An integer that needs more than 29 bits is written as a
/// double. Members of an object that is not dynamic are left out.
pub open spec fn encoded(v: Amf3) -> Seq<u8>
    decreases v,
{
    match v {
        Amf3::Undefined => seq![M_UNDEFINED],
        Amf3::Null => seq![M_NULL],
        Amf3::Boolean(b) => seq![
            if b {
                M_TRUE
            } else {
                M_FALSE
            },
        ],
        Amf3::Integer(n) => if in_29_bits(n) {
            seq![M_INTEGER] + u29_bytes(bits29(n))
        } else {
            seq![M_DOUBLE] + be64_bytes(int_bits(n as int))
        },
        Amf3::Double(d) => seq![M_DOUBLE] + be64_bytes(d),
        Amf3::String(t) => seq![M_STRING] + text_bytes(t),
        Amf3::XmlDocument(t) => seq![M_XML_DOC] + text_bytes(t),
        Amf3::Xml(t) => seq![M_XML] + text_bytes(t),
        Amf3::Date(d) => seq![M_DATE] + u29_bytes(1) + be64_bytes(d),
        Amf3::ByteArray(b) => seq![M_BYTE_ARRAY] + u29_bytes(literal(b.len())) + b,
        Amf3::Array { dense, assoc } => seq![M_ARRAY] + u29_bytes(literal(dense.len()))
            + members_bytes(assoc) + values_bytes(dense),
        Amf3::Object { class_name, dynamic, sealed, dynamic_members, externalizable_body } =>
            match externalizable_body {
            Some(body) => seq![M_OBJECT] + u29_bytes(7) + text_bytes(class_name) + body,
            None => seq![M_OBJECT] + u29_bytes(traits_header(sealed.len(), dynamic)) + text_bytes(
                class_name,
            ) + names_bytes(sealed) + sealed_bytes(sealed) + (if dynamic {
                members_bytes(dynamic_members)
            } else {
                Seq::empty()
            }),
        },
        Amf3::VectorInt { fixed, ints } => seq![M_VECTOR_INT] + u29_bytes(literal(ints.len()))
            + seq![flag(fixed)] + words_bytes(int_words(ints)),
        Amf3::VectorUInt { fixed, uints } => seq![M_VECTOR_UINT] + u29_bytes(literal(uints.len()))
            + seq![flag(fixed)] + words_bytes(uints),
        Amf3::VectorDouble { fixed, doubles } => seq![M_VECTOR_DOUBLE] + u29_bytes(
            literal(doubles.len()),
        ) + seq![flag(fixed)] + long_words_bytes(doubles),
        Amf3::VectorObject { fixed, object_type_name, values } => seq![M_VECTOR_OBJECT]
            + u29_bytes(literal(values.len())) + seq![flag(fixed)] + text_bytes(object_type_name)
            + values_bytes(values),
        Amf3::Dictionary { weak_keys, entries } => seq![M_DICTIONARY] + u29_bytes(
            literal(entries.len()),
        ) + seq![flag(weak_keys)] + entries_bytes(entries),
    }
}

/// Named values, with the empty name that ends them.
pub open spec fn members_bytes(p: Seq<(Seq<char>, Amf3)>) -> Seq<u8>
    decreases p,
{
    if p.len() == 0 {
        u29_bytes(1)
    } else {
        text_bytes(p[0].0) + encoded(p[0].1) + members_bytes(p.subrange(1, p.len() as int))
    }
}

/// The names of named values.
pub open spec fn names_bytes(p: Seq<(Seq<char>, Amf3)>) -> Seq<u8>
    decreases p.len(),
{
    if p.len() == 0 {
        Seq::empty()
    } else {
        text_bytes(p[0].0) + names_bytes(p.subrange(1, p.len() as int))
    }
}

/// The values of named values.
pub open spec fn sealed_bytes(p: Seq<(Seq<char>, Amf3)>) -> Seq<u8>
    decreases p,
{
    if p.len() == 0 {
        Seq::empty()
    } else {
        encoded(p[0].1) + sealed_bytes(p.subrange(1, p.len() as int))
    }
}

/// A run of values.
pub open spec fn values_bytes(a: Seq<Amf3>) -> Seq<u8>
    decreases a,
{
    if a.len() == 0 {
        Seq::empty()
    } else {
        encoded(a[0]) + values_bytes(a.subrange(1, a.len() as int))
    }
}

/// Keys with their values.
pub open spec fn entries_bytes(p: Seq<(Amf3, Amf3)>) -> Seq<u8>
    decreases p,
{
    if p.len() == 0 {
        Seq::empty()
    } else {
        encoded(p[0].0) + encoded(p[0].1) + entries_bytes(p.subrange(1, p.len() as int))
    }
}

// ---------------------------------------------------------------------------
// The code
// ---------------------------------------------------------------------------

fn put_literal(out: &mut Vec<u8>, n: usize)
    ensures
        final(out)@ == old(out)@ + u29_bytes(literal(n as nat)),
{
    write_u29(out, (n % 0x8000_0000) as u32 * 2 + 1);
}

fn write_u29_string(out: &mut Vec<u8>, s: &str)
    ensures
        final(out)@ == old(out)@ + text_bytes(s@),
{
    let bytes = s.as_bytes();
    put_literal(out, bytes.len());
    put_bytes(out, bytes);
    assert(out@ =~= old(out)@ + text_bytes(s@));
}

fn put_flag(out: &mut Vec<u8>, b: bool)
    ensures
        final(out)@ == old(out)@ + seq![flag(b)],
{
    out.push(
        if b {
            1
        } else {
            0
        },
    );
    assert(out@ =~= old(out)@ + seq![flag(b)]);
}

proof fn lemma_one_more_word(w: Seq<u32>, i: int)
    requires
        0 <= i < w.len(),
    ensures
        words_bytes(w.take(i + 1)) == words_bytes(w.take(i)) + be32_bytes(w[i]),
{
    reveal(words_bytes);
    assert(words_bytes(w.take(i + 1)) =~= words_bytes(w.take(i)) + be32_bytes(w[i]));
}

proof fn lemma_one_more_long_word(w: Seq<u64>, i: int)
    requires
        0 <= i < w.len(),
    ensures
        long_words_bytes(w.take(i + 1)) == long_words_bytes(w.take(i)) + be64_bytes(w[i]),
{
    reveal(long_words_bytes);
    assert(long_words_bytes(w.take(i + 1)) =~= long_words_bytes(w.take(i)) + be64_bytes(w[i]));
}

fn put_ints(out: &mut Vec<u8>, items: &Vec<i32>)
    ensures
        final(out)@ == old(out)@ + words_bytes(int_words(items@)),
{
    let ghost all = int_words(items@);
    let mut i: usize = 0;
    proof {
        reveal(words_bytes);
        assert(out@ + words_bytes(all.take(0)) =~= out@);
    }
    while i < items.len()
        invariant
            all == int_words(items@),
            i <= items@.len(),
            out@ == old(out)@ + words_bytes(all.take(i as int)),
        decreases items@.len() - i,
    {
        let n: i32 = items[i];
        let bits: u32 = if n < 0 {
            (n as i64 + 0x1_0000_0000) as u32
        } else {
            n as u32
        };
        proof {
            lemma_one_more_word(all, i as int);
        }
        let ghost done = words_bytes(all.take(i as int));
        put_be32(out, bits);
        assert(old(out)@ + done + be32_bytes(bits) =~= old(out)@ + (done + be32_bytes(bits)));
        i = i + 1;
    }
    assert(all.take(all.len() as int) =~= all);
}

fn put_uints(out: &mut Vec<u8>, items: &Vec<u32>)
    ensures
        final(out)@ == old(out)@ + words_bytes(items@),
{
    let ghost all = items@;
    let mut i: usize = 0;
    proof {
        reveal(words_bytes);
        assert(out@ + words_bytes(all.take(0)) =~= out@);
    }
    while i < items.len()
        invariant
            all == items@,
            i <= items@.len(),
            out@ == old(out)@ + words_bytes(all.take(i as int)),
        decreases items@.len() - i,
    {
        proof {
            lemma_one_more_word(all, i as int);
        }
        let ghost done = words_bytes(all.take(i as int));
        put_be32(out, items[i]);
        assert(old(out)@ + done + be32_bytes(all[i as int]) =~= old(out)@ + (done + be32_bytes(
            all[i as int],
        )));
        i = i + 1;
    }
    assert(all.take(all.len() as int) =~= all);
}

fn put_doubles(out: &mut Vec<u8>, items: &Vec<Double>)
    ensures
        final(out)@ == old(out)@ + long_words_bytes(double_bits(items@)),
{
    let ghost all = double_bits(items@);
    let mut i: usize = 0;
    proof {
        reveal(long_words_bytes);
        assert(out@ + long_words_bytes(all.take(0)) =~= out@);
    }
    while i < items.len()
        invariant
            all == double_bits(items@),
            i <= items@.len(),
            out@ == old(out)@ + long_words_bytes(all.take(i as int)),
        decreases items@.len() - i,
    {
        proof {
            lemma_one_more_long_word(all, i as int);
        }
        let ghost done = long_words_bytes(all.take(i as int));
        put_be64(out, items[i].bits);
        assert(old(out)@ + done + be64_bytes(all[i as int]) =~= old(out)@ + (done + be64_bytes(
            all[i as int],
        )));
        i = i + 1;
    }
    assert(all.take(all.len() as int) =~= all);
}

/// Append a value, written out in full.
pub fn encode(out: &mut Vec<u8>, v: &Amf3Value)
    ensures
        final(out)@ == old(out)@ + encoded(v@),
    decreases v, 1int,
{
    proof {
        lemma_container_views(*v);
    }
    match v {
        Amf3Value::Undefined => {
            out.push(M_UNDEFINED);
        },
        Amf3Value::Null => {
            out.push(M_NULL);
        },
        Amf3Value::Boolean(b) => {
            out.push(
                if *b {
                    M_TRUE
                } else {
                    M_FALSE
                },
            );
        },
        Amf3Value::Integer(n) => {
            if -0x1000_0000 <= *n && *n < 0x1000_0000 {
                out.push(M_INTEGER);
                write_i29(out, *n);
            } else {
                out.push(M_DOUBLE);
                put_be64(out, Double::from_i32(*n).bits);
            }
        },
        Amf3Value::Double(d) => {
            out.push(M_DOUBLE);
            put_be64(out, d.bits);
        },
        Amf3Value::String(s) => {
            out.push(M_STRING);
            write_u29_string(out, s.as_str());
        },
        Amf3Value::XmlDocument(s) => {
            out.push(M_XML_DOC);
            write_u29_string(out, s.as_str());
        },
        Amf3Value::Xml(s) => {
            out.push(M_XML);
            write_u29_string(out, s.as_str());
        },
        Amf3Value::Date(d) => {
            out.push(M_DATE);
            write_u29(out, 1);
            put_be64(out, d.bits);
        },
        Amf3Value::ByteArray(b) => {
            out.push(M_BYTE_ARRAY);
            put_literal(out, b.len());
            put_bytes(out, b.as_slice());
        },
        Amf3Value::Array { dense, assoc } => {
            out.push(M_ARRAY);
            put_literal(out, dense.len());
            write_members(out, assoc);
            write_values(out, dense);
        },
        Amf3Value::Object { .. } => {
            write_object(out, v);
        },
        Amf3Value::VectorInt { fixed, items } => {
            out.push(M_VECTOR_INT);
            put_literal(out, items.len());
            put_flag(out, *fixed);
            put_ints(out, items);
        },
        Amf3Value::VectorUInt { fixed, items } => {
            out.push(M_VECTOR_UINT);
            put_literal(out, items.len());
            put_flag(out, *fixed);
            put_uints(out, items);
        },
        Amf3Value::VectorDouble { fixed, items } => {
            out.push(M_VECTOR_DOUBLE);
            put_literal(out, items.len());
            put_flag(out, *fixed);
            put_doubles(out, items);
        },
        Amf3Value::VectorObject { fixed, object_type_name, items } => {
            out.push(M_VECTOR_OBJECT);
            put_literal(out, items.len());
            put_flag(out, *fixed);
            write_u29_string(out, object_type_name.as_str());
            write_values(out, items);
        },
        Amf3Value::Dictionary { weak_keys, entries } => {
            out.push(M_DICTIONARY);
            put_literal(out, entries.len());
            put_flag(out, *weak_keys);
            write_entries(out, entries);
        },
    }
    assert(out@ =~= old(out)@ + encoded(v@));
}

fn write_object(out: &mut Vec<u8>, v: &Amf3Value)
    ensures
        v is Object ==> final(out)@ == old(out)@ + encoded(v@),
    decreases v, 0int,
{
    proof {
        lemma_container_views(*v);
    }
    let Amf3Value::Object { class_name, dynamic, sealed, dynamic_members, externalizable_body } = v else {
        return ;
    };
    out.push(M_OBJECT);
    match externalizable_body {
        Some(body) => {
            write_u29(out, 7);
            write_u29_string(out, class_name.as_str());
            put_bytes(out, body.as_slice());
            assert(out@ =~= old(out)@ + (seq![M_OBJECT] + u29_bytes(7) + text_bytes(class_name@)
                + body@));
        },
        None => {
            let low: u32 = if *dynamic {
                11
            } else {
                3
            };
            write_u29(out, (sealed.len() % 0x1000_0000) as u32 * 16 + low);
            write_u29_string(out, class_name.as_str());
            write_names(out, sealed);
            write_sealed(out, sealed);
            let ghost mut tail = Seq::<u8>::empty();
            if *dynamic {
                write_members(out, dynamic_members);
                proof {
                    tail = members_bytes(member_views(dynamic_members@));
                }
            }
            assert(out@ =~= old(out)@ + (seq![M_OBJECT] + u29_bytes(
                traits_header(sealed@.len(), *dynamic),
            ) + text_bytes(class_name@) + names_bytes(member_views(sealed@)) + sealed_bytes(
                member_views(sealed@),
            ) + tail));
        },
    }
}

fn write_names(out: &mut Vec<u8>, p: &Vec<(String, Amf3Value)>)
    ensures
        final(out)@ == old(out)@ + names_bytes(member_views(p@)),
{
    let ghost all = member_views(p@);
    let mut i: usize = 0;
    assert(all.subrange(0, all.len() as int) =~= all);
    while i < p.len()
        invariant
            all == member_views(p@),
            i <= p@.len(),
            out@ + names_bytes(all.subrange(i as int, all.len() as int)) == old(out)@
                + names_bytes(all),
        decreases p@.len() - i,
    {
        let ghost was = out@;
        let ghost rest = all.subrange(i as int, all.len() as int);
        write_u29_string(out, p[i].0.as_str());
        proof {
            let more = all.subrange(i + 1, all.len() as int);
            assert(rest.subrange(1, rest.len() as int) =~= more);
            let key = text_bytes(rest[0].0);
            assert(was + key + names_bytes(more) =~= was + (key + names_bytes(more)));
        }
        i = i + 1;
    }
    assert(out@ + Seq::empty() =~= out@);
}

fn write_members(out: &mut Vec<u8>, p: &Vec<(String, Amf3Value)>)
    ensures
        final(out)@ == old(out)@ + members_bytes(member_views(p@)),
    decreases p, 2int,
{
    let ghost all = member_views(p@);
    let mut i: usize = 0;
    assert(all.subrange(0, all.len() as int) =~= all);
    while i < p.len()
        invariant
            all == member_views(p@),
            i <= p@.len(),
            out@ + members_bytes(all.subrange(i as int, all.len() as int)) == old(out)@
                + members_bytes(all),
        decreases p@.len() - i,
    {
        let ghost was = out@;
        let ghost rest = all.subrange(i as int, all.len() as int);
        write_u29_string(out, p[i].0.as_str());
        encode(out, &p[i].1);
        proof {
            let more = all.subrange(i + 1, all.len() as int);
            assert(rest.subrange(1, rest.len() as int) =~= more);
            let key = text_bytes(rest[0].0);
            let value = encoded(rest[0].1);
            assert(was + key + value + members_bytes(more) =~= was + (key + value + members_bytes(
                more,
            )));
        }
        i = i + 1;
    }
    write_u29(out, 1);
}

fn write_sealed(out: &mut Vec<u8>, p: &Vec<(String, Amf3Value)>)
    ensures
        final(out)@ == old(out)@ + sealed_bytes(member_views(p@)),
    decreases p, 2int,
{
    let ghost all = member_views(p@);
    let mut i: usize = 0;
    assert(all.subrange(0, all.len() as int) =~= all);
    while i < p.len()
        invariant
            all == member_views(p@),
            i <= p@.len(),
            out@ + sealed_bytes(all.subrange(i as int, all.len() as int)) == old(out)@
                + sealed_bytes(all),
        decreases p@.len() - i,
    {
        let ghost was = out@;
        let ghost rest = all.subrange(i as int, all.len() as int);
        encode(out, &p[i].1);
        proof {
            let more = all.subrange(i + 1, all.len() as int);
            assert(rest.subrange(1, rest.len() as int) =~= more);
            let value = encoded(rest[0].1);
            assert(was + value + sealed_bytes(more) =~= was + (value + sealed_bytes(more)));
        }
        i = i + 1;
    }
    assert(out@ + Seq::empty() =~= out@);
}

fn write_values(out: &mut Vec<u8>, a: &Vec<Amf3Value>)
    ensures
        final(out)@ == old(out)@ + values_bytes(views(a@)),
    decreases a, 2int,
{
    let ghost all = views(a@);
    let mut i: usize = 0;
    assert(all.subrange(0, all.len() as int) =~= all);
    while i < a.len()
        invariant
            all == views(a@),
            i <= a@.len(),
            out@ + values_bytes(all.subrange(i as int, all.len() as int)) == old(out)@
                + values_bytes(all),
        decreases a@.len() - i,
    {
        let ghost was = out@;
        let ghost rest = all.subrange(i as int, all.len() as int);
        encode(out, &a[i]);
        proof {
            let more = all.subrange(i + 1, all.len() as int);
            assert(rest.subrange(1, rest.len() as int) =~= more);
            let value = encoded(rest[0]);
            assert(was + value + values_bytes(more) =~= was + (value + values_bytes(more)));
        }
        i = i + 1;
    }
    assert(out@ + Seq::empty() =~= out@);
}

fn write_entries(out: &mut Vec<u8>, p: &Vec<(Amf3Value, Amf3Value)>)
    ensures
        final(out)@ == old(out)@ + entries_bytes(entry_views(p@)),
    decreases p, 2int,
{
    let ghost all = entry_views(p@);
    let mut i: usize = 0;
    assert(all.subrange(0, all.len() as int) =~= all);
    while i < p.len()
        invariant
            all == entry_views(p@),
            i <= p@.len(),
            out@ + entries_bytes(all.subrange(i as int, all.len() as int)) == old(out)@
                + entries_bytes(all),
        decreases p@.len() - i,
    {
        let ghost was = out@;
        let ghost rest = all.subrange(i as int, all.len() as int);
        encode(out, &p[i].0);
        encode(out, &p[i].1);
        proof {
            let more = all.subrange(i + 1, all.len() as int);
            assert(rest.subrange(1, rest.len() as int) =~= more);
            let key = encoded(rest[0].0);
            let value = encoded(rest[0].1);
            assert(was + key + value + entries_bytes(more) =~= was + (key + value + entries_bytes(
                more,
            )));
        }
        i = i + 1;
    }
    assert(out@ + Seq::empty() =~= out@);
}

/// The bytes of values, one after another.
pub fn encode_all(values: &[Amf3Value]) -> (out: Vec<u8>)
    ensures
        out@ == values_bytes(views(values@)),
{
    let mut out: Vec<u8> = Vec::new();
    let ghost all = views(values@);
    let mut i: usize = 0;
    assert(all.subrange(0, all.len() as int) =~= all);
    assert(out@ + values_bytes(all) =~= values_bytes(all));
    while i < values.len()
        invariant
            all == views(values@),
            i <= values@.len(),
            out@ + values_bytes(all.subrange(i as int, all.len() as int)) == values_bytes(all),
        decreases values@.len() - i,
    {
        let ghost was = out@;
        let ghost rest = all.subrange(i as int, all.len() as int);
        encode(&mut out, &values[i]);
        proof {
            let more = all.subrange(i + 1, all.len() as int);
            assert(rest.subrange(1, rest.len() as int) =~= more);
            let value = encoded(rest[0]);
            assert(was + value + values_bytes(more) =~= was + (value + values_bytes(more)));
        }
        i = i + 1;
    }
    assert(out@ + Seq::empty() =~= out@);
    out
}

} // verus!
