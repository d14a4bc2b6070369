//! AMF3 in bytes.

use vstd::prelude::*;
#[allow(unused_imports)]
use vstd::utf8::encode_utf8;
#[allow(unused_imports)]
use crate::amf::{failed, Amf0, Failure};
#[allow(unused_imports)]
use crate::amf3::bridge::{
    bridged, bridged_entries, bridged_members, bridged_numbered, bridged_values, key_text,
};
#[allow(unused_imports)]
use crate::amf3::decode::{
    answer, decode, decode_all, decode_data_message, flat_at, message_at, simple_at, string_at,
    traits_at, value_at, words_at, Decoder, DecoderView, ExternalizableReader, FixedBody, Readers,
    Tables, TraitView,
};
#[allow(unused_imports)]
use crate::amf3::encode::{
    encode, encode_all, encoded, entries_bytes, long_words_bytes, members_bytes, names_bytes,
    sealed_bytes, text_bytes, values_bytes, words_bytes,
};
#[allow(unused_imports)]
use crate::amf3::u29::{
    bits29, law_u29_round_trip, read_u29, signed29, u29_at, u29_bytes, write_u29,
};
#[allow(unused_imports)]
use crate::amf3::value::{anon_object, dynamic_object, member_named, member_views, Amf3, Amf3Value};
#[allow(unused_imports)]
use crate::error::{outcome, Error, Fault, Result};
#[allow(unused_imports)]
use crate::model::views;
#[allow(unused_imports)]
use crate::number::{int_bits, nat_bits, Double};
#[allow(unused_imports)]
use crate::text::{decimal, numeral};
#[allow(unused_imports)]
use crate::wire::{be32_bytes, be64_bytes, law_bytes_by_their_value, law_fields_by_their_bytes};

verus! {

// ---------------------------------------------------------------------------
// Integers of 29 bits
// ---------------------------------------------------------------------------

/// An integer is read from seven bits of each byte, the highest first, as long as a byte
/// is 128 or more; a fourth byte counts whole.
pub proof fn law_integer_is_read(a: u8, b: u8, c: u8, d: u8, pre: Seq<u8>, post: Seq<u8>)
    ensures
        a < 128 ==> u29_at(pre + seq![a] + post, pre.len() as int) == Ok::<(u32, int), Failure>(
            (a as u32, pre.len() + 1int),
        ),
        a >= 128 && b < 128 ==> u29_at(pre + seq![a, b] + post, pre.len() as int) == Ok::<
            (u32, int),
            Failure,
        >((((a - 128) * 0x80 + b) as u32, pre.len() + 2int)),
        a >= 128 && b >= 128 && c < 128 ==> u29_at(pre + seq![a, b, c] + post, pre.len() as int)
            == Ok::<(u32, int), Failure>(
            (((a - 128) * 0x4000 + (b - 128) * 0x80 + c) as u32, pre.len() + 3int),
        ),
        a >= 128 && b >= 128 && c >= 128 ==> u29_at(
            pre + seq![a, b, c, d] + post,
            pre.len() as int,
        ) == Ok::<(u32, int), Failure>(
            (
                ((a - 128) * 0x40_0000 + (b - 128) * 0x8000 + (c - 128) * 0x100 + d) as u32,
                pre.len() + 4int,
            ),
        ),
{
    reveal(u29_at);
    let p = pre.len() as int;
    let s1 = pre + seq![a] + post;
    let s2 = pre + seq![a, b] + post;
    let s3 = pre + seq![a, b, c] + post;
    let s4 = pre + seq![a, b, c, d] + post;
    assert(s1[p] == a);
    assert(s2[p] == a && s2[p + 1] == b);
    assert(s3[p] == a && s3[p + 1] == b && s3[p + 2] == c);
    assert(s4[p] == a && s4[p + 1] == b && s4[p + 2] == c && s4[p + 3] == d);
}

/// An integer that ends before its last byte is refused.
pub proof fn law_integer_is_cut_off(a: u8, b: u8, c: u8, pre: Seq<u8>)
    requires
        a >= 128,
        b >= 128,
        c >= 128,
    ensures
        u29_at(pre, pre.len() as int) matches Err(f) && f.fault == Fault::InvalidAmf0(
            "amf3 truncated"@,
        ) && f.pos == pre.len(),
        u29_at(pre + seq![a], pre.len() as int) matches Err(f) && f.fault == Fault::InvalidAmf0(
            "amf3 truncated"@,
        ) && f.pos == pre.len() + 1,
        u29_at(pre + seq![a, b], pre.len() as int) matches Err(f) && f.fault == Fault::InvalidAmf0(
            "amf3 truncated"@,
        ) && f.pos == pre.len() + 2,
        u29_at(pre + seq![a, b, c], pre.len() as int) matches Err(f) && f.fault
            == Fault::InvalidAmf0("amf3 truncated"@) && f.pos == pre.len() + 3,
{
    reveal(u29_at);
    let p = pre.len() as int;
    let s1 = pre + seq![a];
    let s2 = pre + seq![a, b];
    let s3 = pre + seq![a, b, c];
    assert(s1[p] == a);
    assert(s2[p] == a && s2[p + 1] == b);
    assert(s3[p] == a && s3[p + 1] == b && s3[p + 2] == c);
}

/// An integer is written in as few bytes as it needs, and only its low 29 bits are.
pub proof fn law_integer_is_written(out: &mut Vec<u8>, v: u32)
    requires
        call_ensures(write_u29, (out, v), ()),
    ensures
        ({
            let n = v % 0x2000_0000;
            final(out)@ == old(out)@ + (if n < 0x80 {
                seq![n as u8]
            } else if n < 0x4000 {
                seq![(0x80 + n / 0x80) as u8, (n % 0x80) as u8]
            } else if n < 0x20_0000 {
                seq![(0x80 + n / 0x4000) as u8, (0x80 + n / 0x80 % 0x80) as u8, (n % 0x80) as u8]
            } else {
                seq![
                    (0x80 + n / 0x40_0000) as u8,
                    (0x80 + n / 0x8000 % 0x80) as u8,
                    (0x80 + n / 0x100 % 0x80) as u8,
                    (n % 0x100) as u8,
                ]
            })
        }),
{
    reveal(u29_bytes);
}

/// Reading an integer gives what its bytes are said here to be.
pub proof fn law_integer_reader(buf: &[u8], pos: &mut usize, r: Result<u32>)
    requires
        call_ensures(read_u29, (buf, pos), r),
    ensures
        r matches Ok(v) ==> u29_at(buf@, *old(pos) as int) == Ok::<(u32, int), Failure>(
            (v, *final(pos) as int),
        ),
        r matches Err(e) ==> u29_at(buf@, *old(pos) as int) == Err::<(u32, int), Failure>(
            Failure { fault: e@, pos: *final(pos) as int },
        ),
{
}

/// The highest of 29 bits is a sign, and so is that of 32 bits.
pub proof fn law_signed_integers(v: u32)
    ensures
        v < 0x1000_0000 ==> signed29(v) == v,
        0x1000_0000 <= v < 0x2000_0000 ==> signed29(v) == v - 0x2000_0000,
        v < 0x8000_0000 ==> crate::amf3::decode::signed32(v) == v,
        v >= 0x8000_0000 ==> crate::amf3::decode::signed32(v) == v - 0x1_0000_0000,
{
}

/// Whole numbers as doubles: negative ones have the bits of their opposite and the sign.
pub proof fn law_negative_numbers(n: nat)
    requires
        n <= 0x8000_0000,
    ensures
        int_bits(n as int) == nat_bits(n),
        n > 0 ==> int_bits(-n) == 0x8000_0000_0000_0000 + nat_bits(n),
{
    crate::number::lemma_nat_bits(n);
    if n > 0 {
        crate::number::law_kinds_of_doubles(nat_bits(n), 0);
    }
}

// ---------------------------------------------------------------------------
// What is written
// ---------------------------------------------------------------------------

/// A text in bytes: twice its length in bytes and one more, then its bytes.
pub open spec fn text_of(t: Seq<char>) -> Seq<u8> {
    u29_bytes((2 * encode_utf8(t).len() + 1) as u32) + encode_utf8(t)
}

proof fn lemma_text_of(t: Seq<char>)
    requires
        encode_utf8(t).len() < 0x8000_0000,
    ensures
        text_bytes(t) == text_of(t),
{
}

proof fn lemma_one_byte(n: u32)
    requires
        n < 0x80,
    ensures
        u29_bytes(n) == seq![n as u8],
{
    reveal(u29_bytes);
}

/// How each simple value is written: its marker, and what follows it.
pub proof fn law_simple_values_are_written(b: bool, n: i32, d: u64, t: Seq<char>)
    requires
        encode_utf8(t).len() < 0x8000_0000,
    ensures
        encoded(Amf3::Undefined) == seq![0u8],
        encoded(Amf3::Null) == seq![1u8],
        encoded(Amf3::Boolean(b)) == seq![
            if b {
                3u8
            } else {
                2u8
            },
        ],
        0 <= n < 0x1000_0000 ==> encoded(Amf3::Integer(n)) == seq![4u8] + u29_bytes(n as u32),
        -0x1000_0000 <= n < 0 ==> encoded(Amf3::Integer(n)) == seq![4u8] + u29_bytes(
            (0x2000_0000 + n) as u32,
        ),
        n < -0x1000_0000 || n >= 0x1000_0000 ==> encoded(Amf3::Integer(n)) == seq![5u8]
            + be64_bytes(int_bits(n as int)),
        encoded(Amf3::Double(d)) == seq![5u8] + be64_bytes(d),
        encoded(Amf3::String(t)) == seq![6u8] + text_of(t),
        encoded(Amf3::XmlDocument(t)) == seq![7u8] + text_of(t),
        encoded(Amf3::Date(d)) == seq![8u8, 1] + be64_bytes(d),
        encoded(Amf3::Xml(t)) == seq![0x0Bu8] + text_of(t),
{
    lemma_text_of(t);
    lemma_one_byte(1);
    assert(seq![8u8] + seq![1u8] =~= seq![8u8, 1]);
    assert(encoded(Amf3::Boolean(b)) =~= seq![
        if b {
            3u8
        } else {
            2u8
        },
    ]);
}

/// How bytes and vectors of numbers are written: the marker, twice the count and one
/// more, for a vector a byte that says whether its length is fixed, and the numbers.
pub proof fn law_runs_are_written(
    fixed: bool,
    bytes: Seq<u8>,
    ints: Seq<i32>,
    uints: Seq<u32>,
    doubles: Seq<u64>,
)
    requires
        bytes.len() < 0x8000_0000,
        ints.len() < 0x8000_0000,
        uints.len() < 0x8000_0000,
        doubles.len() < 0x8000_0000,
    ensures
        ({
            let f = if fixed {
                1u8
            } else {
                0u8
            };
            let bits = Seq::new(
                ints.len(),
                |i: int|
                    (if ints[i] < 0 {
                        ints[i] + 0x1_0000_0000
                    } else {
                        ints[i] as int
                    }) as u32,
            );
            &&& encoded(Amf3::ByteArray(bytes)) == seq![0x0Cu8] + u29_bytes(
                (2 * bytes.len() + 1) as u32,
            ) + bytes
            &&& encoded(Amf3::VectorInt { fixed, ints }) == seq![0x0Du8] + u29_bytes(
                (2 * ints.len() + 1) as u32,
            ) + seq![f] + words_bytes(bits)
            &&& encoded(Amf3::VectorUInt { fixed, uints }) == seq![0x0Eu8] + u29_bytes(
                (2 * uints.len() + 1) as u32,
            ) + seq![f] + words_bytes(uints)
            &&& encoded(Amf3::VectorDouble { fixed, doubles }) == seq![0x0Fu8] + u29_bytes(
                (2 * doubles.len() + 1) as u32,
            ) + seq![f] + long_words_bytes(doubles)
        }),
{
    let bits = Seq::new(
        ints.len(),
        |i: int|
            (if ints[i] < 0 {
                ints[i] + 0x1_0000_0000
            } else {
                ints[i] as int
            }) as u32,
    );
    assert(crate::amf3::encode::int_words(ints) =~= bits);
}

/// Numbers of a vector follow each other, the highest byte of each first.
pub proof fn law_words_are_written(w: Seq<u32>, x: Seq<u64>, i: int)
    ensures
        words_bytes(w).len() == 4 * w.len(),
        long_words_bytes(x).len() == 8 * x.len(),
        0 <= i < w.len() ==> words_bytes(w).subrange(4 * i, 4 * i + 4) == be32_bytes(w[i]),
        0 <= i < x.len() ==> long_words_bytes(x).subrange(8 * i, 8 * i + 8) == be64_bytes(x[i]),
{
    reveal(words_bytes);
    reveal(long_words_bytes);
    if 0 <= i < w.len() {
        assert forall|j: int| 0 <= j < 4 implies words_bytes(w)[4 * i + j] == be32_bytes(w[i])[j] by {
            assert((4 * i + j) / 4 == i && (4 * i + j) % 4 == j);
        }
        assert(words_bytes(w).subrange(4 * i, 4 * i + 4) =~= be32_bytes(w[i]));
    }
    if 0 <= i < x.len() {
        assert forall|j: int|
            0 <= j < 8 implies long_words_bytes(x)[8 * i + j] == be64_bytes(x[i])[j] by {
            assert((8 * i + j) / 8 == i && (8 * i + j) % 8 == j);
        }
        assert(long_words_bytes(x).subrange(8 * i, 8 * i + 8) =~= be64_bytes(x[i]));
    }
}

/// How values with parts are written. An array has its named values first, then those by
/// number. An object has 16 times the number of its sealed members, and 11 more if it is
/// dynamic, else 3; then its class, the names and the values of its sealed members, and
/// its dynamic members only if it is dynamic. One that writes itself has 7, its class
/// and its own bytes.
pub proof fn law_containers_are_written(
    dense: Seq<Amf3>,
    assoc: Seq<(Seq<char>, Amf3)>,
    class_name: Seq<char>,
    dynamic: bool,
    sealed: Seq<(Seq<char>, Amf3)>,
    dynamic_members: Seq<(Seq<char>, Amf3)>,
    body: Seq<u8>,
)
    requires
        dense.len() < 0x8000_0000,
        sealed.len() < 0x800_0000,
        encode_utf8(class_name).len() < 0x8000_0000,
    ensures
        encoded(Amf3::Array { dense, assoc }) == seq![9u8] + u29_bytes((2 * dense.len() + 1) as u32)
            + members_bytes(assoc) + values_bytes(dense),
        dynamic ==> encoded(
            Amf3::Object {
                class_name,
                dynamic,
                sealed,
                dynamic_members,
                externalizable_body: None,
            },
        ) == seq![0x0Au8] + u29_bytes((16 * sealed.len() + 11) as u32) + text_of(class_name)
            + names_bytes(sealed) + sealed_bytes(sealed) + members_bytes(dynamic_members),
        !dynamic ==> encoded(
            Amf3::Object {
                class_name,
                dynamic,
                sealed,
                dynamic_members,
                externalizable_body: None,
            },
        ) == seq![0x0Au8] + u29_bytes((16 * sealed.len() + 3) as u32) + text_of(class_name)
            + names_bytes(sealed) + sealed_bytes(sealed),
        encoded(
            Amf3::Object {
                class_name,
                dynamic,
                sealed,
                dynamic_members,
                externalizable_body: Some(body),
            },
        ) == seq![0x0Au8, 7] + text_of(class_name) + body,
{
    lemma_text_of(class_name);
    lemma_one_byte(7);
    assert(seq![0x0Au8] + seq![7u8] =~= seq![0x0Au8, 7]);
    let front = seq![0x0Au8] + u29_bytes((16 * sealed.len() + 3) as u32) + text_of(class_name)
        + names_bytes(sealed) + sealed_bytes(sealed);
    assert(front + Seq::<u8>::empty() =~= front);
}

/// How vectors of values and dictionaries are written: behind the count a byte that says
/// whether the length is fixed, or the keys are weak; a vector then names its class.
pub proof fn law_collections_are_written(
    flag: bool,
    name: Seq<char>,
    values: Seq<Amf3>,
    entries: Seq<(Amf3, Amf3)>,
)
    requires
        values.len() < 0x8000_0000,
        entries.len() < 0x8000_0000,
        encode_utf8(name).len() < 0x8000_0000,
    ensures
        ({
            let f = if flag {
                1u8
            } else {
                0u8
            };
            &&& encoded(Amf3::VectorObject { fixed: flag, object_type_name: name, values })
                == seq![0x10u8] + u29_bytes((2 * values.len() + 1) as u32) + seq![f] + text_of(name)
                + values_bytes(values)
            &&& encoded(Amf3::Dictionary { weak_keys: flag, entries }) == seq![0x11u8] + u29_bytes(
                (2 * entries.len() + 1) as u32,
            ) + seq![f] + entries_bytes(entries)
        }),
{
    lemma_text_of(name);
}

/// The parts of a value follow each other; named values end with an empty name, the byte
/// 1.
pub proof fn law_parts_follow_each_other(
    k: Seq<char>,
    x: Amf3,
    y: Amf3,
    p: Seq<(Seq<char>, Amf3)>,
    a: Seq<Amf3>,
    e: Seq<(Amf3, Amf3)>,
)
    requires
        encode_utf8(k).len() < 0x8000_0000,
    ensures
        members_bytes(Seq::empty()) == seq![1u8],
        members_bytes(seq![(k, x)] + p) == text_of(k) + encoded(x) + members_bytes(p),
        names_bytes(Seq::empty()).len() == 0,
        names_bytes(seq![(k, x)] + p) == text_of(k) + names_bytes(p),
        sealed_bytes(Seq::empty()).len() == 0,
        sealed_bytes(seq![(k, x)] + p) == encoded(x) + sealed_bytes(p),
        values_bytes(Seq::empty()).len() == 0,
        values_bytes(seq![x] + a) == encoded(x) + values_bytes(a),
        entries_bytes(Seq::empty()).len() == 0,
        entries_bytes(seq![(x, y)] + e) == encoded(x) + encoded(y) + entries_bytes(e),
{
    lemma_text_of(k);
    lemma_one_byte(1);
    let q = seq![(k, x)] + p;
    assert(q.subrange(1, q.len() as int) =~= p);
    let b = seq![x] + a;
    assert(b.subrange(1, b.len() as int) =~= a);
    let f = seq![(x, y)] + e;
    assert(f.subrange(1, f.len() as int) =~= e);
}

/// Writing appends, and writing several values appends one after the other.
pub proof fn law_values_are_appended(
    out: &mut Vec<u8>,
    v: &Amf3Value,
    values: &[Amf3Value],
    all: Vec<u8>,
)
    requires
        call_ensures(encode, (out, v), ()),
        call_ensures(encode_all, (values,), all),
    ensures
        final(out)@ == old(out)@ + encoded(v@),
        all@ == values_bytes(views(values@)),
{
}

// ---------------------------------------------------------------------------
// What is read
// ---------------------------------------------------------------------------

/// A flag counts as set whatever its byte is, unless it is zero.
pub proof fn law_flags_are_read(
    pre: Seq<u8>,
    f: u8,
    post: Seq<u8>,
    depth: nat,
    t: Tables,
    h: Readers,
)
    requires
        depth < 64,
    ensures
        ({
            let e = seq![0x0Du8] + u29_bytes(1) + seq![f];
            let r = value_at(pre + e + post, pre.len() as int, depth, t, h);
            r.out == Ok::<Amf3, Fault>(Amf3::VectorInt { fixed: f != 0, ints: Seq::empty() })
        }),
        ({
            let e = seq![0x0Eu8] + u29_bytes(1) + seq![f];
            let r = value_at(pre + e + post, pre.len() as int, depth, t, h);
            r.out == Ok::<Amf3, Fault>(Amf3::VectorUInt { fixed: f != 0, uints: Seq::empty() })
        }),
        ({
            let e = seq![0x0Fu8] + u29_bytes(1) + seq![f];
            let r = value_at(pre + e + post, pre.len() as int, depth, t, h);
            r.out == Ok::<Amf3, Fault>(Amf3::VectorDouble { fixed: f != 0, doubles: Seq::empty() })
        }),
        ({
            let e = seq![0x11u8] + u29_bytes(1) + seq![f];
            let r = value_at(pre + e + post, pre.len() as int, depth, t, h);
            r.out == Ok::<Amf3, Fault>(
                Amf3::Dictionary { weak_keys: f != 0, entries: Seq::empty() },
            )
        }),
{
    lemma_flag_of(pre, 0x0D, f, post, depth, t, h);
    lemma_flag_of(pre, 0x0E, f, post, depth, t, h);
    lemma_flag_of(pre, 0x0F, f, post, depth, t, h);
    lemma_flag_of(pre, 0x11, f, post, depth, t, h);
}

/// A date stands behind any odd header, in eight bytes.
pub proof fn law_dates_are_read(
    pre: Seq<u8>,
    count: u32,
    post: Seq<u8>,
    depth: nat,
    t: Tables,
    h: Readers,
)
    requires
        depth < 64,
        count < 0x1000_0000,
        post.len() >= 8,
    ensures
        ({
            let e = seq![8u8] + u29_bytes((2 * count + 1) as u32);
            let r = value_at(pre + e + post, pre.len() as int, depth, t, h);
            &&& r.out == Ok::<Amf3, Fault>(Amf3::Date(crate::wire::be64(post, 0)))
            &&& r.pos == pre.len() + e.len() + 8
        }),
{
    let n = (2 * count + 1) as u32;
    let e = seq![8u8] + u29_bytes(n);
    let s = pre + e + post;
    let o = pre.len() as int;
    assert(s =~= (pre + seq![8u8]) + u29_bytes(n) + post);
    law_u29_round_trip(pre + seq![8u8], n, post);
    assert(s[o] == 8);
    let q = o + e.len();
    law_fields_by_their_bytes(s, q);
    law_fields_by_their_bytes(post, 0);
    assert forall|i: int| 0 <= i < 8 implies s[q + i] == post[i] by {}
    assert(value_at(s, o, depth, t, h) == flat_at(s, q, t, 8, count as nat));
}

proof fn lemma_flag_of(
    pre: Seq<u8>,
    m: u8,
    f: u8,
    post: Seq<u8>,
    depth: nat,
    t: Tables,
    h: Readers,
)
    requires
        depth < 64,
        m == 0x0D || m == 0x0E || m == 0x0F || m == 0x11,
    ensures
        ({
            let r = value_at(
                pre + (seq![m] + u29_bytes(1) + seq![f]) + post,
                pre.len() as int,
                depth,
                t,
                h,
            );
            r.out == Ok::<Amf3, Fault>(
                if m == 0x0D {
                    Amf3::VectorInt { fixed: f != 0, ints: Seq::empty() }
                } else if m == 0x0E {
                    Amf3::VectorUInt { fixed: f != 0, uints: Seq::empty() }
                } else if m == 0x0F {
                    Amf3::VectorDouble { fixed: f != 0, doubles: Seq::empty() }
                } else {
                    Amf3::Dictionary { weak_keys: f != 0, entries: Seq::empty() }
                },
            )
        }),
{
    lemma_one_byte(1);
    let s = pre + (seq![m] + u29_bytes(1) + seq![f]) + post;
    let o = pre.len() as int;
    assert(s =~= (pre + seq![m]) + seq![1u8] + (seq![f] + post));
    law_integer_is_read(1, 0, 0, 0, pre + seq![m], seq![f] + post);
    assert(s[o] == m && s[o + 2] == f);
    if m != 0x11 {
        assert(value_at(s, o, depth, t, h) == flat_at(s, o + 2, t, m, 0));
        if m == 0x0F {
            assert(Seq::new(0, |i: int| crate::wire::be64(s, o + 3 + 8 * i)) =~= Seq::empty());
        } else {
            let words = Seq::new(0, |i: int| crate::wire::be32(s, o + 3 + 4 * i));
            assert(words =~= Seq::empty());
            assert(Seq::new(0, |i: int| crate::amf3::decode::signed32(words[i])) =~= Seq::empty());
        }
    } else {
        assert(value_at(s, o, depth, t, h) == crate::amf3::decode::dictionary_at(
            s,
            o + 2,
            depth + 1,
            t,
            h,
            0,
        ));
    }
}

/// Of values nested 64 deep, of bytes that have ended, and of a marker above 0x11,
/// nothing is read.
pub proof fn law_what_is_no_value(s: Seq<u8>, pos: int, depth: nat, t: Tables, h: Readers)
    requires
        0 <= pos,
    ensures
        depth >= 64 ==> value_at(s, pos, depth, t, h).out == Err::<Amf3, Fault>(
            Fault::InvalidAmf0("amf3: nested container depth exceeded 64"@),
        ),
        depth < 64 && pos >= s.len() ==> value_at(s, pos, depth, t, h).out == Err::<Amf3, Fault>(
            Fault::InvalidAmf0("amf3 truncated"@),
        ),
        depth < 64 && pos < s.len() && s[pos] > 0x11 ==> value_at(s, pos, depth, t, h).out == Err::<
            Amf3,
            Fault,
        >(Fault::InvalidAmf0("amf3: unknown marker 0x"@ + numeral(s[pos] as nat, 16))),
{
}

/// A place that the table of strings or of objects does not have is refused, and so is a
/// document that names something else. A document may name one under either marker.
pub proof fn law_places_that_are_not_there(
    pre: Seq<u8>,
    idx: u32,
    post: Seq<u8>,
    depth: nat,
    t: Tables,
    h: Readers,
    m: u8,
)
    requires
        depth < 64,
        idx < 0x1000_0000,
        7 <= m <= 0x11,
    ensures
        idx >= t.strings.len() ==> string_at(
            pre + u29_bytes((2 * idx) as u32) + post,
            pre.len() as int,
            t,
        ).out == Err::<Seq<char>, Fault>(
            Fault::InvalidAmf0("amf3 string ref "@ + decimal(idx as nat) + " out of range"@),
        ),
        ({
            let document = m == 7 || m == 0x0B;
            let e = seq![m] + u29_bytes((2 * idx) as u32);
            let r = value_at(pre + e + post, pre.len() as int, depth, t, h);
            &&& idx >= t.objects.len() && !document ==> r.out == Err::<Amf3, Fault>(
                Fault::InvalidAmf0("amf3 object ref "@ + decimal(idx as nat) + " out of range"@),
            )
            &&& idx >= t.objects.len() && document ==> r.out == Err::<Amf3, Fault>(
                Fault::InvalidAmf0("amf3 xml ref "@ + decimal(idx as nat) + " out of range"@),
            )
            &&& idx < t.objects.len() && document ==> r.out == (match t.objects[idx as int] {
                Amf3::Xml(x) => Ok::<Amf3, Fault>(
                    if m == 7 {
                        Amf3::XmlDocument(x)
                    } else {
                        Amf3::Xml(x)
                    },
                ),
                Amf3::XmlDocument(x) => Ok::<Amf3, Fault>(
                    if m == 7 {
                        Amf3::XmlDocument(x)
                    } else {
                        Amf3::Xml(x)
                    },
                ),
                _ => Err::<Amf3, Fault>(
                    Fault::InvalidAmf0(
                        "amf3 xml ref "@ + decimal(idx as nat) + " resolved to non-xml value"@,
                    ),
                ),
            })
            &&& r.tables == t
        }),
{
    let n = (2 * idx) as u32;
    law_u29_round_trip(pre, n, post);
    law_u29_round_trip(pre + seq![m], n, post);
    let s = pre + (seq![m] + u29_bytes(n)) + post;
    assert(s =~= (pre + seq![m]) + u29_bytes(n) + post);
    assert(s[pre.len() as int] == m);
}

/// A place that the table of traits does not have is refused.
pub proof fn law_traits_that_are_not_there(
    pre: Seq<u8>,
    place: u32,
    post: Seq<u8>,
    depth: nat,
    t: Tables,
    h: Readers,
)
    requires
        depth < 64,
        t.traits.len() <= place < 0x800_0000,
    ensures
        value_at(
            pre + (seq![0x0Au8] + u29_bytes((4 * place + 1) as u32)) + post,
            pre.len() as int,
            depth,
            t,
            h,
        ).out == Err::<Amf3, Fault>(
            Fault::InvalidAmf0("amf3 trait ref "@ + decimal(place as nat) + " out of range"@),
        ),
{
    let n = (4 * place + 1) as u32;
    assert(n % 2 == 1 && n / 2 % 2 == 0 && n / 4 == place);
    law_u29_round_trip(pre + seq![0x0Au8], n, post);
    let s = pre + (seq![0x0Au8] + u29_bytes(n)) + post;
    assert(s =~= (pre + seq![0x0Au8]) + u29_bytes(n) + post);
    assert(s[pre.len() as int] == 0x0A);
}

/// The first reader of a class answers for it, and nothing answers for a class that has
/// none. A body of fixed length has that length wherever it stands.
pub proof fn law_readers_by_class(
    h: Readers,
    class: Seq<char>,
    i: int,
    s: Seq<u8>,
    pos: int,
    fixed: FixedBody,
)
    ensures
        0 <= i < h.len() && h[i].0@ == class && (forall|j: int|
            0 <= j < i ==> (#[trigger] h[j]).0@ != class) ==> answer(h, 0, class, s, pos) == Some(
            h[i].1.length_at(s, pos),
        ),
        (forall|j: int| 0 <= j < h.len() ==> (#[trigger] h[j]).0@ != class) ==> answer(
            h,
            0,
            class,
            s,
            pos,
        ) is None,
        fixed.length_at(s, pos) == Ok::<usize, Fault>(fixed.len),
{
    if 0 <= i < h.len() && h[i].0@ == class && (forall|j: int|
        0 <= j < i ==> (#[trigger] h[j]).0@ != class) {
        lemma_answer(h, 0, i, class, s, pos);
    }
    if forall|j: int| 0 <= j < h.len() ==> (#[trigger] h[j]).0@ != class {
        lemma_answer(h, 0, h.len() as int, class, s, pos);
    }
}

proof fn lemma_answer(h: Readers, k: int, i: int, class: Seq<char>, s: Seq<u8>, pos: int)
    requires
        0 <= k <= i <= h.len(),
        i < h.len() ==> h[i].0@ == class,
        forall|j: int| k <= j < i ==> (#[trigger] h[j]).0@ != class,
    ensures
        answer(h, k, class, s, pos) == (if i < h.len() {
            Some(h[i].1.length_at(s, pos))
        } else {
            None
        }),
    decreases i - k,
{
    if k < i {
        lemma_answer(h, k + 1, i, class, s, pos);
    }
}

/// An object that writes itself holds the bytes that the reader of its class counts, and
/// nothing else. Where the class has no reader, where the reader fails, and where the
/// bytes end too soon, it is refused.
pub proof fn law_class_that_writes_itself(
    s: Seq<u8>,
    pos: int,
    depth: nat,
    t: Tables,
    h: Readers,
    known: TraitView,
    len: usize,
    fault: Fault,
)
    requires
        depth <= 64,
        0 <= pos <= s.len() <= usize::MAX,
        known.externalizable,
    ensures
        ({
            let r = crate::amf3::decode::object_at(s, pos, depth, t, h, known);
            let said = answer(h, 0, known.class_name, s, pos);
            &&& said == Some(Ok::<usize, Fault>(len)) && pos + len <= s.len() ==> r.out == Ok::<
                Amf3,
                Fault,
            >(
                Amf3::Object {
                    class_name: known.class_name,
                    dynamic: false,
                    sealed: Seq::empty(),
                    dynamic_members: Seq::empty(),
                    externalizable_body: Some(s.subrange(pos, pos + len)),
                },
            ) && r.pos == pos + len
            &&& said == Some(Ok::<usize, Fault>(len)) && pos + len > s.len() ==> r.out is Err
            &&& said == Some(Err::<usize, Fault>(fault)) ==> r.out == Err::<Amf3, Fault>(fault)
            &&& said is None ==> r.out is Err
        }),
{
}

/// A decoder starts with empty tables and keeps them from one value to the next; they are
/// emptied on demand, and its readers stay.
pub proof fn law_decoder_keeps_tables(
    d: &mut Decoder,
    buf: &[u8],
    pos: &mut usize,
    r: Result<Amf3Value>,
    e: &mut Decoder,
    fresh: Decoder,
)
    requires
        call_ensures(Decoder::decode, (d, buf, pos), r),
        call_ensures(Decoder::reset_tables, (e,), ()),
        call_ensures(Decoder::new, (), fresh),
    ensures
        ({
            let step = value_at(
                buf@,
                *old(pos) as int,
                0,
                old(d)@.tables,
                old(d)@.readers,
            );
            &&& outcome(r) == step.out
            &&& *final(pos) == step.pos
            &&& final(d)@.tables == step.tables
            &&& final(d)@.readers == old(d)@.readers
        }),
        final(e)@.tables.strings.len() == 0 && final(e)@.tables.objects.len() == 0
            && final(e)@.tables.traits.len() == 0 && final(e)@.readers == old(e)@.readers,
        fresh@.tables.strings.len() == 0 && fresh@.tables.objects.len() == 0
            && fresh@.tables.traits.len() == 0 && fresh@.readers.len() == 0,
{
}

/// A message is read to its end, with one set of tables. In a data message the byte 0x11
/// may stand before each value, and is passed over; behind it a value has to come.
pub proof fn law_message_is_read_to_its_end(s: Seq<u8>, pos: int, t: Tables, switched: bool)
    requires
        0 <= pos,
    ensures
        pos >= s.len() ==> message_at(s, pos, t, switched).out == Ok::<Seq<Amf3>, Fault>(
            Seq::empty(),
        ),
        pos < s.len() ==> {
            let marked = switched && s[pos] == 0x11;
            let start = if marked {
                pos + 1
            } else {
                pos
            };
            let r = value_at(s, start, 0, t, Seq::empty());
            let whole = message_at(s, pos, t, switched).out;
            &&& start >= s.len() ==> whole == Err::<Seq<Amf3>, Fault>(
                Fault::InvalidAmf0("avmplus marker (0x11) at end of body with no AMF3 value"@),
            )
            &&& start < s.len() ==> (match r.out {
                Err(f) => whole == Err::<Seq<Amf3>, Fault>(f),
                Ok(v) => match message_at(s, r.pos, r.tables, switched).out {
                    Err(f) => whole == Err::<Seq<Amf3>, Fault>(f),
                    Ok(rest) => whole == Ok::<Seq<Amf3>, Fault>(seq![v] + rest),
                },
            })
        },
{
    if pos < s.len() {
        let start = if switched && s[pos] == 0x11 {
            pos + 1
        } else {
            pos
        };
        crate::amf3::laws::law_reading_keeps_tables(s, start, 0, t, Seq::empty());
    }
}

/// Reading one value starts with empty tables, and so does reading a message.
pub proof fn law_messages_start_with_empty_tables(
    buf: &[u8],
    pos: &mut usize,
    one: Result<Amf3Value>,
    all: Result<Vec<Amf3Value>>,
    data: Result<Vec<Amf3Value>>,
)
    requires
        call_ensures(decode, (buf, pos), one),
        call_ensures(decode_all, (buf,), all),
        call_ensures(decode_data_message, (buf,), data),
    ensures
        ({
            let none = Tables {
                strings: Seq::empty(),
                objects: Seq::empty(),
                traits: Seq::empty(),
            };
            let step = value_at(buf@, *old(pos) as int, 0, none, Seq::empty());
            let plain = message_at(buf@, 0, none, false).out;
            let marked = message_at(buf@, 0, none, true).out;
            &&& outcome(one) == step.out && *final(pos) == step.pos
            &&& all matches Ok(v) ==> plain == Ok::<Seq<Amf3>, Fault>(views(v@))
            &&& all matches Err(e) ==> plain == Err::<Seq<Amf3>, Fault>(e@)
            &&& data matches Ok(v) ==> marked == Ok::<Seq<Amf3>, Fault>(views(v@))
            &&& data matches Err(e) ==> marked == Err::<Seq<Amf3>, Fault>(e@)
        }),
{
}

// ---------------------------------------------------------------------------
// Values
// ---------------------------------------------------------------------------

/// A member is found by its name: the first sealed one, and where there is none the first
/// dynamic one. Only objects have members.
pub proof fn law_members_are_found(
    class_name: Seq<char>,
    dynamic: bool,
    sealed: Seq<(Seq<char>, Amf3)>,
    dynamic_members: Seq<(Seq<char>, Amf3)>,
    body: Option<Seq<u8>>,
    key: Seq<char>,
    i: int,
    v: Amf3,
)
    ensures
        ({
            let o = Amf3::Object {
                class_name,
                dynamic,
                sealed,
                dynamic_members,
                externalizable_body: body,
            };
            let unsealed = forall|j: int| 0 <= j < sealed.len() ==> (#[trigger] sealed[j]).0 != key;
            &&& 0 <= i < sealed.len() && sealed[i].0 == key && (forall|j: int|
                0 <= j < i ==> (#[trigger] sealed[j]).0 != key) ==> o.get(key) == Some(sealed[i].1)
            &&& unsealed && 0 <= i < dynamic_members.len() && dynamic_members[i].0 == key && (
            forall|j: int| 0 <= j < i ==> (#[trigger] dynamic_members[j]).0 != key) ==> o.get(key)
                == Some(dynamic_members[i].1)
            &&& unsealed && (forall|j: int|
                0 <= j < dynamic_members.len() ==> (#[trigger] dynamic_members[j]).0 != key)
                ==> o.get(key) is None
        }),
        !(v is Object) ==> v.get(key) is None,
{
    if forall|j: int| 0 <= j < sealed.len() ==> (#[trigger] sealed[j]).0 != key {
        lemma_unnamed(sealed, 0, key);
    }
    if forall|j: int| 0 <= j < dynamic_members.len() ==> (#[trigger] dynamic_members[j]).0 != key {
        lemma_unnamed(dynamic_members, 0, key);
    }
    if 0 <= i < sealed.len() && sealed[i].0 == key && (forall|j: int|
        0 <= j < i ==> (#[trigger] sealed[j]).0 != key) {
        lemma_named(sealed, 0, i, key);
    }
    if 0 <= i < dynamic_members.len() && dynamic_members[i].0 == key && (forall|j: int|
        0 <= j < i ==> (#[trigger] dynamic_members[j]).0 != key) {
        lemma_named(dynamic_members, 0, i, key);
    }
}

proof fn lemma_named(p: Seq<(Seq<char>, Amf3)>, k: int, i: int, key: Seq<char>)
    requires
        0 <= k <= i < p.len(),
        p[i].0 == key,
        forall|j: int| k <= j < i ==> (#[trigger] p[j]).0 != key,
    ensures
        member_named(p, k, key) == Some(p[i].1),
    decreases i - k,
{
    if k < i {
        lemma_named(p, k + 1, i, key);
    }
}

proof fn lemma_unnamed(p: Seq<(Seq<char>, Amf3)>, k: int, key: Seq<char>)
    requires
        0 <= k,
        forall|j: int| k <= j < p.len() ==> (#[trigger] p[j]).0 != key,
    ensures
        member_named(p, k, key) is None,
    decreases p.len() - k,
{
    if k < p.len() {
        lemma_unnamed(p, k + 1, key);
    }
}

/// What a value can be taken for: strings and documents for a text, integers for an
/// integer, integers and doubles for a number, truth values for a truth value. Members
/// are those that `get` finds.
pub proof fn law_values_are_taken(
    v: &Amf3Value,
    key: &str,
    member: Option<&Amf3Value>,
    text: Option<&str>,
    whole: Option<i32>,
    number: Option<Double>,
    truth: Option<bool>,
)
    requires
        call_ensures(Amf3Value::get, (v, key), member),
        call_ensures(Amf3Value::as_str, (v,), text),
        call_ensures(Amf3Value::as_i32, (v,), whole),
        call_ensures(Amf3Value::as_f64, (v,), number),
        call_ensures(Amf3Value::as_bool, (v,), truth),
    ensures
        member matches Some(m) ==> v@.get(key@) == Some(m@),
        member is None ==> v@.get(key@) is None,
        match v@ {
            Amf3::String(s) => text matches Some(x) && x@ == s,
            Amf3::Xml(s) => text matches Some(x) && x@ == s,
            Amf3::XmlDocument(s) => text matches Some(x) && x@ == s,
            _ => text is None,
        },
        match v@ {
            Amf3::Integer(n) => whole == Some(n) && (number matches Some(d) && d.bits == int_bits(
                n as int,
            )),
            Amf3::Double(bits) => whole is None && (number matches Some(d) && d.bits == bits),
            _ => whole is None && number is None,
        },
        match v@ {
            Amf3::Boolean(b) => truth == Some(b),
            _ => truth is None,
        },
{
}

/// The two ways to make an object without a class: with sealed members, and with dynamic
/// ones.
pub proof fn law_objects_without_a_class(
    pairs: Vec<(String, Amf3Value)>,
    a: Amf3Value,
    b: Amf3Value,
)
    requires
        call_ensures(anon_object, (pairs,), a),
        call_ensures(dynamic_object, (pairs,), b),
    ensures
        a@ == (Amf3::Object {
            class_name: Seq::empty(),
            dynamic: false,
            sealed: member_views(pairs@),
            dynamic_members: Seq::empty(),
            externalizable_body: None,
        }),
        b@ == (Amf3::Object {
            class_name: Seq::empty(),
            dynamic: true,
            sealed: Seq::empty(),
            dynamic_members: member_views(pairs@),
            externalizable_body: None,
        }),
{
}

// ---------------------------------------------------------------------------
// In AMF0
// ---------------------------------------------------------------------------

/// What each simple value is in AMF0: numbers are doubles, documents strings, and a date
/// has no time zone.
pub proof fn law_simple_values_in_amf0(
    text: spec_fn(u64) -> Seq<char>,
    b: bool,
    n: i32,
    d: u64,
    s: Seq<char>,
)
    ensures
        bridged(Amf3::Undefined, text) == Amf0::Undefined,
        bridged(Amf3::Null, text) == Amf0::Null,
        bridged(Amf3::Boolean(b), text) == Amf0::Boolean(b),
        bridged(Amf3::Integer(n), text) == Amf0::Number(int_bits(n as int)),
        bridged(Amf3::Double(d), text) == Amf0::Number(d),
        bridged(Amf3::String(s), text) == Amf0::String(s),
        bridged(Amf3::XmlDocument(s), text) == Amf0::String(s),
        bridged(Amf3::Xml(s), text) == Amf0::String(s),
        bridged(Amf3::Date(d), text) == (Amf0::Date { millis: d, timezone: 0 }),
{
}

/// Bytes and vectors are strict arrays in AMF0, with as many items, each for itself.
pub proof fn law_runs_in_amf0(
    text: spec_fn(u64) -> Seq<char>,
    fixed: bool,
    name: Seq<char>,
    bytes: Seq<u8>,
    ints: Seq<i32>,
    uints: Seq<u32>,
    doubles: Seq<u64>,
    values: Seq<Amf3>,
    i: int,
)
    ensures
        bridged(Amf3::ByteArray(bytes), text) matches Amf0::StrictArray(a) && a.len()
            == bytes.len() && (0 <= i < a.len() ==> a[i] == Amf0::Number(
            int_bits(bytes[i] as int),
        )),
        bridged(Amf3::VectorInt { fixed, ints }, text) matches Amf0::StrictArray(a) && a.len()
            == ints.len() && (0 <= i < a.len() ==> a[i] == Amf0::Number(int_bits(ints[i] as int))),
        bridged(Amf3::VectorUInt { fixed, uints }, text) matches Amf0::StrictArray(a) && a.len()
            == uints.len() && (0 <= i < a.len() ==> a[i] == Amf0::Number(
            int_bits(uints[i] as int),
        )),
        bridged(Amf3::VectorDouble { fixed, doubles }, text) matches Amf0::StrictArray(a) && a.len()
            == doubles.len() && (0 <= i < a.len() ==> a[i] == Amf0::Number(doubles[i])),
        bridged(
            Amf3::VectorObject { fixed, object_type_name: name, values },
            text,
        ) matches Amf0::StrictArray(a) && a.len() == values.len() && (0 <= i < a.len() ==> a[i]
            == bridged(values[i], text)),
{
    lemma_values_each(values, text, i);
}

proof fn lemma_values_each(a: Seq<Amf3>, text: spec_fn(u64) -> Seq<char>, i: int)
    ensures
        bridged_values(a, text).len() == a.len(),
        0 <= i < a.len() ==> bridged_values(a, text)[i] == bridged(a[i], text),
    decreases a.len(),
{
    if a.len() > 0 {
        lemma_values_each(a.subrange(1, a.len() as int), text, i - 1);
    }
}

proof fn lemma_numbered_each(a: Seq<Amf3>, n: nat, text: spec_fn(u64) -> Seq<char>, i: int)
    ensures
        bridged_numbered(a, n, text).len() == a.len(),
        0 <= i < a.len() ==> bridged_numbered(a, n, text)[i] == (
            decimal((n + i) as nat),
            bridged(a[i], text),
        ),
    decreases a.len(),
{
    if a.len() > 0 {
        lemma_numbered_each(a.subrange(1, a.len() as int), n + 1, text, i - 1);
    }
}

proof fn lemma_members_each(
    p: Seq<(Seq<char>, Amf3)>,
    text: spec_fn(u64) -> Seq<char>,
    i: int,
)
    ensures
        bridged_members(p, text).len() == p.len(),
        0 <= i < p.len() ==> bridged_members(p, text)[i] == (p[i].0, bridged(p[i].1, text)),
    decreases p.len(),
{
    if p.len() > 0 {
        lemma_members_each(p.subrange(1, p.len() as int), text, i - 1);
    }
}

proof fn lemma_entries_each(p: Seq<(Amf3, Amf3)>, text: spec_fn(u64) -> Seq<char>, i: int)
    ensures
        bridged_entries(p, text).len() == p.len(),
        0 <= i < p.len() ==> bridged_entries(p, text)[i] == (
            key_text(p[i].0, text),
            bridged(p[i].1, text),
        ),
    decreases p.len(),
{
    if p.len() > 0 {
        lemma_entries_each(p.subrange(1, p.len() as int), text, i - 1);
    }
}

/// In AMF0 an array is an ECMA array: its values by number come first, each named by its
/// number, then those by name. An object keeps its sealed members and then its dynamic
/// ones, and loses its class. A dictionary is an ECMA array under the texts of its keys.
pub proof fn law_containers_in_amf0(
    text: spec_fn(u64) -> Seq<char>,
    dense: Seq<Amf3>,
    p: Seq<(Seq<char>, Amf3)>,
    q: Seq<(Seq<char>, Amf3)>,
    class_name: Seq<char>,
    dynamic: bool,
    body: Option<Seq<u8>>,
    weak_keys: bool,
    entries: Seq<(Amf3, Amf3)>,
    i: int,
)
    ensures
        bridged(Amf3::Array { dense, assoc: p }, text) matches Amf0::EcmaArray(a) && a.len()
            == dense.len() + p.len() && (0 <= i < dense.len() ==> a[i] == (
            decimal(i as nat),
            bridged(dense[i], text),
        )) && (0 <= i < p.len() ==> a[dense.len() + i] == (p[i].0, bridged(p[i].1, text))),
        bridged(
            Amf3::Object {
                class_name,
                dynamic,
                sealed: p,
                dynamic_members: q,
                externalizable_body: body,
            },
            text,
        ) matches Amf0::Object(a) && a.len() == p.len() + q.len() && (0 <= i < p.len() ==> a[i] == (
            p[i].0,
            bridged(p[i].1, text),
        )) && (0 <= i < q.len() ==> a[p.len() + i] == (q[i].0, bridged(q[i].1, text))),
        bridged(Amf3::Dictionary { weak_keys, entries }, text) matches Amf0::EcmaArray(a)
            && a.len() == entries.len() && (0 <= i < a.len() ==> a[i] == (
            key_text(entries[i].0, text),
            bridged(entries[i].1, text),
        )),
{
    lemma_numbered_each(dense, 0, text, i);
    lemma_members_each(p, text, i);
    lemma_members_each(q, text, i);
    lemma_entries_each(entries, text, i);
}

/// What stands for a value that is a key: a text for itself, an integer for its digits,
/// behind a minus sign if it is negative, and the words `true`, `false`, `null` and
/// `undefined`; anything with parts is `[object]`.
pub proof fn law_keys_as_texts(
    text: spec_fn(u64) -> Seq<char>,
    s: Seq<char>,
    n: i32,
    d: u64,
    k: Amf3,
)
    ensures
        key_text(Amf3::String(s), text) == s,
        key_text(Amf3::Xml(s), text) == s,
        key_text(Amf3::XmlDocument(s), text) == s,
        n >= 0 ==> key_text(Amf3::Integer(n), text) == decimal(n as nat),
        n < 0 ==> key_text(Amf3::Integer(n), text) == "-"@ + decimal((-n) as nat),
        key_text(Amf3::Double(d), text) == text(d),
        key_text(Amf3::Boolean(true), text) == "true"@,
        key_text(Amf3::Boolean(false), text) == "false"@,
        key_text(Amf3::Null, text) == "null"@,
        key_text(Amf3::Undefined, text) == "undefined"@,
        k is Date || k is Array || k is Object || k is ByteArray || k is VectorInt || k is VectorUInt
            || k is VectorDouble || k is VectorObject || k is Dictionary ==> key_text(k, text)
            == "[object]"@,
{
}

} // verus!
