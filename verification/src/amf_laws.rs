//! What decoding makes of encoded AMF0 values.

use vstd::prelude::*;
#[allow(unused_imports)]
use vstd::utf8::encode_utf8;
#[allow(unused_imports)]
use crate::amf::{
    bits16, command_bytes, container_at, container_of, count_bytes, decode_at, encoded, inline_at,
    items_at, items_bytes, long_text, long_text_bytes, needs_no_text, no_text, no_text_fault,
    pairs_at, pairs_bytes, scalar_at, short_text, short_text_bytes, text_body, values_at, values_of,
    values_with, Amf0, Container, Decoded, Failure, TextRule, M_AVMPLUS, M_ECMA_ARRAY,
    M_LONG_STRING, M_OBJECT, M_OBJECT_END, M_REFERENCE, M_STRICT_ARRAY, M_STRING, M_TYPED_OBJECT,
    M_XML_DOCUMENT,
};
#[allow(unused_imports)]
use crate::amf3;
#[allow(unused_imports)]
use crate::amf3::bridge::{bridged, law_plain_keys_need_no_text, plain_keys};
#[allow(unused_imports)]
use crate::amf3::decode::{value_at, Tables};
#[allow(unused_imports)]
use crate::amf3::laws::law_reading_keeps_tables;
#[allow(unused_imports)]
use crate::amf3::value::Amf3;
#[allow(unused_imports)]
use crate::error::Fault;
#[allow(unused_imports)]
use crate::wire::{
    be16, be16_bytes, be32, be32_bytes, be64_bytes, lemma_be16, lemma_be32, lemma_be64,
};

verus! {

/// Whether a key or class name fits its 16-bit length.
pub open spec fn name_fits(t: Seq<char>) -> bool {
    encode_utf8(t).len() <= 0xFFFF
}

/// Whether a text fits its 32-bit length.
pub open spec fn text_fits(t: Seq<char>) -> bool {
    encode_utf8(t).len() <= 0xFFFF_FFFF
}

/// Whether a value can be written as it is and read back with `room` levels of
/// nesting: texts and counts fit their fields, and no key is empty.
pub open spec fn fits(v: Amf0, room: nat) -> bool
    decreases v,
{
    room >= 1 && match v {
        Amf0::String(t) => text_fits(t),
        Amf0::XmlDocument(t) => text_fits(t),
        Amf0::Object(p) => pairs_fit(p, (room - 1) as nat),
        Amf0::EcmaArray(p) => pairs_fit(p, (room - 1) as nat),
        Amf0::TypedObject { class_name, pairs } => name_fits(class_name) && pairs_fit(
            pairs,
            (room - 1) as nat,
        ),
        Amf0::StrictArray(a) => a.len() <= 0xFFFF_FFFF && items_fit(a, (room - 1) as nat),
        _ => true,
    }
}

/// Whether named values fit.
pub open spec fn pairs_fit(p: Seq<(Seq<char>, Amf0)>, room: nat) -> bool
    decreases p,
{
    p.len() == 0 || {
        &&& name_fits(p[0].0)
        &&& p[0].0.len() > 0
        &&& fits(p[0].1, room)
        &&& pairs_fit(p.subrange(1, p.len() as int), room)
    }
}

/// Whether a run of values fits.
pub open spec fn items_fit(a: Seq<Amf0>, room: nat) -> bool
    decreases a,
{
    a.len() == 0 || (fits(a[0], room) && items_fit(a.subrange(1, a.len() as int), room))
}

proof fn lemma_text_body(pre: Seq<u8>, t: Seq<char>, post: Seq<u8>)
    ensures
        ({
            let b = encode_utf8(t);
            text_body(pre + b + post, pre.len() as int, b.len() as int) == Ok::<
                (Seq<char>, int),
                Failure,
            >((t, (pre.len() + b.len()) as int))
        }),
{
    let b = encode_utf8(t);
    let s = pre + b + post;
    assert(s.subrange(pre.len() as int, (pre.len() + b.len()) as int) =~= b);
    vstd::utf8::encode_utf8_valid_utf8(t);
    vstd::utf8::encode_utf8_decode_utf8(t);
}

proof fn lemma_short_text(pre: Seq<u8>, t: Seq<char>, post: Seq<u8>)
    requires
        name_fits(t),
    ensures
        short_text(pre + short_text_bytes(t) + post, pre.len() as int) == Ok::<
            (Seq<char>, int),
            Failure,
        >((t, (pre.len() + short_text_bytes(t).len()) as int)),
{
    let b = encode_utf8(t);
    let n = be16_bytes(b.len() as u16);
    let s = pre + short_text_bytes(t) + post;
    assert(s =~= (pre + n) + b + post);
    assert(s.subrange(pre.len() as int, pre.len() + 2int) =~= n);
    lemma_be16(s, pre.len() as int, b.len() as u16);
    lemma_text_body(pre + n, t, post);
}

proof fn lemma_long_text(pre: Seq<u8>, t: Seq<char>, post: Seq<u8>)
    requires
        text_fits(t),
    ensures
        long_text(pre + long_text_bytes(t) + post, pre.len() as int) == Ok::<
            (Seq<char>, int),
            Failure,
        >((t, (pre.len() + long_text_bytes(t).len()) as int)),
{
    let b = encode_utf8(t);
    let n = be32_bytes(b.len() as u32);
    let s = pre + long_text_bytes(t) + post;
    assert(s =~= (pre + n) + b + post);
    assert(s.subrange(pre.len() as int, pre.len() + 4int) =~= n);
    lemma_be32(s, pre.len() as int, b.len() as u32);
    lemma_text_body(pre + n, t, post);
}

/// Whether `v` is read at `pos`, up to `end`.
spec fn reads(s: Seq<u8>, pos: int, depth: nat, refs: Seq<Amf0>, v: Amf0, end: int) -> bool {
    decode_at(s, pos, depth, refs, None) matches Ok(d) && d.value == v && d.pos == end
}

proof fn lemma_fixed_size(pre: Seq<u8>, v: Amf0, post: Seq<u8>, depth: nat, refs: Seq<Amf0>)
    requires
        depth < 64,
        fits(v, (64 - depth) as nat),
        match v {
            Amf0::Number(_) | Amf0::Boolean(_) => true,
            Amf0::Null | Amf0::Undefined | Amf0::Unsupported => true,
            _ => false,
        },
    ensures
        comes_back(pre, v, post, depth, refs),
{
    reveal(scalar_at);
    let e = encoded(v);
    let s = pre + e + post;
    let p = pre.len() as int;
    assert(s[p] == e[0]);
    match v {
        Amf0::Number(n) => {
            assert(s.subrange(p + 1, p + 9) =~= be64_bytes(n));
            lemma_be64(s, p + 1, n);
        },
        Amf0::Boolean(b) => {
            assert(s[p + 1] == e[1]);
        },
        _ => {},
    }
}

proof fn lemma_date(
    pre: Seq<u8>,
    millis: u64,
    timezone: i16,
    post: Seq<u8>,
    depth: nat,
    refs: Seq<Amf0>,
)
    requires
        depth < 64,
    ensures
        comes_back(pre, Amf0::Date { millis, timezone }, post, depth, refs),
{
    reveal(scalar_at);
    let e = encoded(Amf0::Date { millis, timezone });
    let s = pre + e + post;
    let p = pre.len() as int;
    assert(s[p] == e[0]);
    assert(s.subrange(p + 1, p + 9) =~= be64_bytes(millis));
    lemma_be64(s, p + 1, millis);
    assert(s.subrange(p + 9, p + 11) =~= be16_bytes(bits16(timezone)));
    lemma_be16(s, p + 9, bits16(timezone));
}

proof fn lemma_string(pre: Seq<u8>, t: Seq<char>, post: Seq<u8>, depth: nat, refs: Seq<Amf0>)
    requires
        depth < 64,
        text_fits(t),
    ensures
        comes_back(pre, Amf0::String(t), post, depth, refs),
{
    reveal(scalar_at);
    let e = encoded(Amf0::String(t));
    let s = pre + e + post;
    assert(s[pre.len() as int] == e[0]);
    if encode_utf8(t).len() <= 0xFFFF {
        assert(s =~= pre.push(M_STRING) + short_text_bytes(t) + post);
        lemma_short_text(pre.push(M_STRING), t, post);
    } else {
        assert(s =~= pre.push(M_LONG_STRING) + long_text_bytes(t) + post);
        lemma_long_text(pre.push(M_LONG_STRING), t, post);
    }
}

proof fn lemma_xml_document(pre: Seq<u8>, t: Seq<char>, post: Seq<u8>, depth: nat, refs: Seq<Amf0>)
    requires
        depth < 64,
        text_fits(t),
    ensures
        comes_back(pre, Amf0::XmlDocument(t), post, depth, refs),
{
    reveal(scalar_at);
    let e = encoded(Amf0::XmlDocument(t));
    let s = pre + e + post;
    assert(s[pre.len() as int] == e[0]);
    assert(s =~= pre.push(M_XML_DOCUMENT) + long_text_bytes(t) + post);
    lemma_long_text(pre.push(M_XML_DOCUMENT), t, post);
}

proof fn lemma_scalar(pre: Seq<u8>, v: Amf0, post: Seq<u8>, depth: nat, refs: Seq<Amf0>)
    requires
        depth < 64,
        fits(v, (64 - depth) as nat),
        !(v is Object),
        !(v is EcmaArray),
        !(v is TypedObject),
        !(v is StrictArray),
    ensures
        comes_back(pre, v, post, depth, refs),
{
    match v {
        Amf0::String(t) => {
            lemma_string(pre, t, post, depth, refs);
        },
        Amf0::XmlDocument(t) => {
            lemma_xml_document(pre, t, post, depth, refs);
        },
        Amf0::Date { millis, timezone } => {
            lemma_date(pre, millis, timezone, post, depth, refs);
        },
        _ => {
            lemma_fixed_size(pre, v, post, depth, refs);
        },
    }
}

proof fn lemma_regroup(pre: Seq<u8>, a: Seq<u8>, b: Seq<u8>, post: Seq<u8>)
    ensures
        pre + (a + b) + post == pre + a + (b + post),
        pre + (a + b) + post == (pre + a) + b + post,
{
    assert(pre + (a + b) + post =~= pre + a + (b + post));
    assert(pre + (a + b) + post =~= (pre + a) + b + post);
}

/// Whether named values `q` are read at `pos`, up to `end`.
spec fn reads_pairs(
    s: Seq<u8>,
    pos: int,
    depth: nat,
    refs: Seq<Amf0>,
    q: Seq<(Seq<char>, Amf0)>,
    end: int,
) -> bool {
    pairs_at(s, pos, depth, refs, None) matches Ok(d) && d.pairs == q && d.pos == end
}

/// Whether values `a` are read at `pos`, up to `end`.
spec fn reads_items(
    s: Seq<u8>,
    pos: int,
    depth: nat,
    refs: Seq<Amf0>,
    a: Seq<Amf0>,
    end: int,
) -> bool {
    items_at(s, pos, depth, refs, a.len(), None) matches Ok(d) && d.items == a && d.pos == end
}

/// A container reads as its named values do.
proof fn lemma_container_step(
    s: Seq<u8>,
    pos: int,
    inside: int,
    depth: nat,
    refs: Seq<Amf0>,
    kind: Container,
    q: Seq<(Seq<char>, Amf0)>,
    end: int,
)
    requires
        depth < 64,
        0 <= pos < s.len(),
        reads_pairs(s, inside, depth + 1, refs.push(container_of(kind, Seq::empty())), q, end),
        match kind {
            Container::Object => s[pos] == M_OBJECT && inside == pos + 1,
            Container::EcmaArray => s[pos] == M_ECMA_ARRAY && inside == pos + 5 && pos + 5
                <= s.len(),
            Container::TypedObject(name) => s[pos] == M_TYPED_OBJECT && short_text(s, pos + 1)
                == Ok::<(Seq<char>, int), Failure>((name, inside)),
        },
    ensures
        reads(s, pos, depth, refs, container_of(kind, q), end),
{
}

/// Whether the encoding of `v`, between `pre` and `post`, is read as `v`.
spec fn comes_back(pre: Seq<u8>, v: Amf0, post: Seq<u8>, depth: nat, refs: Seq<Amf0>) -> bool {
    reads(
        pre + encoded(v) + post,
        pre.len() as int,
        depth,
        refs,
        v,
        (pre.len() + encoded(v).len()) as int,
    )
}

/// Whether the encoding of `q`, between `pre` and `post`, is read as `q`.
spec fn pairs_come_back(
    pre: Seq<u8>,
    q: Seq<(Seq<char>, Amf0)>,
    post: Seq<u8>,
    depth: nat,
    refs: Seq<Amf0>,
) -> bool {
    reads_pairs(
        pre + pairs_bytes(q) + post,
        pre.len() as int,
        depth,
        refs,
        q,
        (pre.len() + pairs_bytes(q).len()) as int,
    )
}

proof fn lemma_object(
    pre: Seq<u8>,
    q: Seq<(Seq<char>, Amf0)>,
    post: Seq<u8>,
    depth: nat,
    refs: Seq<Amf0>,
)
    requires
        depth < 64,
        pairs_come_back(
            pre + seq![M_OBJECT],
            q,
            post,
            depth + 1,
            refs.push(container_of(Container::Object, Seq::empty())),
        ),
    ensures
        comes_back(pre, Amf0::Object(q), post, depth, refs),
{
    let mark = seq![M_OBJECT];
    let body = pairs_bytes(q);
    let s = pre + (mark + body) + post;
    let p = pre.len() as int;
    assert(encoded(Amf0::Object(q)) == mark + body);
    lemma_regroup(pre, mark, body, post);
    assert(s[p] == mark[0]);
    lemma_container_step(
        s,
        p,
        p + 1,
        depth,
        refs,
        Container::Object,
        q,
        (pre.len() + 1 + body.len()) as int,
    );
}

proof fn lemma_ecma_array(
    pre: Seq<u8>,
    q: Seq<(Seq<char>, Amf0)>,
    post: Seq<u8>,
    depth: nat,
    refs: Seq<Amf0>,
)
    requires
        depth < 64,
        pairs_come_back(
            pre + (seq![M_ECMA_ARRAY] + count_bytes(q.len())),
            q,
            post,
            depth + 1,
            refs.push(container_of(Container::EcmaArray, Seq::empty())),
        ),
    ensures
        comes_back(pre, Amf0::EcmaArray(q), post, depth, refs),
{
    let mark = seq![M_ECMA_ARRAY] + count_bytes(q.len());
    let body = pairs_bytes(q);
    let s = pre + (mark + body) + post;
    let p = pre.len() as int;
    assert(encoded(Amf0::EcmaArray(q)) == mark + body);
    lemma_regroup(pre, mark, body, post);
    assert(s[p] == mark[0]);
    lemma_container_step(
        s,
        p,
        p + 5,
        depth,
        refs,
        Container::EcmaArray,
        q,
        (pre.len() + 5 + body.len()) as int,
    );
}

proof fn lemma_typed_object(
    pre: Seq<u8>,
    class_name: Seq<char>,
    q: Seq<(Seq<char>, Amf0)>,
    post: Seq<u8>,
    depth: nat,
    refs: Seq<Amf0>,
)
    requires
        depth < 64,
        name_fits(class_name),
        pairs_come_back(
            pre + (seq![M_TYPED_OBJECT] + short_text_bytes(class_name)),
            q,
            post,
            depth + 1,
            refs.push(container_of(Container::TypedObject(class_name), Seq::empty())),
        ),
    ensures
        comes_back(pre, Amf0::TypedObject { class_name, pairs: q }, post, depth, refs),
{
    let mark = seq![M_TYPED_OBJECT];
    let name = short_text_bytes(class_name);
    let body = pairs_bytes(q);
    let s = pre + (mark + name + body) + post;
    let p = pre.len() as int;
    assert(encoded(Amf0::TypedObject { class_name, pairs: q }) == mark + name + body);
    lemma_regroup(pre, mark + name, body, post);
    lemma_regroup(pre, mark, name, body + post);
    lemma_short_text(pre + mark, class_name, body + post);
    assert(s[p] == mark[0]);
    lemma_container_step(
        s,
        p,
        p + 1 + name.len(),
        depth,
        refs,
        Container::TypedObject(class_name),
        q,
        (pre.len() + 1 + name.len() + body.len()) as int,
    );
}

proof fn lemma_strict_array(
    pre: Seq<u8>,
    a: Seq<Amf0>,
    post: Seq<u8>,
    depth: nat,
    refs: Seq<Amf0>,
)
    requires
        depth < 64,
        a.len() <= 0xFFFF_FFFF,
        reads_items(
            pre + (seq![M_STRICT_ARRAY] + count_bytes(a.len())) + items_bytes(a) + post,
            pre.len() + 5int,
            depth + 1,
            refs.push(Amf0::StrictArray(Seq::empty())),
            a,
            pre.len() + 5int + items_bytes(a).len(),
        ),
    ensures
        comes_back(pre, Amf0::StrictArray(a), post, depth, refs),
{
    let mark = seq![M_STRICT_ARRAY] + count_bytes(a.len());
    let body = items_bytes(a);
    let s = pre + (mark + body) + post;
    let p = pre.len() as int;
    assert(encoded(Amf0::StrictArray(a)) == mark + body);
    lemma_regroup(pre, mark, body, post);
    assert(s[p] == mark[0]);
    assert(s.subrange(p + 1, p + 5) =~= be32_bytes(a.len() as u32));
    lemma_be32(s, p + 1, a.len() as u32);
}

/// What decoding makes of an encoded value, wherever it stands.
proof fn lemma_value(pre: Seq<u8>, v: Amf0, post: Seq<u8>, depth: nat, refs: Seq<Amf0>)
    requires
        depth < 64,
        fits(v, (64 - depth) as nat),
    ensures
        comes_back(pre, v, post, depth, refs),
    decreases v,
{
    match v {
        Amf0::Object(q) => {
            let table = refs.push(container_of(Container::Object, Seq::empty()));
            lemma_pairs(pre + seq![M_OBJECT], q, post, depth + 1, table);
            lemma_object(pre, q, post, depth, refs);
        },
        Amf0::EcmaArray(q) => {
            let table = refs.push(container_of(Container::EcmaArray, Seq::empty()));
            let mark = seq![M_ECMA_ARRAY] + count_bytes(q.len());
            lemma_pairs(pre + mark, q, post, depth + 1, table);
            lemma_ecma_array(pre, q, post, depth, refs);
        },
        Amf0::TypedObject { class_name, pairs } => {
            let table = refs.push(
                container_of(Container::TypedObject(class_name), Seq::empty()),
            );
            let mark = seq![M_TYPED_OBJECT] + short_text_bytes(class_name);
            lemma_pairs(pre + mark, pairs, post, depth + 1, table);
            lemma_typed_object(pre, class_name, pairs, post, depth, refs);
        },
        Amf0::StrictArray(a) => {
            let table = refs.push(Amf0::StrictArray(Seq::empty()));
            let mark = seq![M_STRICT_ARRAY] + count_bytes(a.len());
            lemma_items(pre + mark, a, post, depth + 1, table);
            lemma_strict_array(pre, a, post, depth, refs);
        },
        _ => {
            lemma_scalar(pre, v, post, depth, refs);
        },
    }
}

proof fn lemma_no_pairs(pre: Seq<u8>, post: Seq<u8>, depth: nat, refs: Seq<Amf0>)
    ensures
        reads_pairs(
            pre + pairs_bytes(Seq::empty()) + post,
            pre.len() as int,
            depth,
            refs,
            Seq::empty(),
            pre.len() + 3int,
        ),
        pairs_bytes(Seq::empty()).len() == 3,
{
    let s = pre + pairs_bytes(Seq::empty()) + post;
    let none = Seq::<char>::empty();
    assert(encode_utf8(none) =~= Seq::empty());
    assert(short_text_bytes(none) =~= seq![0u8, 0]);
    assert(s =~= pre + short_text_bytes(none) + (seq![M_OBJECT_END] + post));
    lemma_short_text(pre, none, seq![M_OBJECT_END] + post);
    assert(s[pre.len() + 2int] == M_OBJECT_END);
}

/// One more pair before those that follow.
proof fn lemma_pairs_step(
    s: Seq<u8>,
    pos: int,
    depth: nat,
    refs: Seq<Amf0>,
    key: Seq<char>,
    at: int,
    v: Amf0,
    next: int,
    tail: Seq<(Seq<char>, Amf0)>,
    end: int,
)
    requires
        short_text(s, pos) == Ok::<(Seq<char>, int), Failure>((key, at)),
        key.len() > 0,
        reads(s, at, depth, refs, v, next),
        pos < next <= s.len(),
        reads_pairs(s, next, depth, decode_at(s, at, depth, refs, None)->Ok_0.refs, tail, end),
    ensures
        reads_pairs(s, pos, depth, refs, seq![(key, v)] + tail, end),
{
}

#[verifier::rlimit(30)]
proof fn lemma_pairs(
    pre: Seq<u8>,
    q: Seq<(Seq<char>, Amf0)>,
    post: Seq<u8>,
    depth: nat,
    refs: Seq<Amf0>,
)
    requires
        depth <= 64,
        pairs_fit(q, (64 - depth) as nat),
    ensures
        pairs_come_back(pre, q, post, depth, refs),
    decreases q,
{
    let s = pre + pairs_bytes(q) + post;
    let p = pre.len() as int;
    if q.len() == 0 {
        assert(q =~= Seq::empty());
        lemma_no_pairs(pre, post, depth, refs);
    } else {
        let tail = q.subrange(1, q.len() as int);
        let key = short_text_bytes(q[0].0);
        let value = encoded(q[0].1);
        let rest = pairs_bytes(tail);
        let room = (64 - depth) as nat;
        assert(fits(q[0].1, room));
        assert(room >= 1);
        lemma_regroup(pre, key + value, rest, post);
        lemma_regroup(pre, key, value, rest + post);
        lemma_short_text(pre, q[0].0, value + (rest + post));
        lemma_value(pre + key, q[0].1, rest + post, depth, refs);
        let d = decode_at(s, p + key.len(), depth, refs, None)->Ok_0;
        assert(pre + (key + value) =~= pre + key + value);
        lemma_pairs(pre + (key + value), tail, post, depth, d.refs);
        lemma_pairs_step(
            s,
            p,
            depth,
            refs,
            q[0].0,
            p + key.len(),
            q[0].1,
            p + key.len() + value.len(),
            tail,
            p + pairs_bytes(q).len(),
        );
        assert(seq![(q[0].0, q[0].1)] + tail =~= q);
    }
}

proof fn lemma_items(
    pre: Seq<u8>,
    a: Seq<Amf0>,
    post: Seq<u8>,
    depth: nat,
    refs: Seq<Amf0>,
)
    requires
        depth <= 64,
        items_fit(a, (64 - depth) as nat),
    ensures
        reads_items(
            pre + items_bytes(a) + post,
            pre.len() as int,
            depth,
            refs,
            a,
            (pre.len() + items_bytes(a).len()) as int,
        ),
    decreases a,
{
    let s = pre + items_bytes(a) + post;
    if a.len() == 0 {
        assert(a =~= Seq::empty());
    } else {
        let tail = a.subrange(1, a.len() as int);
        let value = encoded(a[0]);
        let rest = items_bytes(tail);
        let room = (64 - depth) as nat;
        assert(fits(a[0], room));
        assert(room >= 1);
        lemma_regroup(pre, value, rest, post);
        lemma_value(pre, a[0], rest + post, depth, refs);
        let d = decode_at(s, pre.len() as int, depth, refs, None)->Ok_0;
        lemma_items(pre + value, tail, post, depth, d.refs);
        assert(seq![a[0]] + tail =~= a);
    }
}

/// A value reads back as it was written, wherever it stands in a buffer, up to
/// its last byte and no further. Values are left out whose texts or counts are
/// too long for their fields, that have an empty key, or that nest deeper than
/// 64 levels.
pub proof fn law_value_round_trip(pre: Seq<u8>, v: Amf0, post: Seq<u8>)
    requires
        fits(v, 64),
    ensures
        decode_at(pre + encoded(v) + post, pre.len() as int, 0, Seq::empty(), None) matches Ok(d)
            && d.value == v && d.pos == pre.len() + encoded(v).len(),
{
    lemma_value(pre, v, post, 0, Seq::empty());
}

proof fn lemma_message(pre: Seq<u8>, a: Seq<Amf0>, refs: Seq<Amf0>)
    requires
        items_fit(a, 64),
    ensures
        values_at(pre + items_bytes(a), pre.len() as int, refs, None) matches Ok(d) && d.items == a,
    decreases a.len(),
{
    let s = pre + items_bytes(a);
    if a.len() == 0 {
        assert(a =~= Seq::empty());
    } else {
        let tail = a.subrange(1, a.len() as int);
        let value = encoded(a[0]);
        let rest = items_bytes(tail);
        assert(s =~= pre + value + rest);
        lemma_value(pre, a[0], rest, 0, refs);
        let d = decode_at(s, pre.len() as int, 0, refs, None)->Ok_0;
        lemma_message(pre + value, tail, d.refs);
        assert(value.len() > 0);
        assert(seq![a[0]] + tail =~= a);
    }
}

/// A message of several values reads back as it was written.
pub proof fn law_message_round_trip(a: Seq<Amf0>)
    requires
        items_fit(a, 64),
    ensures
        values_of(items_bytes(a)) == Ok::<Seq<Amf0>, Fault>(a),
{
    assert(Seq::<u8>::empty() + items_bytes(a) =~= items_bytes(a));
    lemma_message(Seq::empty(), a, Seq::empty());
}

/// The payload of a command reads back as name, transaction id, command object
/// and arguments.
pub proof fn law_command_round_trip(
    name: Seq<char>,
    transaction_id: u64,
    object: Amf0,
    args: Seq<Amf0>,
)
    requires
        text_fits(name),
        fits(object, 64),
        items_fit(args, 64),
    ensures
        values_of(command_bytes(name, transaction_id, object, args)) == Ok::<Seq<Amf0>, Fault>(
            seq![Amf0::String(name), Amf0::Number(transaction_id), object] + args,
        ),
{
    let all = seq![Amf0::String(name), Amf0::Number(transaction_id), object] + args;
    let one = all.subrange(1, all.len() as int);
    let two = one.subrange(1, one.len() as int);
    assert(two.subrange(1, two.len() as int) =~= args);
    assert(fits(Amf0::String(name), 64));
    assert(fits(Amf0::Number(transaction_id), 64));
    assert(items_fit(two, 64));
    assert(items_fit(one, 64));
    law_message_round_trip(all);
}

/// A reference gives the object that it names, whole, and takes three bytes.
pub proof fn law_reference_gives_the_object(
    s: Seq<u8>,
    pos: int,
    depth: nat,
    refs: Seq<Amf0>,
    texts: TextRule,
)
    requires
        depth < 64,
        0 <= pos,
        pos + 3 <= s.len(),
        s[pos] == M_REFERENCE,
        be16(s, pos + 1) < refs.len(),
    ensures
        decode_at(s, pos, depth, refs, texts) == Ok::<Decoded, Failure>(
            Decoded { value: refs[be16(s, pos + 1) as int], pos: pos + 3, refs },
        ),
{
    reveal(scalar_at);
}

/// An AMF3 value behind the marker that switches reads as its AMF0 form, whatever
/// could be referred to before, and leaves that as it is. Dictionaries with a double
/// for a key are left out, as are values that do not come back in AMF3.
pub proof fn law_switched_value_reads_as_amf0(
    pre: Seq<u8>,
    v: Amf3,
    post: Seq<u8>,
    depth: nat,
    refs: Seq<Amf0>,
)
    requires
        depth < 64,
        amf3::laws::fits(v, 64, Seq::empty()),
        plain_keys(v),
        (pre + seq![M_AVMPLUS] + amf3::encode::encoded(v) + post).len() <= usize::MAX,
    ensures
        decode_at(
            pre + seq![M_AVMPLUS] + amf3::encode::encoded(v) + post,
            pre.len() as int,
            depth,
            refs,
            None,
        ) == Ok::<Decoded, Failure>(
            Decoded {
                value: bridged(v, no_text()),
                pos: (pre.len() + 1 + amf3::encode::encoded(v).len()) as int,
                refs,
            },
        ),
{
    reveal(scalar_at);
    let front = pre + seq![M_AVMPLUS];
    let s = front + amf3::encode::encoded(v) + post;
    assert(s[pre.len() as int] == M_AVMPLUS);
    amf3::laws::law_value_round_trip(front, v, post, Tables::new(), Seq::empty());
}

/// Reading a value takes at least one byte, never runs past the end, and keeps
/// every object that could be referred to before.
pub proof fn law_decoding_advances(
    s: Seq<u8>,
    pos: int,
    depth: nat,
    refs: Seq<Amf0>,
    texts: TextRule,
)
    requires
        0 <= pos,
        decode_at(s, pos, depth, refs, texts) is Ok,
    ensures
        pos < decode_at(s, pos, depth, refs, texts)->Ok_0.pos <= s.len(),
        decode_at(s, pos, depth, refs, texts)->Ok_0.refs.len() >= refs.len(),
        forall|i: int|
            0 <= i < refs.len() ==> #[trigger] decode_at(s, pos, depth, refs, texts)->Ok_0.refs[i] == refs[i],
    decreases 64 - depth, 0int, 0int,
{
    reveal(scalar_at);
    let m = s[pos];
    let p = pos + 1;
    if m == M_OBJECT {
        lemma_pairs_advance(
            s,
            p,
            depth + 1,
            refs.push(container_of(Container::Object, Seq::empty())),
            texts,
        );
    } else if m == M_ECMA_ARRAY {
        lemma_pairs_advance(
            s,
            p + 4,
            depth + 1,
            refs.push(container_of(Container::EcmaArray, Seq::empty())),
            texts,
        );
    } else if m == M_TYPED_OBJECT {
        let (name, q) = short_text(s, p)->Ok_0;
        lemma_pairs_advance(
            s,
            q,
            depth + 1,
            refs.push(container_of(Container::TypedObject(name), Seq::empty())),
            texts,
        );
    } else if m == M_STRICT_ARRAY {
        lemma_items_advance(
            s,
            p + 4,
            depth + 1,
            refs.push(Amf0::StrictArray(Seq::empty())),
            be32(s, p) as nat,
            texts,
        );
    } else if m == M_AVMPLUS {
        law_reading_keeps_tables(s, p, 0, Tables::new(), Seq::empty());
    }
}

pub proof fn lemma_pairs_advance(
    s: Seq<u8>,
    pos: int,
    depth: nat,
    refs: Seq<Amf0>,
    texts: TextRule,
)
    requires
        0 <= pos,
        depth <= 64,
        pairs_at(s, pos, depth, refs, texts) is Ok,
    ensures
        pos < pairs_at(s, pos, depth, refs, texts)->Ok_0.pos <= s.len(),
        pairs_at(s, pos, depth, refs, texts)->Ok_0.refs.len() >= refs.len(),
        forall|i: int|
            0 <= i < refs.len() ==> #[trigger] pairs_at(s, pos, depth, refs, texts)->Ok_0.refs[i] == refs[i],
    decreases 64 - depth, 1int, s.len() - pos,
{
    let (key, p) = short_text(s, pos)->Ok_0;
    if key.len() > 0 {
        law_decoding_advances(s, p, depth, refs, texts);
        let d = decode_at(s, p, depth, refs, texts)->Ok_0;
        lemma_pairs_advance(s, d.pos, depth, d.refs, texts);
    }
}

pub proof fn lemma_items_advance(
    s: Seq<u8>,
    pos: int,
    depth: nat,
    refs: Seq<Amf0>,
    n: nat,
    texts: TextRule,
)
    requires
        0 <= pos <= s.len(),
        depth <= 64,
        items_at(s, pos, depth, refs, n, texts) is Ok,
    ensures
        pos <= items_at(s, pos, depth, refs, n, texts)->Ok_0.pos <= s.len(),
        items_at(s, pos, depth, refs, n, texts)->Ok_0.refs.len() >= refs.len(),
        forall|i: int|
            0 <= i < refs.len() ==> #[trigger] items_at(s, pos, depth, refs, n, texts)->Ok_0.refs[i] == refs[i],
    decreases 64 - depth, 1int, n,
{
    if n > 0 {
        law_decoding_advances(s, pos, depth, refs, texts);
        let d = decode_at(s, pos, depth, refs, texts)->Ok_0;
        lemma_items_advance(s, d.pos, depth, d.refs, (n - 1) as nat, texts);
    }
}

/// Objects and arrays take the next place among what references can name, as a whole and
/// before anything inside them does; nothing else takes one.
pub proof fn law_containers_take_the_next_place(
    s: Seq<u8>,
    pos: int,
    depth: nat,
    refs: Seq<Amf0>,
    texts: TextRule,
)
    requires
        0 <= pos,
        decode_at(s, pos, depth, refs, texts) is Ok,
    ensures
        ({
            let d = decode_at(s, pos, depth, refs, texts)->Ok_0;
            let m = s[pos];
            if m == 3 || m == 8 || m == 0x0A || m == 0x10 {
                refs.len() < d.refs.len() && d.refs[refs.len() as int] == d.value
            } else {
                d.refs == refs
            }
        }),
{
    reveal(scalar_at);
    let m = s[pos];
    let p = pos + 1;
    if m == M_OBJECT {
        lemma_pairs_advance(
            s,
            p,
            depth + 1,
            refs.push(container_of(Container::Object, Seq::empty())),
            texts,
        );
    } else if m == M_ECMA_ARRAY {
        lemma_pairs_advance(
            s,
            p + 4,
            depth + 1,
            refs.push(container_of(Container::EcmaArray, Seq::empty())),
            texts,
        );
    } else if m == M_TYPED_OBJECT {
        let (name, q) = short_text(s, p)->Ok_0;
        lemma_pairs_advance(
            s,
            q,
            depth + 1,
            refs.push(container_of(Container::TypedObject(name), Seq::empty())),
            texts,
        );
    } else if m == M_STRICT_ARRAY {
        lemma_items_advance(
            s,
            p + 4,
            depth + 1,
            refs.push(Amf0::StrictArray(Seq::empty())),
            be32(s, p) as nat,
            texts,
        );
    }
}

/// The count that announces an ECMA array says nothing: its named values go on up to the
/// end marker, whatever the count is.
pub proof fn law_any_count_announces_an_array(
    pre: Seq<u8>,
    a: u8,
    b: u8,
    c: u8,
    d: u8,
    q: Seq<(Seq<char>, Amf0)>,
    post: Seq<u8>,
)
    requires
        pairs_fit(q, 63),
    ensures
        decode_at(
            pre + (seq![8u8, a, b, c, d] + pairs_bytes(q)) + post,
            pre.len() as int,
            0,
            Seq::empty(),
            None,
        ) matches Ok(x) && x.value == Amf0::EcmaArray(q) && x.pos == pre.len() + 5 + pairs_bytes(
            q,
        ).len(),
{
    let head = seq![8u8, a, b, c, d];
    let none = Seq::<Amf0>::empty();
    let refs = none.push(container_of(Container::EcmaArray, Seq::empty()));
    let s = pre + (head + pairs_bytes(q)) + post;
    lemma_regroup(pre, head, pairs_bytes(q), post);
    lemma_pairs(pre + head, q, post, 1, refs);
    assert(s[pre.len() as int] == 8);
    lemma_container_step(
        s,
        pre.len() as int,
        pre.len() as int + 5,
        0,
        none,
        Container::EcmaArray,
        q,
        pre.len() + 5int + pairs_bytes(q).len(),
    );
}

/// A string may have a length of four bytes though two would do.
pub proof fn law_strings_may_be_long(
    pre: Seq<u8>,
    t: Seq<char>,
    post: Seq<u8>,
    depth: nat,
    refs: Seq<Amf0>,
    texts: TextRule,
)
    requires
        depth < 64,
        text_fits(t),
    ensures
        decode_at(
            pre + (seq![0x0Cu8] + long_text_bytes(t)) + post,
            pre.len() as int,
            depth,
            refs,
            texts,
        ) == Ok::<Decoded, Failure>(
            Decoded {
                value: Amf0::String(t),
                pos: (pre.len() + 1 + long_text_bytes(t).len()) as int,
                refs,
            },
        ),
{
    reveal(scalar_at);
    let s = pre + (seq![0x0Cu8] + long_text_bytes(t)) + post;
    assert(s =~= pre.push(M_LONG_STRING) + long_text_bytes(t) + post);
    assert(s[pre.len() as int] == 0x0C);
    lemma_long_text(pre.push(M_LONG_STRING), t, post);
}

/// What the text of a double is matters only to a dictionary with a double for a key:
/// a message that is not refused for want of it reads the same, whatever it is.
pub proof fn law_texts_matter_only_to_double_keys(s: Seq<u8>, texts: TextRule)
    requires
        values_of(s) != Err::<Seq<Amf0>, Fault>(no_text_fault()),
    ensures
        values_with(s, texts) == values_of(s),
{
    lemma_values_need_no_text(s, 0, Seq::empty(), texts);
}

proof fn lemma_values_need_no_text(s: Seq<u8>, pos: int, refs: Seq<Amf0>, texts: TextRule)
    requires
        needs_no_text(values_at(s, pos, refs, None)),
    ensures
        values_at(s, pos, refs, texts) == values_at(s, pos, refs, None),
    decreases s.len() - pos,
{
    if pos < s.len() {
        lemma_value_needs_no_text(s, pos, 0, refs, texts);
        if let Ok(d) = decode_at(s, pos, 0, refs, None) {
            if pos < d.pos <= s.len() {
                lemma_values_need_no_text(s, d.pos, d.refs, texts);
            }
        }
    }
}

proof fn lemma_value_needs_no_text(
    s: Seq<u8>,
    pos: int,
    depth: nat,
    refs: Seq<Amf0>,
    texts: TextRule,
)
    requires
        needs_no_text(decode_at(s, pos, depth, refs, None)),
    ensures
        decode_at(s, pos, depth, refs, texts) == decode_at(s, pos, depth, refs, None),
    decreases 64 - depth, 0int, 0int,
{
    reveal(scalar_at);
    if depth < 64 && pos < s.len() {
        let m = s[pos];
        let p = pos + 1;
        if m == M_OBJECT {
            lemma_container_needs_no_text(s, p, depth + 1, refs, Container::Object, texts);
        } else if m == M_ECMA_ARRAY {
            if p + 4 <= s.len() {
                lemma_container_needs_no_text(
                    s,
                    p + 4,
                    depth + 1,
                    refs,
                    Container::EcmaArray,
                    texts,
                );
            }
        } else if m == M_TYPED_OBJECT {
            if let Ok((name, q)) = short_text(s, p) {
                lemma_container_needs_no_text(
                    s,
                    q,
                    depth + 1,
                    refs,
                    Container::TypedObject(name),
                    texts,
                );
            }
        } else if m == M_STRICT_ARRAY {
            if p + 4 <= s.len() {
                lemma_items_need_no_text(
                    s,
                    p + 4,
                    depth + 1,
                    refs.push(Amf0::StrictArray(Seq::empty())),
                    be32(s, p) as nat,
                    texts,
                );
            }
        } else if m == M_AVMPLUS {
            lemma_inline_needs_no_text(s, p, refs, texts);
        }
    }
}

proof fn lemma_inline_needs_no_text(s: Seq<u8>, p: int, refs: Seq<Amf0>, texts: TextRule)
    requires
        needs_no_text(inline_at(s, p, refs, None)),
    ensures
        inline_at(s, p, refs, texts) == inline_at(s, p, refs, None),
{
    if let Some(text) = texts {
        if let Ok(v) = value_at(s, p, 0, Tables::new(), Seq::empty()).out {
            law_plain_keys_need_no_text(v, text, no_text());
        }
    }
}

proof fn lemma_container_needs_no_text(
    s: Seq<u8>,
    pos: int,
    depth: nat,
    refs: Seq<Amf0>,
    kind: Container,
    texts: TextRule,
)
    requires
        depth <= 64,
        needs_no_text(container_at(s, pos, depth, refs, kind, None)),
    ensures
        container_at(s, pos, depth, refs, kind, texts) == container_at(
            s,
            pos,
            depth,
            refs,
            kind,
            None,
        ),
    decreases 64 - depth, 2int, 0int,
{
    lemma_pairs_need_no_text(
        s,
        pos,
        depth,
        refs.push(container_of(kind, Seq::empty())),
        texts,
    );
}

proof fn lemma_pairs_need_no_text(
    s: Seq<u8>,
    pos: int,
    depth: nat,
    refs: Seq<Amf0>,
    texts: TextRule,
)
    requires
        depth <= 64,
        needs_no_text(pairs_at(s, pos, depth, refs, None)),
    ensures
        pairs_at(s, pos, depth, refs, texts) == pairs_at(s, pos, depth, refs, None),
    decreases 64 - depth, 1int, s.len() - pos,
{
    if let Ok((key, p)) = short_text(s, pos) {
        if key.len() > 0 {
            lemma_value_needs_no_text(s, p, depth, refs, texts);
            if let Ok(d) = decode_at(s, p, depth, refs, None) {
                if pos < d.pos <= s.len() {
                    lemma_pairs_need_no_text(s, d.pos, depth, d.refs, texts);
                }
            }
        }
    }
}

proof fn lemma_items_need_no_text(
    s: Seq<u8>,
    pos: int,
    depth: nat,
    refs: Seq<Amf0>,
    n: nat,
    texts: TextRule,
)
    requires
        depth <= 64,
        needs_no_text(items_at(s, pos, depth, refs, n, None)),
    ensures
        items_at(s, pos, depth, refs, n, texts) == items_at(s, pos, depth, refs, n, None),
    decreases 64 - depth, 1int, n,
{
    if n > 0 {
        lemma_value_needs_no_text(s, pos, depth, refs, texts);
        if let Ok(d) = decode_at(s, pos, depth, refs, None) {
            lemma_items_need_no_text(s, d.pos, depth, d.refs, (n - 1) as nat, texts);
        }
    }
}

} // verus!
