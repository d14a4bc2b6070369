//! What was read can be written in full: references are an abbreviation, and an AMF3
//! value has an AMF0 form.

use vstd::prelude::*;
#[allow(unused_imports)]
use vstd::utf8::encode_utf8;
#[allow(unused_imports)]
use crate::amf::{
    container_at, container_of, decode_at, items_at, items_bytes, no_text, pairs_at,
    scalar_at, short_text, text_body, values_at, values_of, Amf0, Container, M_AVMPLUS,
    M_ECMA_ARRAY, M_LONG_STRING, M_OBJECT, M_STRICT_ARRAY, M_STRING, M_TYPED_OBJECT,
    M_XML_DOCUMENT,
};
#[allow(unused_imports)]
use crate::amf3;
#[allow(unused_imports)]
use crate::amf3::bridge::{
    bridged, bridged_entries, bridged_members, bridged_numbered, bridged_values,
};
#[allow(unused_imports)]
use crate::amf3::decode::{value_at, Readers, Tables};
#[allow(unused_imports)]
use crate::amf3::inlined::lemma_read_alone_fits;
#[allow(unused_imports)]
use crate::amf3::value::Amf3;
#[allow(unused_imports)]
use crate::amf_laws::{
    fits, items_fit, law_decoding_advances, law_message_round_trip, lemma_items_advance,
    lemma_pairs_advance, name_fits, pairs_fit, text_fits,
};
#[allow(unused_imports)]
use crate::wire::{be16, be32};

verus! {

/// The larger of two numbers.
pub open spec fn larger(a: nat, b: nat) -> nat {
    if a < b {
        b
    } else {
        a
    }
}

/// How many levels deep a value nests; a value without parts has one.
pub open spec fn levels(v: Amf0) -> nat
    decreases v,
{
    match v {
        Amf0::Object(p) => 1 + pairs_levels(p),
        Amf0::EcmaArray(p) => 1 + pairs_levels(p),
        Amf0::TypedObject { class_name, pairs } => 1 + pairs_levels(pairs),
        Amf0::StrictArray(a) => 1 + items_levels(a),
        _ => 1,
    }
}

/// How many levels deep named values nest.
pub open spec fn pairs_levels(p: Seq<(Seq<char>, Amf0)>) -> nat
    decreases p,
{
    if p.len() == 0 {
        0
    } else {
        larger(levels(p[0].1), pairs_levels(p.subrange(1, p.len() as int)))
    }
}

/// How many levels deep a run of values nests.
pub open spec fn items_levels(a: Seq<Amf0>) -> nat
    decreases a,
{
    if a.len() == 0 {
        0
    } else {
        larger(levels(a[0]), items_levels(a.subrange(1, a.len() as int)))
    }
}

/// Whether every name in a value can be written: it is not empty, and its length fits
/// its field.
pub open spec fn named(v: Amf0) -> bool
    decreases v,
{
    match v {
        Amf0::Object(p) => pairs_named(p),
        Amf0::EcmaArray(p) => pairs_named(p),
        Amf0::TypedObject { class_name, pairs } => pairs_named(pairs),
        Amf0::StrictArray(a) => items_named(a),
        _ => true,
    }
}

/// Whether every name of and in named values can be written.
pub open spec fn pairs_named(p: Seq<(Seq<char>, Amf0)>) -> bool
    decreases p,
{
    forall|i: int|
        0 <= i < p.len() ==> name_fits((#[trigger] p[i]).0) && p[i].0.len() > 0 && named(p[i].1)
}

/// Whether every name in a run of values can be written.
pub open spec fn items_named(a: Seq<Amf0>) -> bool
    decreases a,
{
    forall|i: int| 0 <= i < a.len() ==> named(#[trigger] a[i])
}

/// Whether texts, class names and counts fit their fields.
spec fn sized(v: Amf0) -> bool
    decreases v,
{
    match v {
        Amf0::String(t) => text_fits(t),
        Amf0::XmlDocument(t) => text_fits(t),
        Amf0::Object(p) => pairs_sized(p),
        Amf0::EcmaArray(p) => pairs_sized(p),
        Amf0::TypedObject { class_name, pairs } => name_fits(class_name) && pairs_sized(pairs),
        Amf0::StrictArray(a) => a.len() <= 0xFFFF_FFFF && items_sized(a),
        _ => true,
    }
}

spec fn pairs_sized(p: Seq<(Seq<char>, Amf0)>) -> bool
    decreases p,
{
    forall|i: int| 0 <= i < p.len() ==> sized((#[trigger] p[i]).1)
}

spec fn items_sized(a: Seq<Amf0>) -> bool
    decreases a,
{
    forall|i: int| 0 <= i < a.len() ==> sized(#[trigger] a[i])
}

proof fn lemma_fits(v: Amf0, room: nat)
    requires
        sized(v),
        named(v),
        levels(v) <= room,
    ensures
        fits(v, room),
    decreases v, 0int,
{
    match v {
        Amf0::Object(p) => lemma_pairs_fit(p, (room - 1) as nat),
        Amf0::EcmaArray(p) => lemma_pairs_fit(p, (room - 1) as nat),
        Amf0::TypedObject { class_name, pairs } => lemma_pairs_fit(pairs, (room - 1) as nat),
        Amf0::StrictArray(a) => lemma_items_fit(a, (room - 1) as nat),
        _ => {},
    }
}

proof fn lemma_pairs_fit(p: Seq<(Seq<char>, Amf0)>, room: nat)
    requires
        pairs_sized(p),
        pairs_named(p),
        pairs_levels(p) <= room,
    ensures
        pairs_fit(p, room),
    decreases p, 1int,
{
    if p.len() > 0 {
        let rest = p.subrange(1, p.len() as int);
        assert forall|i: int| 0 <= i < rest.len() implies sized((#[trigger] rest[i]).1) && name_fits(
            rest[i].0,
        ) && rest[i].0.len() > 0 && named(rest[i].1) by {
            assert(rest[i] == p[i + 1]);
        }
        lemma_fits(p[0].1, room);
        lemma_pairs_fit(rest, room);
    }
}

proof fn lemma_items_fit(a: Seq<Amf0>, room: nat)
    requires
        items_sized(a),
        items_named(a),
        items_levels(a) <= room,
    ensures
        items_fit(a, room),
    decreases a, 1int,
{
    if a.len() > 0 {
        let rest = a.subrange(1, a.len() as int);
        assert forall|i: int| 0 <= i < rest.len() implies sized(#[trigger] rest[i]) && named(
            rest[i],
        ) by {
            assert(rest[i] == a[i + 1]);
        }
        lemma_fits(a[0], room);
        lemma_items_fit(rest, room);
    }
}

// ---------------------------------------------------------------------------
// The AMF0 form of an AMF3 value
// ---------------------------------------------------------------------------

proof fn lemma_bridged_sized(v: Amf3, room: nat, h: Readers, text: spec_fn(u64) -> Seq<char>)
    requires
        amf3::laws::fits(v, room, h),
    ensures
        sized(bridged(v, text)),
    decreases v, 0int,
{
    let r = (room - 1) as nat;
    match v {
        Amf3::Array { dense, assoc } => {
            lemma_numbered_sized(dense, 0, r, h, text);
            lemma_members_sized(assoc, r, h, text);
            lemma_joined_sized(bridged_numbered(dense, 0, text), bridged_members(assoc, text));
        },
        Amf3::Object { class_name, dynamic, sealed, dynamic_members, externalizable_body } => {
            if externalizable_body is None {
                lemma_sealed_sized(sealed, r, h, text);
                if dynamic {
                    lemma_members_sized(dynamic_members, r, h, text);
                }
            }
            let a = bridged_members(sealed, text);
            let b = bridged_members(dynamic_members, text);
            assert(a.len() > 0 || pairs_sized(a));
            assert(b.len() > 0 || pairs_sized(b));
            lemma_joined_sized(a, b);
        },
        Amf3::VectorObject { fixed, object_type_name, values } => {
            lemma_values_sized(values, r, h, text);
        },
        Amf3::Dictionary { weak_keys, entries } => {
            lemma_entries_sized(entries, r, h, text);
        },
        _ => {
            if let Amf0::StrictArray(a) = bridged(v, text) {
                assert forall|i: int| 0 <= i < a.len() implies sized(#[trigger] a[i]) by {
                    assert(a[i] is Number);
                }
            }
        },
    }
}

proof fn lemma_joined_sized(a: Seq<(Seq<char>, Amf0)>, b: Seq<(Seq<char>, Amf0)>)
    requires
        pairs_sized(a),
        pairs_sized(b),
    ensures
        pairs_sized(a + b),
{
    assert forall|i: int| 0 <= i < (a + b).len() implies sized((#[trigger] (a + b)[i]).1) by {
        if i >= a.len() {
            assert((a + b)[i] == b[i - a.len()]);
        }
    }
}

proof fn lemma_values_sized(
    a: Seq<Amf3>,
    room: nat,
    h: Readers,
    text: spec_fn(u64) -> Seq<char>,
)
    requires
        amf3::laws::values_fit(a, room, h),
    ensures
        items_sized(bridged_values(a, text)),
        bridged_values(a, text).len() == a.len(),
    decreases a, 1int,
{
    if a.len() > 0 {
        lemma_bridged_sized(a[0], room, h, text);
        lemma_values_sized(a.subrange(1, a.len() as int), room, h, text);
    }
}

proof fn lemma_numbered_sized(
    a: Seq<Amf3>,
    i: nat,
    room: nat,
    h: Readers,
    text: spec_fn(u64) -> Seq<char>,
)
    requires
        amf3::laws::values_fit(a, room, h),
    ensures
        pairs_sized(bridged_numbered(a, i, text)),
    decreases a, 1int,
{
    if a.len() > 0 {
        lemma_bridged_sized(a[0], room, h, text);
        lemma_numbered_sized(a.subrange(1, a.len() as int), i + 1, room, h, text);
    }
}

proof fn lemma_members_sized(
    p: Seq<(Seq<char>, Amf3)>,
    room: nat,
    h: Readers,
    text: spec_fn(u64) -> Seq<char>,
)
    requires
        amf3::laws::members_fit(p, room, h),
    ensures
        pairs_sized(bridged_members(p, text)),
    decreases p, 1int,
{
    if p.len() > 0 {
        lemma_bridged_sized(p[0].1, room, h, text);
        lemma_members_sized(p.subrange(1, p.len() as int), room, h, text);
    }
}

proof fn lemma_sealed_sized(
    p: Seq<(Seq<char>, Amf3)>,
    room: nat,
    h: Readers,
    text: spec_fn(u64) -> Seq<char>,
)
    requires
        amf3::laws::sealed_fit(p, room, h),
    ensures
        pairs_sized(bridged_members(p, text)),
    decreases p, 1int,
{
    if p.len() > 0 {
        lemma_bridged_sized(p[0].1, room, h, text);
        lemma_sealed_sized(p.subrange(1, p.len() as int), room, h, text);
    }
}

proof fn lemma_entries_sized(
    p: Seq<(Amf3, Amf3)>,
    room: nat,
    h: Readers,
    text: spec_fn(u64) -> Seq<char>,
)
    requires
        amf3::laws::entries_fit(p, room, h),
    ensures
        pairs_sized(bridged_entries(p, text)),
    decreases p, 1int,
{
    if p.len() > 0 {
        lemma_bridged_sized(p[0].1, room, h, text);
        lemma_entries_sized(p.subrange(1, p.len() as int), room, h, text);
    }
}

// ---------------------------------------------------------------------------
// Whatever is read
// ---------------------------------------------------------------------------

/// Whether a message holds no byte that could switch to AMF3.
pub open spec fn all_amf0(s: Seq<u8>) -> bool {
    forall|i: int| 0 <= i < s.len() ==> #[trigger] s[i] != M_AVMPLUS
}

/// Whether what was read out of `s` fits its fields, names included if all is AMF0.
spec fn sound(v: Amf0, s: Seq<u8>) -> bool {
    sized(v) && (all_amf0(s) ==> named(v))
}

spec fn pairs_sound(p: Seq<(Seq<char>, Amf0)>, s: Seq<u8>) -> bool {
    pairs_sized(p) && (all_amf0(s) ==> pairs_named(p))
}

spec fn items_sound(a: Seq<Amf0>, s: Seq<u8>) -> bool {
    forall|i: int| 0 <= i < a.len() ==> sound(#[trigger] a[i], s)
}

proof fn lemma_read_text(s: Seq<u8>, pos: int, len: int)
    requires
        0 <= pos,
        0 <= len,
        text_body(s, pos, len) is Ok,
    ensures
        encode_utf8(text_body(s, pos, len)->Ok_0.0).len() == len,
{
    vstd::utf8::decode_utf8_encode_utf8(s.subrange(pos, pos + len));
}

proof fn lemma_read_scalar_sound(s: Seq<u8>, p: int, m: u8, refs: Seq<Amf0>)
    requires
        0 < p,
        s[p - 1] == m,
        p <= s.len(),
        items_sound(refs, s),
        scalar_at(s, p, m, refs, None) is Ok,
    ensures
        sound(scalar_at(s, p, m, refs, None)->Ok_0.value, s),
        scalar_at(s, p, m, refs, None)->Ok_0.refs == refs,
{
    reveal(scalar_at);
    if m == M_STRING {
        lemma_read_text(s, p + 2, be16(s, p) as int);
    } else if m == M_LONG_STRING || m == M_XML_DOCUMENT {
        lemma_read_text(s, p + 4, be32(s, p) as int);
    } else if m == M_AVMPLUS {
        lemma_read_alone_fits(s, p);
        let v = value_at(s, p, 0, Tables::new(), Seq::empty()).out->Ok_0;
        lemma_bridged_sized(v, amf3::inlined::levels(v), Seq::empty(), no_text());
    }
}

proof fn lemma_read_container_sound(
    s: Seq<u8>,
    pos: int,
    depth: nat,
    refs: Seq<Amf0>,
    kind: Container,
)
    requires
        0 <= pos,
        depth <= 64,
        items_sound(refs, s),
        kind matches Container::TypedObject(name) ==> name_fits(name),
        container_at(s, pos, depth, refs, kind, None) is Ok,
    ensures
        sound(container_at(s, pos, depth, refs, kind, None)->Ok_0.value, s),
        items_sound(container_at(s, pos, depth, refs, kind, None)->Ok_0.refs, s),
    decreases 64 - depth, 2int, 0int,
{
    let started = container_of(kind, Seq::empty());
    assert(sound(started, s));
    lemma_pairs_advance(s, pos, depth, refs.push(started), None);
    lemma_read_pairs_sound(s, pos, depth, refs.push(started));
}

proof fn lemma_read_sound(s: Seq<u8>, pos: int, depth: nat, refs: Seq<Amf0>)
    requires
        0 <= pos,
        items_sound(refs, s),
        decode_at(s, pos, depth, refs, None) is Ok,
    ensures
        sound(decode_at(s, pos, depth, refs, None)->Ok_0.value, s),
        items_sound(decode_at(s, pos, depth, refs, None)->Ok_0.refs, s),
    decreases 64 - depth, 0int, 0int,
{
    let m = s[pos];
    let p = pos + 1;
    if m == M_OBJECT {
        lemma_read_container_sound(s, p, depth + 1, refs, Container::Object);
    } else if m == M_ECMA_ARRAY {
        lemma_read_container_sound(s, p + 4, depth + 1, refs, Container::EcmaArray);
    } else if m == M_TYPED_OBJECT {
        let (name, q) = short_text(s, p)->Ok_0;
        lemma_read_text(s, p + 2, be16(s, p) as int);
        lemma_read_container_sound(s, q, depth + 1, refs, Container::TypedObject(name));
    } else if m == M_STRICT_ARRAY {
        let started = refs.push(Amf0::StrictArray(Seq::empty()));
        assert(sound(Amf0::StrictArray(Seq::empty()), s));
        lemma_items_advance(s, p + 4, depth + 1, started, be32(s, p) as nat, None);
        lemma_read_items_sound(s, p + 4, depth + 1, started, be32(s, p) as nat);
    } else {
        lemma_read_scalar_sound(s, p, m, refs);
    }
}

proof fn lemma_read_pairs_sound(s: Seq<u8>, pos: int, depth: nat, refs: Seq<Amf0>)
    requires
        0 <= pos,
        depth <= 64,
        items_sound(refs, s),
        pairs_at(s, pos, depth, refs, None) is Ok,
    ensures
        pairs_sound(pairs_at(s, pos, depth, refs, None)->Ok_0.pairs, s),
        items_sound(pairs_at(s, pos, depth, refs, None)->Ok_0.refs, s),
    decreases 64 - depth, 1int, s.len() - pos,
{
    let (key, p) = short_text(s, pos)->Ok_0;
    lemma_read_text(s, pos + 2, be16(s, pos) as int);
    if key.len() > 0 {
        law_decoding_advances(s, p, depth, refs, None);
        lemma_read_sound(s, p, depth, refs);
        let d = decode_at(s, p, depth, refs, None)->Ok_0;
        lemma_read_pairs_sound(s, d.pos, depth, d.refs);
    }
}

proof fn lemma_read_items_sound(s: Seq<u8>, pos: int, depth: nat, refs: Seq<Amf0>, n: nat)
    requires
        0 <= pos <= s.len(),
        depth <= 64,
        items_sound(refs, s),
        items_at(s, pos, depth, refs, n, None) is Ok,
    ensures
        items_sound(items_at(s, pos, depth, refs, n, None)->Ok_0.items, s),
        items_at(s, pos, depth, refs, n, None)->Ok_0.items.len() == n,
        items_sound(items_at(s, pos, depth, refs, n, None)->Ok_0.refs, s),
    decreases 64 - depth, 1int, n,
{
    if n > 0 {
        law_decoding_advances(s, pos, depth, refs, None);
        lemma_read_sound(s, pos, depth, refs);
        let d = decode_at(s, pos, depth, refs, None)->Ok_0;
        lemma_read_items_sound(s, d.pos, depth, d.refs, (n - 1) as nat);
    }
}

proof fn lemma_read_values_sound(s: Seq<u8>, pos: int, refs: Seq<Amf0>)
    requires
        0 <= pos <= s.len(),
        items_sound(refs, s),
        values_at(s, pos, refs, None) is Ok,
    ensures
        items_sound(values_at(s, pos, refs, None)->Ok_0.items, s),
    decreases s.len() - pos,
{
    if pos < s.len() {
        law_decoding_advances(s, pos, 0, refs, None);
        lemma_read_sound(s, pos, 0, refs);
        let d = decode_at(s, pos, 0, refs, None)->Ok_0;
        lemma_read_values_sound(s, d.pos, d.refs);
    }
}

/// Whatever message was read, references and AMF3 values and all, can be written in
/// full and read again without loss. Left out are messages with a value that nests
/// deeper than 64 levels, as references can make it, and messages with a name that
/// AMF0 cannot write. Such a name, empty or too long, comes only out of AMF3. Written
/// in full, those messages are refused or misread.
pub proof fn law_read_message_round_trip(s: Seq<u8>)
    requires
        values_of(s) is Ok,
        items_levels(values_of(s)->Ok_0) <= 64,
        all_amf0(s) || items_named(values_of(s)->Ok_0),
    ensures
        values_of(items_bytes(values_of(s)->Ok_0)) == values_of(s),
{
    lemma_read_values_sound(s, 0, Seq::empty());
    let a = values_of(s)->Ok_0;
    lemma_items_fit(a, 64);
    law_message_round_trip(a);
}

} // verus!
