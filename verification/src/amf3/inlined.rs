//! What was read can be written in full: references are an abbreviation.

use vstd::prelude::*;
#[allow(unused_imports)]
use crate::amf3::decode::{
    array_at, dictionary_at, entries_at, flat_at, members_at, message_at, names_at, object_at,
    simple_at, string_at, text_body, traits_at, value_at, values_at, vector_at, zipped,
    ExternalizableReader, Readers, Tables, TraitView, AVMPLUS_OBJECT_MARKER,
};
#[allow(unused_imports)]
use crate::amf3::encode::values_bytes;
#[allow(unused_imports)]
use crate::amf3::laws::{
    entries_fit, fits, law_message_round_trip, law_reading_keeps_tables, lemma_string_moves,
    lemma_traits_move, lemma_u29_moves, members_fit, sealed_fit, text_fits, values_fit,
};
#[allow(unused_imports)]
use crate::amf3::u29::u29_at;
#[allow(unused_imports)]
use crate::amf3::value::Amf3;
#[allow(unused_imports)]
use crate::amf3::{M_ARRAY, M_DICTIONARY, M_OBJECT, M_STRING, M_VECTOR_OBJECT};
#[allow(unused_imports)]
use crate::amf_inline::larger;

verus! {

/// How many levels deep a value nests; a value without parts has one.
pub open spec fn levels(v: Amf3) -> nat
    decreases v,
{
    match v {
        Amf3::Array { dense, assoc } => 1 + larger(members_levels(assoc), values_levels(dense)),
        Amf3::Object { class_name, dynamic, sealed, dynamic_members, externalizable_body } => 1
            + larger(members_levels(sealed), members_levels(dynamic_members)),
        Amf3::VectorObject { fixed, object_type_name, values } => 1 + values_levels(values),
        Amf3::Dictionary { weak_keys, entries } => 1 + entries_levels(entries),
        _ => 1,
    }
}

/// How many levels deep named values nest.
pub open spec fn members_levels(p: Seq<(Seq<char>, Amf3)>) -> nat
    decreases p,
{
    if p.len() == 0 {
        0
    } else {
        larger(levels(p[0].1), members_levels(p.subrange(1, p.len() as int)))
    }
}

/// How many levels deep a run of values nests.
pub open spec fn values_levels(a: Seq<Amf3>) -> nat
    decreases a,
{
    if a.len() == 0 {
        0
    } else {
        larger(levels(a[0]), values_levels(a.subrange(1, a.len() as int)))
    }
}

/// How many levels deep keys and values nest.
pub open spec fn entries_levels(p: Seq<(Amf3, Amf3)>) -> nat
    decreases p,
{
    if p.len() == 0 {
        0
    } else {
        larger(
            larger(levels(p[0].0), levels(p[0].1)),
            entries_levels(p.subrange(1, p.len() as int)),
        )
    }
}

// ---------------------------------------------------------------------------
// Room
// ---------------------------------------------------------------------------

proof fn lemma_more_room(v: Amf3, room: nat, more: nat, h: Readers)
    requires
        fits(v, room, h),
        room <= more,
    ensures
        fits(v, more, h),
    decreases v, 0int,
{
    let a = (room - 1) as nat;
    let b = (more - 1) as nat;
    match v {
        Amf3::Array { dense, assoc } => {
            lemma_more_room_members(assoc, a, b, h);
            lemma_more_room_values(dense, a, b, h);
        },
        Amf3::Object { class_name, dynamic, sealed, dynamic_members, externalizable_body } => {
            if externalizable_body is None {
                lemma_more_room_sealed(sealed, a, b, h);
                if dynamic {
                    lemma_more_room_members(dynamic_members, a, b, h);
                }
            }
        },
        Amf3::VectorObject { fixed, object_type_name, values } => {
            lemma_more_room_values(values, a, b, h);
        },
        Amf3::Dictionary { weak_keys, entries } => {
            lemma_more_room_entries(entries, a, b, h);
        },
        _ => {},
    }
}

proof fn lemma_more_room_members(p: Seq<(Seq<char>, Amf3)>, room: nat, more: nat, h: Readers)
    requires
        members_fit(p, room, h),
        room <= more,
    ensures
        members_fit(p, more, h),
    decreases p, 1int,
{
    if p.len() > 0 {
        lemma_more_room(p[0].1, room, more, h);
        lemma_more_room_members(p.subrange(1, p.len() as int), room, more, h);
    }
}

proof fn lemma_more_room_sealed(p: Seq<(Seq<char>, Amf3)>, room: nat, more: nat, h: Readers)
    requires
        sealed_fit(p, room, h),
        room <= more,
    ensures
        sealed_fit(p, more, h),
    decreases p, 1int,
{
    if p.len() > 0 {
        lemma_more_room(p[0].1, room, more, h);
        lemma_more_room_sealed(p.subrange(1, p.len() as int), room, more, h);
    }
}

proof fn lemma_more_room_values(a: Seq<Amf3>, room: nat, more: nat, h: Readers)
    requires
        values_fit(a, room, h),
        room <= more,
    ensures
        values_fit(a, more, h),
    decreases a, 1int,
{
    if a.len() > 0 {
        lemma_more_room(a[0], room, more, h);
        lemma_more_room_values(a.subrange(1, a.len() as int), room, more, h);
    }
}

proof fn lemma_more_room_entries(p: Seq<(Amf3, Amf3)>, room: nat, more: nat, h: Readers)
    requires
        entries_fit(p, room, h),
        room <= more,
    ensures
        entries_fit(p, more, h),
    decreases p, 1int,
{
    if p.len() > 0 {
        lemma_more_room(p[0].0, room, more, h);
        lemma_more_room(p[0].1, room, more, h);
        lemma_more_room_entries(p.subrange(1, p.len() as int), room, more, h);
    }
}

// ---------------------------------------------------------------------------
// One more part
// ---------------------------------------------------------------------------

/// Whether a value fits as soon as there is room for its levels.
spec fn writable(v: Amf3, h: Readers) -> bool {
    fits(v, levels(v), h)
}

proof fn lemma_front_member(front: (Seq<char>, Amf3), rest: Seq<(Seq<char>, Amf3)>, h: Readers)
    requires
        text_fits(front.0),
        front.0.len() > 0,
        writable(front.1, h),
        members_fit(rest, members_levels(rest), h),
    ensures
        members_fit(seq![front] + rest, members_levels(seq![front] + rest), h),
{
    let p = seq![front] + rest;
    assert(p.subrange(1, p.len() as int) =~= rest);
    lemma_more_room(front.1, levels(front.1), members_levels(p), h);
    lemma_more_room_members(rest, members_levels(rest), members_levels(p), h);
}

proof fn lemma_front_value(front: Amf3, rest: Seq<Amf3>, h: Readers)
    requires
        writable(front, h),
        values_fit(rest, values_levels(rest), h),
    ensures
        values_fit(seq![front] + rest, values_levels(seq![front] + rest), h),
{
    let a = seq![front] + rest;
    assert(a.subrange(1, a.len() as int) =~= rest);
    lemma_more_room(front, levels(front), values_levels(a), h);
    lemma_more_room_values(rest, values_levels(rest), values_levels(a), h);
}

proof fn lemma_front_entry(front: (Amf3, Amf3), rest: Seq<(Amf3, Amf3)>, h: Readers)
    requires
        writable(front.0, h),
        writable(front.1, h),
        entries_fit(rest, entries_levels(rest), h),
    ensures
        entries_fit(seq![front] + rest, entries_levels(seq![front] + rest), h),
{
    let p = seq![front] + rest;
    assert(p.subrange(1, p.len() as int) =~= rest);
    lemma_more_room(front.0, levels(front.0), entries_levels(p), h);
    lemma_more_room(front.1, levels(front.1), entries_levels(p), h);
    lemma_more_room_entries(rest, entries_levels(rest), entries_levels(p), h);
}

proof fn lemma_sealed(names: Seq<Seq<char>>, values: Seq<Amf3>, room: nat, h: Readers)
    requires
        names.len() == values.len(),
        forall|i: int| 0 <= i < names.len() ==> text_fits(#[trigger] names[i]),
        values_fit(values, room, h),
    ensures
        sealed_fit(zipped(names, values), room, h),
        members_levels(zipped(names, values)) == values_levels(values),
    decreases names.len(),
{
    let z = zipped(names, values);
    if names.len() > 0 {
        let n = names.subrange(1, names.len() as int);
        let v = values.subrange(1, values.len() as int);
        assert(z.subrange(1, z.len() as int) =~= zipped(n, v));
        lemma_sealed(n, v, room, h);
    }
}

// ---------------------------------------------------------------------------
// What the tables hold
// ---------------------------------------------------------------------------

spec fn traits_sound(v: TraitView) -> bool {
    &&& text_fits(v.class_name)
    &&& v.names.len() < 0x200_0000
    &&& forall|i: int| 0 <= i < v.names.len() ==> text_fits(#[trigger] v.names[i])
}

/// Whether all that the tables hold can be written.
spec fn sound(t: Tables, h: Readers) -> bool {
    &&& forall|i: int| 0 <= i < t.strings.len() ==> text_fits(#[trigger] t.strings[i])
    &&& forall|i: int| 0 <= i < t.objects.len() ==> writable(#[trigger] t.objects[i], h)
    &&& forall|i: int| 0 <= i < t.traits.len() ==> traits_sound(#[trigger] t.traits[i])
}

proof fn lemma_u29_bound(s: Seq<u8>, pos: int)
    requires
        u29_at(s, pos) is Ok,
    ensures
        u29_at(s, pos)->Ok_0.0 < 0x2000_0000,
{
    reveal(u29_at);
}

proof fn lemma_read_text(s: Seq<u8>, pos: int, len: int)
    requires
        0 <= pos,
        0 <= len < 0x1000_0000,
        text_body(s, pos, len) is Ok,
    ensures
        text_fits(text_body(s, pos, len)->Ok_0.0),
{
    vstd::utf8::decode_utf8_encode_utf8(s.subrange(pos, pos + len));
}

proof fn lemma_read_string(s: Seq<u8>, pos: int, t: Tables, h: Readers)
    requires
        0 <= pos,
        sound(t, h),
        string_at(s, pos, t).out is Ok,
    ensures
        text_fits(string_at(s, pos, t).out->Ok_0),
        sound(string_at(s, pos, t).tables, h),
{
    lemma_u29_bound(s, pos);
    lemma_u29_moves(s, pos);
    let (header, p) = u29_at(s, pos)->Ok_0;
    if header % 2 == 1 {
        lemma_read_text(s, p, (header / 2) as int);
    }
}

proof fn lemma_read_names(s: Seq<u8>, pos: int, t: Tables, n: nat, h: Readers)
    requires
        0 <= pos,
        sound(t, h),
        names_at(s, pos, t, n).out is Ok,
    ensures
        ({
            let r = names_at(s, pos, t, n);
            &&& r.out->Ok_0.len() == n
            &&& forall|i: int| 0 <= i < n ==> text_fits(#[trigger] r.out->Ok_0[i])
            &&& sound(r.tables, h)
        }),
    decreases n,
{
    if n > 0 {
        lemma_read_string(s, pos, t, h);
        lemma_string_moves(s, pos, t);
        let r = string_at(s, pos, t);
        lemma_read_names(s, r.pos, r.tables, (n - 1) as nat, h);
    }
}

proof fn lemma_read_traits(s: Seq<u8>, pos: int, t: Tables, header: u32, h: Readers)
    requires
        0 <= pos,
        header < 0x2000_0000,
        sound(t, h),
        traits_at(s, pos, t, header).out is Ok,
    ensures
        traits_sound(traits_at(s, pos, t, header).out->Ok_0),
        sound(traits_at(s, pos, t, header).tables, h),
{
    if header / 2 % 2 == 1 {
        lemma_read_string(s, pos, t, h);
        lemma_string_moves(s, pos, t);
        let c = string_at(s, pos, t);
        lemma_read_names(s, c.pos, c.tables, (header / 16) as nat, h);
    }
}

proof fn lemma_read_simple(s: Seq<u8>, p: int, t: Tables, m: u8, h: Readers)
    requires
        0 <= p,
        sound(t, h),
        simple_at(s, p, t, m).out is Ok,
    ensures
        writable(simple_at(s, p, t, m).out->Ok_0, h),
        sound(simple_at(s, p, t, m).tables, h),
{
    if m == M_STRING {
        lemma_read_string(s, p, t, h);
    } else if u29_at(s, p) is Ok {
        lemma_u29_bound(s, p);
    }
}

proof fn lemma_read_flat(s: Seq<u8>, q: int, t: Tables, m: u8, n: nat, h: Readers)
    requires
        0 <= q,
        n < 0x1000_0000,
        sound(t, h),
        flat_at(s, q, t, m, n).out is Ok,
    ensures
        writable(flat_at(s, q, t, m, n).out->Ok_0, h),
        sound(flat_at(s, q, t, m, n).tables, h),
{
    if text_body(s, q, n as int) is Ok {
        lemma_read_text(s, q, n as int);
        assert(writable(Amf3::XmlDocument(text_body(s, q, n as int)->Ok_0.0), h));
    }
}

// ---------------------------------------------------------------------------
// Whatever is read
// ---------------------------------------------------------------------------

proof fn lemma_read_value(s: Seq<u8>, pos: int, depth: nat, t: Tables, h: Readers)
    requires
        0 <= pos,
        h.len() == 0,
        sound(t, h),
        value_at(s, pos, depth, t, h).out is Ok,
    ensures
        writable(value_at(s, pos, depth, t, h).out->Ok_0, h),
        sound(value_at(s, pos, depth, t, h).tables, h),
    decreases 64 - depth, 0int, 0int,
{
    let m = s[pos];
    if m <= M_STRING || m > M_DICTIONARY {
        lemma_read_simple(s, pos + 1, t, m, h);
    } else {
        lemma_u29_bound(s, pos + 1);
        lemma_u29_moves(s, pos + 1);
        let (header, q) = u29_at(s, pos + 1)->Ok_0;
        let n = (header / 2) as nat;
        if header % 2 == 0 {
        } else if m == M_ARRAY {
            lemma_read_array(s, q, depth + 1, t, h, n);
        } else if m == M_OBJECT {
            lemma_read_traits(s, q, t, header, h);
            lemma_traits_move(s, q, t, header);
            let r = traits_at(s, q, t, header);
            lemma_read_object(s, r.pos, depth + 1, r.tables, h, r.out->Ok_0);
        } else if m == M_VECTOR_OBJECT {
            lemma_read_vector(s, q, depth + 1, t, h, n);
        } else if m == M_DICTIONARY {
            lemma_read_dictionary(s, q, depth + 1, t, h, n);
        } else {
            lemma_read_flat(s, q, t, m, n, h);
        }
    }
}

proof fn lemma_read_array(s: Seq<u8>, pos: int, depth: nat, t: Tables, h: Readers, n: nat)
    requires
        0 <= pos <= s.len(),
        depth <= 64,
        n < 0x1000_0000,
        h.len() == 0,
        sound(t, h),
        array_at(s, pos, depth, t, h, n).out is Ok,
    ensures
        writable(array_at(s, pos, depth, t, h, n).out->Ok_0, h),
        sound(array_at(s, pos, depth, t, h, n).tables, h),
    decreases 64 - depth, 2int, 0int,
{
    let t1 = t.with_object(Amf3::Null);
    assert(writable(Amf3::Null, h));
    lemma_read_members(s, pos, depth, t1, h);
    let a = members_at(s, pos, depth, t1, h);
    lemma_read_values(s, a.pos, depth, a.tables, h, n);
    let b = values_at(s, a.pos, depth, a.tables, h, n);
    let assoc = a.out->Ok_0;
    let dense = b.out->Ok_0;
    let room = larger(members_levels(assoc), values_levels(dense));
    lemma_more_room_members(assoc, members_levels(assoc), room, h);
    lemma_more_room_values(dense, values_levels(dense), room, h);
}

proof fn lemma_read_object(
    s: Seq<u8>,
    pos: int,
    depth: nat,
    t: Tables,
    h: Readers,
    traits: TraitView,
)
    requires
        0 <= pos <= s.len(),
        depth <= 64,
        h.len() == 0,
        sound(t, h),
        traits_sound(traits),
        object_at(s, pos, depth, t, h, traits).out is Ok,
    ensures
        writable(object_at(s, pos, depth, t, h, traits).out->Ok_0, h),
        sound(object_at(s, pos, depth, t, h, traits).tables, h),
    decreases 64 - depth, 2int, 0int,
{
    let t1 = t.with_object(Amf3::Null);
    assert(writable(Amf3::Null, h));
    let n = traits.names.len();
    assert(!traits.externalizable);
    lemma_read_values(s, pos, depth, t1, h, n);
    let a = values_at(s, pos, depth, t1, h, n);
    let values = a.out->Ok_0;
    let sealed = zipped(traits.names, values);
    lemma_sealed(traits.names, values, values_levels(values), h);
    if traits.dynamic {
        lemma_read_members(s, a.pos, depth, a.tables, h);
        let b = members_at(s, a.pos, depth, a.tables, h);
        let more = b.out->Ok_0;
        let room = larger(members_levels(sealed), members_levels(more));
        lemma_more_room_sealed(sealed, members_levels(sealed), room, h);
        lemma_more_room_members(more, members_levels(more), room, h);
    }
}

proof fn lemma_read_vector(s: Seq<u8>, pos: int, depth: nat, t: Tables, h: Readers, n: nat)
    requires
        0 <= pos <= s.len(),
        depth <= 64,
        n < 0x1000_0000,
        h.len() == 0,
        sound(t, h),
        vector_at(s, pos, depth, t, h, n).out is Ok,
    ensures
        writable(vector_at(s, pos, depth, t, h, n).out->Ok_0, h),
        sound(vector_at(s, pos, depth, t, h, n).tables, h),
    decreases 64 - depth, 2int, 0int,
{
    lemma_read_string(s, pos + 1, t, h);
    lemma_string_moves(s, pos + 1, t);
    let c = string_at(s, pos + 1, t);
    assert(writable(Amf3::Null, h));
    lemma_read_values(s, c.pos, depth, c.tables.with_object(Amf3::Null), h, n);
}

proof fn lemma_read_dictionary(s: Seq<u8>, pos: int, depth: nat, t: Tables, h: Readers, n: nat)
    requires
        0 <= pos <= s.len(),
        depth <= 64,
        n < 0x1000_0000,
        h.len() == 0,
        sound(t, h),
        dictionary_at(s, pos, depth, t, h, n).out is Ok,
    ensures
        writable(dictionary_at(s, pos, depth, t, h, n).out->Ok_0, h),
        sound(dictionary_at(s, pos, depth, t, h, n).tables, h),
    decreases 64 - depth, 2int, 0int,
{
    assert(writable(Amf3::Null, h));
    lemma_read_entries(s, pos + 1, depth, t.with_object(Amf3::Null), h, n);
}

proof fn lemma_read_members(s: Seq<u8>, pos: int, depth: nat, t: Tables, h: Readers)
    requires
        0 <= pos <= s.len(),
        depth <= 64,
        h.len() == 0,
        sound(t, h),
        members_at(s, pos, depth, t, h).out is Ok,
    ensures
        ({
            let r = members_at(s, pos, depth, t, h);
            &&& members_fit(r.out->Ok_0, members_levels(r.out->Ok_0), h)
            &&& sound(r.tables, h)
            &&& pos <= r.pos <= s.len()
            &&& t.objects.len() <= r.tables.objects.len()
        }),
    decreases 64 - depth, 1int, s.len() - pos,
{
    lemma_read_string(s, pos, t, h);
    lemma_string_moves(s, pos, t);
    let k = string_at(s, pos, t);
    if k.out->Ok_0.len() > 0 {
        lemma_read_value(s, k.pos, depth, k.tables, h);
        law_reading_keeps_tables(s, k.pos, depth, k.tables, h);
        let r = value_at(s, k.pos, depth, k.tables, h);
        lemma_read_members(s, r.pos, depth, r.tables, h);
        lemma_front_member(
            (k.out->Ok_0, r.out->Ok_0),
            members_at(s, r.pos, depth, r.tables, h).out->Ok_0,
            h,
        );
    }
}

proof fn lemma_read_values(s: Seq<u8>, pos: int, depth: nat, t: Tables, h: Readers, n: nat)
    requires
        0 <= pos <= s.len(),
        depth <= 64,
        h.len() == 0,
        sound(t, h),
        values_at(s, pos, depth, t, h, n).out is Ok,
    ensures
        ({
            let r = values_at(s, pos, depth, t, h, n);
            &&& r.out->Ok_0.len() == n
            &&& values_fit(r.out->Ok_0, values_levels(r.out->Ok_0), h)
            &&& sound(r.tables, h)
            &&& pos <= r.pos <= s.len()
            &&& t.objects.len() <= r.tables.objects.len()
        }),
    decreases 64 - depth, 1int, n,
{
    if n > 0 {
        lemma_read_value(s, pos, depth, t, h);
        law_reading_keeps_tables(s, pos, depth, t, h);
        let r = value_at(s, pos, depth, t, h);
        let m = (n - 1) as nat;
        lemma_read_values(s, r.pos, depth, r.tables, h, m);
        lemma_front_value(
            r.out->Ok_0,
            values_at(s, r.pos, depth, r.tables, h, m).out->Ok_0,
            h,
        );
    }
}

proof fn lemma_read_entries(s: Seq<u8>, pos: int, depth: nat, t: Tables, h: Readers, n: nat)
    requires
        0 <= pos <= s.len(),
        depth <= 64,
        h.len() == 0,
        sound(t, h),
        entries_at(s, pos, depth, t, h, n).out is Ok,
    ensures
        ({
            let r = entries_at(s, pos, depth, t, h, n);
            &&& r.out->Ok_0.len() == n
            &&& entries_fit(r.out->Ok_0, entries_levels(r.out->Ok_0), h)
            &&& sound(r.tables, h)
            &&& t.objects.len() <= r.tables.objects.len()
        }),
    decreases 64 - depth, 1int, n,
{
    if n > 0 {
        lemma_read_value(s, pos, depth, t, h);
        law_reading_keeps_tables(s, pos, depth, t, h);
        let k = value_at(s, pos, depth, t, h);
        lemma_read_value(s, k.pos, depth, k.tables, h);
        law_reading_keeps_tables(s, k.pos, depth, k.tables, h);
        let r = value_at(s, k.pos, depth, k.tables, h);
        let m = (n - 1) as nat;
        lemma_read_entries(s, r.pos, depth, r.tables, h, m);
        lemma_front_entry(
            (k.out->Ok_0, r.out->Ok_0),
            entries_at(s, r.pos, depth, r.tables, h, m).out->Ok_0,
            h,
        );
    }
}

proof fn lemma_read_message(s: Seq<u8>, pos: int, t: Tables, switched: bool, h: Readers)
    requires
        0 <= pos <= s.len(),
        h == Seq::<(String, Box<dyn ExternalizableReader>)>::empty(),
        sound(t, h),
        message_at(s, pos, t, switched).out is Ok,
    ensures
        values_fit(
            message_at(s, pos, t, switched).out->Ok_0,
            values_levels(message_at(s, pos, t, switched).out->Ok_0),
            h,
        ),
    decreases s.len() - pos,
{
    if pos < s.len() {
        let p = if switched && s[pos] == AVMPLUS_OBJECT_MARKER {
            pos + 1
        } else {
            pos
        };
        lemma_read_value(s, p, 0, t, h);
        let r = value_at(s, p, 0, t, h);
        lemma_read_message(s, r.pos, r.tables, switched, h);
        lemma_front_value(
            r.out->Ok_0,
            message_at(s, r.pos, r.tables, switched).out->Ok_0,
            h,
        );
    }
}

/// Whatever value is read by itself fits as soon as there is room for its levels.
pub proof fn lemma_read_alone_fits(s: Seq<u8>, pos: int)
    requires
        0 <= pos,
        value_at(s, pos, 0, Tables::new(), Seq::empty()).out is Ok,
    ensures
        ({
            let v = value_at(s, pos, 0, Tables::new(), Seq::empty()).out->Ok_0;
            fits(v, levels(v), Seq::empty())
        }),
{
    lemma_read_value(s, pos, 0, Tables::new(), Seq::empty());
}

/// Whatever message was read, references and all, can be written in full and read
/// again without loss. Messages whose references make a value nest deeper than 64
/// levels are left out: written in full, such a value is refused.
pub proof fn law_read_message_round_trip(s: Seq<u8>, switched: bool)
    requires
        message_at(s, 0, Tables::new(), switched).out is Ok,
        values_levels(message_at(s, 0, Tables::new(), switched).out->Ok_0) <= 64,
        values_bytes(message_at(s, 0, Tables::new(), switched).out->Ok_0).len() <= usize::MAX,
    ensures
        message_at(
            values_bytes(message_at(s, 0, Tables::new(), switched).out->Ok_0),
            0,
            Tables::new(),
            false,
        ).out == message_at(s, 0, Tables::new(), switched).out,
{
    let none: Readers = Seq::empty();
    lemma_read_message(s, 0, Tables::new(), switched, none);
    let a = message_at(s, 0, Tables::new(), switched).out->Ok_0;
    lemma_more_room_values(a, values_levels(a), 64, none);
    law_message_round_trip(a);
}

} // verus!
