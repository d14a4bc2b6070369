//! AMF0 in bytes.

use vstd::prelude::*;
#[allow(unused_imports)]
use vstd::utf8::encode_utf8;
#[allow(unused_imports)]
use crate::amf::{
    clone_items, clone_pairs, decode, decode_all, decode_at, encode, encode_command, encoded,
    items_bytes, obj, pair_views, pairs_bytes, scalar_at, short_text, values_at, values_of, Amf0,
    Amf0Value, Decoded, DecodedItems, Failure, TextRule,
};
#[allow(unused_imports)]
use crate::amf_fields::law_first_of_a_name_is_found;
#[allow(unused_imports)]
use crate::error::{Error, Fault, Result};
#[allow(unused_imports)]
use crate::model::views;
#[allow(unused_imports)]
use crate::number::Double;
#[allow(unused_imports)]
use crate::text::{decimal, numeral};
#[allow(unused_imports)]
use crate::wire::{
    be16, be16_bytes, be32_bytes, be64, be64_bytes, law_bytes_by_their_value,
    law_fields_by_their_bytes,
};

verus! {

// ---------------------------------------------------------------------------
// What is written
// ---------------------------------------------------------------------------

/// A name in bytes: its length in two bytes, then its text.
pub open spec fn name_of(t: Seq<char>) -> Seq<u8> {
    let n = encode_utf8(t).len();
    seq![(n / 0x100 % 0x100) as u8, (n % 0x100) as u8] + encode_utf8(t)
}

/// A long text in bytes: its length in four bytes, then its text.
pub open spec fn text_of(t: Seq<char>) -> Seq<u8> {
    count_of(encode_utf8(t).len()) + encode_utf8(t)
}

/// A count in four bytes, of which the low bits are kept.
pub open spec fn count_of(n: nat) -> Seq<u8> {
    let low = n % 0x1_0000_0000;
    seq![
        (low / 0x100_0000) as u8,
        (low / 0x1_0000 % 0x100) as u8,
        (low / 0x100 % 0x100) as u8,
        (low % 0x100) as u8,
    ]
}

proof fn lemma_name_of(t: Seq<char>)
    ensures
        crate::amf::short_text_bytes(t) == name_of(t),
{
    let n = encode_utf8(t).len();
    let low = (n % 0x1_0000) as u16;
    law_bytes_by_their_value(low, 0, 0);
    assert(be16_bytes(low) =~= seq![(n / 0x100 % 0x100) as u8, (n % 0x100) as u8]);
}

proof fn lemma_count_of(n: nat)
    ensures
        crate::amf::count_bytes(n) == count_of(n),
        be32_bytes((n % 0x1_0000_0000) as u32) == count_of(n),
{
    let low = (n % 0x1_0000_0000) as u32;
    law_bytes_by_their_value(0, low, 0);
    assert(be32_bytes(low) =~= count_of(n));
}

/// How each value without parts is written: its marker, and what follows it. A string
/// takes the short form up to 65535 bytes and the long one above; a document always has
/// the long one.
pub proof fn law_simple_values_are_written(
    n: u64,
    b: bool,
    t: Seq<char>,
    zone: i16,
)
    ensures
        encoded(Amf0::Number(n)) == seq![0u8] + be64_bytes(n),
        encoded(Amf0::Boolean(b)) == seq![
            1u8,
            if b {
                1u8
            } else {
                0u8
            },
        ],
        encode_utf8(t).len() <= 65535 ==> encoded(Amf0::String(t)) == seq![2u8] + name_of(t),
        encode_utf8(t).len() > 65535 ==> encoded(Amf0::String(t)) == seq![0x0Cu8] + text_of(t),
        encoded(Amf0::Null) == seq![5u8],
        encoded(Amf0::Undefined) == seq![6u8],
        encoded(Amf0::Unsupported) == seq![0x0Du8],
        encoded(Amf0::XmlDocument(t)) == seq![0x0Fu8] + text_of(t),
        ({
            let z = if zone < 0 {
                zone + 0x1_0000
            } else {
                zone as int
            };
            encoded(Amf0::Date { millis: n, timezone: zone }) == seq![0x0Bu8] + be64_bytes(n)
                + seq![(z / 0x100) as u8, (z % 0x100) as u8]
        }),
{
    lemma_name_of(t);
    lemma_count_of(encode_utf8(t).len());
    let z = crate::amf::bits16(zone);
    law_bytes_by_their_value(z, 0, 0);
    assert(be16_bytes(z) =~= seq![(z / 0x100) as u8, (z % 0x100) as u8]);
}

/// How objects and arrays are written: an object has its named values, an ECMA array
/// their count before them, a typed object its class, and a strict array the count of its
/// values and the values.
pub proof fn law_containers_are_written(
    p: Seq<(Seq<char>, Amf0)>,
    class_name: Seq<char>,
    a: Seq<Amf0>,
)
    ensures
        encoded(Amf0::Object(p)) == seq![3u8] + pairs_bytes(p),
        encoded(Amf0::EcmaArray(p)) == seq![8u8] + count_of(p.len()) + pairs_bytes(p),
        encoded(Amf0::TypedObject { class_name, pairs: p }) == seq![0x10u8] + name_of(class_name)
            + pairs_bytes(p),
        encoded(Amf0::StrictArray(a)) == seq![0x0Au8] + count_of(a.len()) + items_bytes(a),
{
    lemma_name_of(class_name);
    lemma_count_of(p.len());
    lemma_count_of(a.len());
}

/// Values follow each other, and named ones have their name in front; behind the last
/// named one stand an empty name and the byte 9.
pub proof fn law_parts_follow_each_other(
    k: Seq<char>,
    v: Amf0,
    p: Seq<(Seq<char>, Amf0)>,
    a: Seq<Amf0>,
)
    ensures
        pairs_bytes(Seq::empty()) == seq![0u8, 0, 9],
        pairs_bytes(seq![(k, v)] + p) == name_of(k) + encoded(v) + pairs_bytes(p),
        items_bytes(Seq::empty()).len() == 0,
        items_bytes(seq![v] + a) == encoded(v) + items_bytes(a),
{
    lemma_name_of(k);
    let q = seq![(k, v)] + p;
    assert(q.subrange(1, q.len() as int) =~= p);
    let b = seq![v] + a;
    assert(b.subrange(1, b.len() as int) =~= a);
}

/// Writing appends. A command is its name, its transaction id, its command object and its
/// arguments, one after the other.
pub proof fn law_values_are_appended(
    out: &mut Vec<u8>,
    v: &Amf0Value,
    name: &str,
    tx: Double,
    object: Amf0Value,
    args: &[Amf0Value],
    command: Vec<u8>,
)
    requires
        call_ensures(encode, (out, v), ()),
        call_ensures(encode_command, (name, tx, object, args), command),
    ensures
        final(out)@ == old(out)@ + encoded(v@),
        command@ == encoded(Amf0::String(name@)) + encoded(Amf0::Number(tx.bits)) + encoded(object@)
            + items_bytes(views(args@)),
{
    let a = Amf0::String(name@);
    let b = Amf0::Number(tx.bits);
    let c = object@;
    let all = seq![a, b, c] + views(args@);
    let one = all.subrange(1, all.len() as int);
    let two = one.subrange(1, one.len() as int);
    assert(two.subrange(1, two.len() as int) =~= views(args@));
    assert(items_bytes(two) == encoded(c) + items_bytes(views(args@)));
    assert(items_bytes(one) == encoded(b) + items_bytes(two));
    assert(items_bytes(all) == encoded(a) + items_bytes(one));
    assert(items_bytes(all) =~= encoded(a) + encoded(b) + encoded(c) + items_bytes(views(args@)));
}

// ---------------------------------------------------------------------------
// What is read
// ---------------------------------------------------------------------------

/// What each marker without parts reads as: 0 a number, 1 a truth value, which is false
/// only for a zero byte, 5 null, 6 undefined, 0x0D what a peer could not say, and 0x0B a
/// date with its time zone.
pub proof fn law_simple_values_are_read(
    s: Seq<u8>,
    pos: int,
    depth: nat,
    refs: Seq<Amf0>,
    texts: TextRule,
)
    requires
        depth < 64,
        0 <= pos < s.len(),
    ensures
        ({
            let r = decode_at(s, pos, depth, refs, texts);
            let m = s[pos];
            &&& m == 0 && pos + 9 <= s.len() ==> r == Ok::<Decoded, Failure>(
                Decoded { value: Amf0::Number(be64(s, pos + 1)), pos: pos + 9, refs },
            )
            &&& m == 1 && pos + 2 <= s.len() ==> r == Ok::<Decoded, Failure>(
                Decoded { value: Amf0::Boolean(s[pos + 1] != 0), pos: pos + 2, refs },
            )
            &&& m == 5 ==> r == Ok::<Decoded, Failure>(
                Decoded { value: Amf0::Null, pos: pos + 1, refs },
            )
            &&& m == 6 ==> r == Ok::<Decoded, Failure>(
                Decoded { value: Amf0::Undefined, pos: pos + 1, refs },
            )
            &&& m == 0x0D ==> r == Ok::<Decoded, Failure>(
                Decoded { value: Amf0::Unsupported, pos: pos + 1, refs },
            )
            &&& m == 0x0B && pos + 11 <= s.len() ==> {
                let z = s[pos + 9] * 0x100 + s[pos + 10];
                r matches Ok(d) && d.pos == pos + 11 && d.refs == refs && (d.value matches Amf0::Date {
                    millis,
                    timezone,
                } && millis == be64(s, pos + 1) && timezone == if z >= 0x8000 {
                    z - 0x1_0000
                } else {
                    z
                })
            }
        }),
{
    reveal(scalar_at);
    law_fields_by_their_bytes(s, pos + 9);
}

/// A reference is the place of an earlier object in two bytes. It gives that object, and
/// is refused where there is none at that place.
pub proof fn law_references_are_read(
    s: Seq<u8>,
    pos: int,
    depth: nat,
    refs: Seq<Amf0>,
    texts: TextRule,
)
    requires
        depth < 64,
        0 <= pos,
        pos + 3 <= s.len(),
        s[pos] == 7,
    ensures
        ({
            let idx = s[pos + 1] * 0x100 + s[pos + 2];
            let r = decode_at(s, pos, depth, refs, texts);
            &&& idx < refs.len() ==> r == Ok::<Decoded, Failure>(
                Decoded { value: refs[idx], pos: pos + 3, refs },
            )
            &&& idx >= refs.len() ==> r == Err::<Decoded, Failure>(
                Failure {
                    fault: Fault::InvalidAmf0(
                        "AMF0 reference index "@ + decimal(idx as nat) + " out of range (table has "@
                            + decimal(refs.len()) + " entries)"@,
                    ),
                    pos: pos + 3,
                },
            )
        }),
{
    reveal(scalar_at);
    law_fields_by_their_bytes(s, pos + 1);
}

/// What is no value: nothing, a value nested 64 deep, a value that is cut off, and a
/// marker that has no meaning.
pub proof fn law_what_is_no_value(
    s: Seq<u8>,
    pos: int,
    depth: nat,
    refs: Seq<Amf0>,
    texts: TextRule,
)
    requires
        0 <= pos,
    ensures
        ({
            let r = decode_at(s, pos, depth, refs, texts);
            let m = s[pos];
            &&& depth >= 64 ==> r == Err::<Decoded, Failure>(
                Failure { fault: Fault::InvalidAmf0("nested container depth exceeded 64"@), pos },
            )
            &&& depth < 64 && pos >= s.len() ==> r == Err::<Decoded, Failure>(
                Failure { fault: Fault::InvalidAmf0("truncated"@), pos },
            )
            &&& depth < 64 && pos < s.len() && (m == 4 || m == 9 || m == 0x0E || m > 0x11) ==> r
                == Err::<Decoded, Failure>(
                Failure {
                    fault: Fault::InvalidAmf0("unknown marker 0x"@ + numeral(m as nat, 16)),
                    pos: pos + 1,
                },
            )
            &&& depth < 64 && pos < s.len() < pos + 9 && (m == 0 || m == 0x0B) ==> r == Err::<
                Decoded,
                Failure,
            >(Failure { fault: Fault::InvalidAmf0("truncated u64"@), pos: pos + 1 })
            &&& depth < 64 && pos + 1 == s.len() && m == 1 ==> r == Err::<Decoded, Failure>(
                Failure { fault: Fault::InvalidAmf0("truncated"@), pos: pos + 1 },
            )
            &&& depth < 64 && pos < s.len() < pos + 3 && (m == 2 || m == 7 || m == 0x10) ==> r
                == Err::<Decoded, Failure>(
                Failure { fault: Fault::InvalidAmf0("truncated u16"@), pos: pos + 1 },
            )
            &&& depth < 64 && pos < s.len() < pos + 5 && (m == 8 || m == 0x0A || m == 0x0C || m
                == 0x0F) ==> r == Err::<Decoded, Failure>(
                Failure { fault: Fault::InvalidAmf0("truncated u32"@), pos: pos + 1 },
            )
        }),
{
    reveal(scalar_at);
}

/// A message is read to its end, and objects can be referred to from one value to the
/// next.
pub proof fn law_message_is_read_to_its_end(
    s: Seq<u8>,
    pos: int,
    refs: Seq<Amf0>,
    texts: TextRule,
)
    requires
        0 <= pos,
    ensures
        pos >= s.len() ==> (values_at(s, pos, refs, texts) matches Ok(d) && d.items.len() == 0),
        pos < s.len() ==> (match decode_at(s, pos, 0, refs, texts) {
            Err(e) => values_at(s, pos, refs, texts) == Err::<DecodedItems, Failure>(e),
            Ok(d) => match values_at(s, d.pos, d.refs, texts) {
                Err(e) => values_at(s, pos, refs, texts) == Err::<DecodedItems, Failure>(e),
                Ok(rest) => values_at(s, pos, refs, texts) matches Ok(all) && all.items == seq![
                    d.value,
                ] + rest.items,
            },
        }),
{
    if pos < s.len() && decode_at(s, pos, 0, refs, texts) is Ok {
        crate::amf_laws::law_decoding_advances(s, pos, 0, refs, texts);
    }
}

/// Reading starts with nothing to refer to.
pub proof fn law_reading_starts_afresh(
    buf: &[u8],
    pos: &mut usize,
    one: Result<Amf0Value>,
    all: Result<Vec<Amf0Value>>,
)
    requires
        call_ensures(decode, (buf, pos), one),
        call_ensures(decode_all, (buf,), all),
    ensures
        ({
            let none = Seq::<Amf0>::empty();
            let d = decode_at(buf@, *old(pos) as int, 0, none, None);
            let whole = values_at(buf@, 0, none, None);
            &&& one matches Ok(v) ==> (d matches Ok(x) && x.value == v@ && x.pos == *final(pos))
            &&& one matches Err(e) ==> (d matches Err(x) && x.fault == e@ && x.pos == *final(pos))
            &&& all matches Ok(v) ==> (whole matches Ok(x) && x.items == views(v@))
            &&& all matches Err(e) ==> (whole matches Err(x) && x.fault == e@)
        }),
{
}

// ---------------------------------------------------------------------------
// Values
// ---------------------------------------------------------------------------

/// The named values of a value.
pub open spec fn named_in(v: Amf0) -> Seq<(Seq<char>, Amf0)> {
    match v {
        Amf0::Object(p) => p,
        Amf0::EcmaArray(p) => p,
        Amf0::TypedObject { pairs, .. } => pairs,
        _ => Seq::empty(),
    }
}

/// What a value can be taken for. Named values are found in objects, ECMA arrays and typed
/// objects, the first of a name; a class name only in typed objects.
pub proof fn law_values_are_taken(
    v: &Amf0Value,
    key: &str,
    i: int,
    named: Option<&Amf0Value>,
    class: Option<&str>,
    text: Option<&str>,
    number: Option<Double>,
    truth: Option<bool>,
)
    requires
        call_ensures(Amf0Value::get, (v, key), named),
        call_ensures(Amf0Value::class_name, (v,), class),
        call_ensures(Amf0Value::as_str, (v,), text),
        call_ensures(Amf0Value::as_f64, (v,), number),
        call_ensures(Amf0Value::as_bool, (v,), truth),
    ensures
        ({
            let pairs = named_in(v@);
            &&& 0 <= i < pairs.len() && pairs[i].0 == key@ && (forall|j: int|
                0 <= j < i ==> (#[trigger] pairs[j]).0 != key@) ==> (named matches Some(x) && x@
                == pairs[i].1)
            &&& (forall|j: int| 0 <= j < pairs.len() ==> (#[trigger] pairs[j]).0 != key@)
                ==> named is None
        }),
        match v@ {
            Amf0::TypedObject { class_name, .. } => class matches Some(x) && x@ == class_name,
            _ => class is None,
        },
        match v@ {
            Amf0::String(s) => text matches Some(x) && x@ == s,
            _ => text is None,
        },
        match v@ {
            Amf0::Number(n) => number matches Some(d) && d.bits == n,
            _ => number is None,
        },
        match v@ {
            Amf0::Boolean(b) => truth == Some(b),
            _ => truth is None,
        },
{
    let pairs = named_in(v@);
    law_first_of_a_name_is_found(pairs, i, key@);
}

/// Copies are what they are copies of, and an object is made of its named values.
pub proof fn law_copies(
    p: &Vec<(String, Amf0Value)>,
    a: &Vec<Amf0Value>,
    pairs: Vec<(String, Amf0Value)>,
    q: Vec<(String, Amf0Value)>,
    b: Vec<Amf0Value>,
    o: Amf0Value,
)
    requires
        call_ensures(clone_pairs, (p,), q),
        call_ensures(clone_items, (a,), b),
        call_ensures(obj, (pairs,), o),
    ensures
        pair_views(q@) == pair_views(p@),
        views(b@) == views(a@),
        o@ == Amf0::Object(pair_views(pairs@)),
{
}

} // verus!
