//! AMF3 values as AMF0 values.

use vstd::prelude::*;
use crate::amf::Amf0Value;
#[allow(unused_imports)]
use crate::amf::{pair_views, Amf0};
use crate::amf3::value::Amf3Value;
#[allow(unused_imports)]
use crate::amf3::value::{double_bits, entry_views, member_views, Amf3};
#[allow(unused_imports)]
use crate::model::views;
use crate::number::Double;
#[allow(unused_imports)]
use crate::number::int_bits;
use crate::text::{cat, decimal_text};
#[allow(unused_imports)]
use crate::text::decimal;

verus! {

/// The text of a signed number.
pub open spec fn signed_decimal(n: int) -> Seq<char> {
    if n < 0 {
        "-"@ + decimal((-n) as nat)
    } else {
        decimal(n as nat)
    }
}

/// What stands for a value that is used as a key, where `text` gives the text of
/// a double.
pub open spec fn key_text(k: Amf3, text: spec_fn(u64) -> Seq<char>) -> Seq<char> {
    match k {
        Amf3::String(s) => s,
        Amf3::Xml(s) => s,
        Amf3::XmlDocument(s) => s,
        Amf3::Integer(n) => signed_decimal(n as int),
        Amf3::Double(d) => text(d),
        Amf3::Boolean(true) => "true"@,
        Amf3::Boolean(false) => "false"@,
        Amf3::Null => "null"@,
        Amf3::Undefined => "undefined"@,
        _ => "[object]"@,
    }
}

/// The AMF0 value that stands for an AMF3 value. AMF0 has only doubles, no class
/// names outside its typed objects, no sealed members, and no vectors.
pub open spec fn bridged(v: Amf3, text: spec_fn(u64) -> Seq<char>) -> Amf0
    decreases v,
{
    match v {
        Amf3::Undefined => Amf0::Undefined,
        Amf3::Null => Amf0::Null,
        Amf3::Boolean(b) => Amf0::Boolean(b),
        Amf3::Integer(n) => Amf0::Number(int_bits(n as int)),
        Amf3::Double(d) => Amf0::Number(d),
        Amf3::String(s) => Amf0::String(s),
        Amf3::XmlDocument(s) => Amf0::String(s),
        Amf3::Xml(s) => Amf0::String(s),
        Amf3::Date(d) => Amf0::Date { millis: d, timezone: 0 },
        Amf3::Array { dense, assoc } => Amf0::EcmaArray(
            bridged_numbered(dense, 0, text) + bridged_members(assoc, text),
        ),
        Amf3::Object { class_name, dynamic, sealed, dynamic_members, externalizable_body } =>
            Amf0::Object(bridged_members(sealed, text) + bridged_members(dynamic_members, text)),
        Amf3::ByteArray(b) => Amf0::StrictArray(
            Seq::new(b.len(), |i: int| Amf0::Number(int_bits(b[i] as int))),
        ),
        Amf3::VectorInt { fixed, ints } => Amf0::StrictArray(
            Seq::new(ints.len(), |i: int| Amf0::Number(int_bits(ints[i] as int))),
        ),
        Amf3::VectorUInt { fixed, uints } => Amf0::StrictArray(
            Seq::new(uints.len(), |i: int| Amf0::Number(int_bits(uints[i] as int))),
        ),
        Amf3::VectorDouble { fixed, doubles } => Amf0::StrictArray(
            Seq::new(doubles.len(), |i: int| Amf0::Number(doubles[i])),
        ),
        Amf3::VectorObject { fixed, object_type_name, values } => Amf0::StrictArray(
            bridged_values(values, text),
        ),
        Amf3::Dictionary { weak_keys, entries } => Amf0::EcmaArray(bridged_entries(entries, text)),
    }
}

/// Values, each for itself.
pub open spec fn bridged_values(a: Seq<Amf3>, text: spec_fn(u64) -> Seq<char>) -> Seq<Amf0>
    decreases a,
{
    if a.len() == 0 {
        Seq::empty()
    } else {
        seq![bridged(a[0], text)] + bridged_values(a.subrange(1, a.len() as int), text)
    }
}

/// Values by number, from `i` on.
pub open spec fn bridged_numbered(
    a: Seq<Amf3>,
    i: nat,
    text: spec_fn(u64) -> Seq<char>,
) -> Seq<(Seq<char>, Amf0)>
    decreases a,
{
    if a.len() == 0 {
        Seq::empty()
    } else {
        seq![(decimal(i), bridged(a[0], text))] + bridged_numbered(
            a.subrange(1, a.len() as int),
            i + 1,
            text,
        )
    }
}

/// Values by name.
pub open spec fn bridged_members(
    p: Seq<(Seq<char>, Amf3)>,
    text: spec_fn(u64) -> Seq<char>,
) -> Seq<(Seq<char>, Amf0)>
    decreases p,
{
    if p.len() == 0 {
        Seq::empty()
    } else {
        seq![(p[0].0, bridged(p[0].1, text))] + bridged_members(
            p.subrange(1, p.len() as int),
            text,
        )
    }
}

/// Values by key.
pub open spec fn bridged_entries(
    p: Seq<(Amf3, Amf3)>,
    text: spec_fn(u64) -> Seq<char>,
) -> Seq<(Seq<char>, Amf0)>
    decreases p,
{
    if p.len() == 0 {
        Seq::empty()
    } else {
        seq![(key_text(p[0].0, text), bridged(p[0].1, text))] + bridged_entries(
            p.subrange(1, p.len() as int),
            text,
        )
    }
}

/// Whether no double is the key of a dictionary anywhere in a value, so that no text
/// of a double is needed for its AMF0 form.
pub open spec fn plain_keys(v: Amf3) -> bool
    decreases v,
{
    match v {
        Amf3::Array { dense, assoc } => plain_values(dense) && plain_members(assoc),
        Amf3::Object { class_name, dynamic, sealed, dynamic_members, externalizable_body } =>
            plain_members(sealed) && plain_members(dynamic_members),
        Amf3::VectorObject { fixed, object_type_name, values } => plain_values(values),
        Amf3::Dictionary { weak_keys, entries } => plain_entries(entries),
        _ => true,
    }
}

/// Whether this holds of each value.
pub open spec fn plain_values(a: Seq<Amf3>) -> bool
    decreases a,
{
    forall|i: int| 0 <= i < a.len() ==> plain_keys(#[trigger] a[i])
}

/// Whether this holds of each named value.
pub open spec fn plain_members(p: Seq<(Seq<char>, Amf3)>) -> bool
    decreases p,
{
    forall|i: int| 0 <= i < p.len() ==> plain_keys((#[trigger] p[i]).1)
}

/// Whether no key is a double, and this holds of each value.
pub open spec fn plain_entries(p: Seq<(Amf3, Amf3)>) -> bool
    decreases p,
{
    forall|i: int| 0 <= i < p.len() ==> !((#[trigger] p[i]).0 is Double) && plain_keys(p[i].1)
}

/// Whether `f` gives the text of doubles as `text` says.
pub open spec fn gives<F: Fn(Double) -> String>(f: F, text: spec_fn(u64) -> Seq<char>) -> bool {
    forall|d: Double, s: String| call_ensures(f, (d,), s) ==> s@ == text(d.bits)
}

fn amf3_key_to_string<F: Fn(Double) -> String>(k: &Amf3Value, number_text: &F) -> (s: String)
    requires
        forall|d: Double| call_requires(*number_text, (d,)),
    ensures
        forall|text: spec_fn(u64) -> Seq<char>|
            (gives(*number_text, text) || !(k@ is Double)) ==> s@ == #[trigger] key_text(k@, text),
{
    match k {
        Amf3Value::String(s) => s.clone(),
        Amf3Value::Xml(s) => s.clone(),
        Amf3Value::XmlDocument(s) => s.clone(),
        Amf3Value::Integer(n) => if *n < 0 {
            let digits = decimal_text((-(*n as i64)) as u64);
            cat("-", digits.as_str())
        } else {
            decimal_text(*n as u64)
        },
        Amf3Value::Double(d) => number_text(*d),
        Amf3Value::Boolean(b) => if *b {
            "true".to_owned()
        } else {
            "false".to_owned()
        },
        Amf3Value::Null => "null".to_owned(),
        Amf3Value::Undefined => "undefined".to_owned(),
        _ => "[object]".to_owned(),
    }
}

fn numbers_from_bytes(b: &Vec<u8>) -> (out: Vec<Amf0Value>)
    ensures
        views(out@) == Seq::new(b@.len(), |i: int| Amf0::Number(int_bits(b@[i] as int))),
{
    let mut out: Vec<Amf0Value> = Vec::new();
    let mut i: usize = 0;
    while i < b.len()
        invariant
            i <= b@.len(),
            out@.len() == i,
            forall|k: int|
                0 <= k < i ==> (#[trigger] out@[k])@ == Amf0::Number(int_bits(b@[k] as int)),
        decreases b@.len() - i,
    {
        out.push(Amf0Value::Number(Double::from_u32(b[i] as u32)));
        i = i + 1;
    }
    assert(views(out@) =~= Seq::new(b@.len(), |i: int| Amf0::Number(int_bits(b@[i] as int))));
    out
}

fn numbers_from_ints(a: &Vec<i32>) -> (out: Vec<Amf0Value>)
    ensures
        views(out@) == Seq::new(a@.len(), |i: int| Amf0::Number(int_bits(a@[i] as int))),
{
    let mut out: Vec<Amf0Value> = Vec::new();
    let mut i: usize = 0;
    while i < a.len()
        invariant
            i <= a@.len(),
            out@.len() == i,
            forall|k: int|
                0 <= k < i ==> (#[trigger] out@[k])@ == Amf0::Number(int_bits(a@[k] as int)),
        decreases a@.len() - i,
    {
        out.push(Amf0Value::Number(Double::from_i32(a[i])));
        i = i + 1;
    }
    assert(views(out@) =~= Seq::new(a@.len(), |i: int| Amf0::Number(int_bits(a@[i] as int))));
    out
}

fn numbers_from_uints(a: &Vec<u32>) -> (out: Vec<Amf0Value>)
    ensures
        views(out@) == Seq::new(a@.len(), |i: int| Amf0::Number(int_bits(a@[i] as int))),
{
    let mut out: Vec<Amf0Value> = Vec::new();
    let mut i: usize = 0;
    while i < a.len()
        invariant
            i <= a@.len(),
            out@.len() == i,
            forall|k: int|
                0 <= k < i ==> (#[trigger] out@[k])@ == Amf0::Number(int_bits(a@[k] as int)),
        decreases a@.len() - i,
    {
        out.push(Amf0Value::Number(Double::from_u32(a[i])));
        i = i + 1;
    }
    assert(views(out@) =~= Seq::new(a@.len(), |i: int| Amf0::Number(int_bits(a@[i] as int))));
    out
}

fn numbers_from_doubles(a: &Vec<Double>) -> (out: Vec<Amf0Value>)
    ensures
        views(out@) == Seq::new(a@.len(), |i: int| Amf0::Number(double_bits(a@)[i])),
{
    let mut out: Vec<Amf0Value> = Vec::new();
    let mut i: usize = 0;
    while i < a.len()
        invariant
            i <= a@.len(),
            out@.len() == i,
            forall|k: int| 0 <= k < i ==> (#[trigger] out@[k])@ == Amf0::Number(a@[k].bits),
        decreases a@.len() - i,
    {
        out.push(Amf0Value::Number(a[i]));
        i = i + 1;
    }
    assert(views(out@) =~= Seq::new(a@.len(), |i: int| Amf0::Number(double_bits(a@)[i])));
    out
}

fn bridge_values<F: Fn(Double) -> String>(a: &Vec<Amf3Value>, number_text: &F) -> (out: Vec<
    Amf0Value,
>)
    requires
        forall|d: Double| call_requires(*number_text, (d,)),
    ensures
        forall|text: spec_fn(u64) -> Seq<char>|
            (gives(*number_text, text) || plain_values(views(a@))) ==> views(out@) == #[trigger] bridged_values(
                views(a@),
                text,
            ),
    decreases a,
{
    let mut out: Vec<Amf0Value> = Vec::new();
    let ghost all = views(a@);
    let mut i: usize = 0;
    assert forall|text: spec_fn(u64) -> Seq<char>|
        views(out@) + bridged_values(all.subrange(0, all.len() as int), text)
            == #[trigger] bridged_values(all, text) by {
        assert(all.subrange(0, all.len() as int) =~= all);
        assert(views(out@) + bridged_values(all, text) =~= bridged_values(all, text));
    }
    while i < a.len()
        invariant
            all == views(a@),
            i <= a@.len(),
            forall|d: Double| call_requires(*number_text, (d,)),
            forall|text: spec_fn(u64) -> Seq<char>|
                (gives(*number_text, text) || plain_values(all)) ==> views(out@) + bridged_values(
                    all.subrange(i as int, all.len() as int),
                    text,
                ) == #[trigger] bridged_values(all, text),
        decreases a@.len() - i,
    {
        let ghost done = views(out@);
        let ghost rest = all.subrange(i as int, all.len() as int);
        let v = a[i].to_amf0(number_text);
        let ghost here = v@;
        out.push(v);
        i = i + 1;
        assert forall|text: spec_fn(u64) -> Seq<char>| (gives(*number_text, text) || plain_values(all)) implies views(out@)
            + bridged_values(all.subrange(i as int, all.len() as int), text)
            == #[trigger] bridged_values(all, text) by {
            let more = all.subrange(i as int, all.len() as int);
            assert(rest.subrange(1, rest.len() as int) =~= more);
            assert(here == bridged(rest[0], text));
            assert(views(out@) =~= done + seq![here]);
            assert(done + seq![here] + bridged_values(more, text) =~= done + (seq![here]
                + bridged_values(more, text)));
        }
    }
    assert forall|text: spec_fn(u64) -> Seq<char>| (gives(*number_text, text) || plain_values(all)) implies views(out@)
        == #[trigger] bridged_values(all, text) by {
        assert(views(out@) + Seq::empty() =~= views(out@));
    }
    out
}

/// Append the values of `a`, by number.
fn bridge_numbered<F: Fn(Double) -> String>(
    out: &mut Vec<(String, Amf0Value)>,
    a: &Vec<Amf3Value>,
    number_text: &F,
)
    requires
        forall|d: Double| call_requires(*number_text, (d,)),
    ensures
        forall|text: spec_fn(u64) -> Seq<char>|
            (gives(*number_text, text) || plain_values(views(a@))) ==> pair_views(final(out)@) == pair_views(old(out)@)
                + #[trigger] bridged_numbered(views(a@), 0, text),
    decreases a,
{
    let ghost all = views(a@);
    let mut i: usize = 0;
    assert(all.subrange(0, all.len() as int) =~= all);
    while i < a.len()
        invariant
            all == views(a@),
            i <= a@.len(),
            forall|d: Double| call_requires(*number_text, (d,)),
            forall|text: spec_fn(u64) -> Seq<char>|
                (gives(*number_text, text) || plain_values(all)) ==> pair_views(out@) + bridged_numbered(
                    all.subrange(i as int, all.len() as int),
                    i as nat,
                    text,
                ) == pair_views(old(out)@) + #[trigger] bridged_numbered(all, 0, text),
        decreases a@.len() - i,
    {
        let ghost done = pair_views(out@);
        let ghost rest = all.subrange(i as int, all.len() as int);
        let v = a[i].to_amf0(number_text);
        let k = decimal_text(i as u64);
        let ghost here = (k@, v@);
        out.push((k, v));
        i = i + 1;
        assert forall|text: spec_fn(u64) -> Seq<char>| (gives(*number_text, text) || plain_values(all)) implies pair_views(
            out@,
        ) + bridged_numbered(all.subrange(i as int, all.len() as int), i as nat, text)
            == pair_views(old(out)@) + #[trigger] bridged_numbered(all, 0, text) by {
            let more = all.subrange(i as int, all.len() as int);
            assert(rest.subrange(1, rest.len() as int) =~= more);
            assert(here.1 == bridged(rest[0], text));
            assert(pair_views(out@) =~= done + seq![here]);
            assert(done + seq![here] + bridged_numbered(more, i as nat, text) =~= done + (
            seq![here] + bridged_numbered(more, i as nat, text)));
        }
    }
    assert forall|text: spec_fn(u64) -> Seq<char>| (gives(*number_text, text) || plain_values(all)) implies pair_views(
        out@,
    ) == pair_views(old(out)@) + #[trigger] bridged_numbered(all, 0, text) by {
        assert(pair_views(out@) + Seq::empty() =~= pair_views(out@));
    }
}

/// Append the values of `p`, by name.
fn bridge_members<F: Fn(Double) -> String>(
    out: &mut Vec<(String, Amf0Value)>,
    p: &Vec<(String, Amf3Value)>,
    number_text: &F,
)
    requires
        forall|d: Double| call_requires(*number_text, (d,)),
    ensures
        forall|text: spec_fn(u64) -> Seq<char>|
            (gives(*number_text, text) || plain_members(member_views(p@))) ==> pair_views(final(out)@) == pair_views(old(out)@)
                + #[trigger] bridged_members(member_views(p@), text),
    decreases p,
{
    let ghost all = member_views(p@);
    let mut i: usize = 0;
    assert(all.subrange(0, all.len() as int) =~= all);
    while i < p.len()
        invariant
            all == member_views(p@),
            i <= p@.len(),
            forall|d: Double| call_requires(*number_text, (d,)),
            forall|text: spec_fn(u64) -> Seq<char>|
                (gives(*number_text, text) || plain_members(all)) ==> pair_views(out@) + bridged_members(
                    all.subrange(i as int, all.len() as int),
                    text,
                ) == pair_views(old(out)@) + #[trigger] bridged_members(all, text),
        decreases p@.len() - i,
    {
        let ghost done = pair_views(out@);
        let ghost rest = all.subrange(i as int, all.len() as int);
        let v = p[i].1.to_amf0(number_text);
        let k = p[i].0.clone();
        let ghost here = (k@, v@);
        out.push((k, v));
        i = i + 1;
        assert forall|text: spec_fn(u64) -> Seq<char>| (gives(*number_text, text) || plain_members(all)) implies pair_views(
            out@,
        ) + bridged_members(all.subrange(i as int, all.len() as int), text) == pair_views(
            old(out)@,
        ) + #[trigger] bridged_members(all, text) by {
            let more = all.subrange(i as int, all.len() as int);
            assert(rest.subrange(1, rest.len() as int) =~= more);
            assert(here.1 == bridged(rest[0].1, text));
            assert(pair_views(out@) =~= done + seq![here]);
            assert(done + seq![here] + bridged_members(more, text) =~= done + (seq![here]
                + bridged_members(more, text)));
        }
    }
    assert forall|text: spec_fn(u64) -> Seq<char>| (gives(*number_text, text) || plain_members(all)) implies pair_views(
        out@,
    ) == pair_views(old(out)@) + #[trigger] bridged_members(all, text) by {
        assert(pair_views(out@) + Seq::empty() =~= pair_views(out@));
    }
}

/// The values of `p`, by key.
fn bridge_entries<F: Fn(Double) -> String>(
    p: &Vec<(Amf3Value, Amf3Value)>,
    number_text: &F,
) -> (out: Vec<(String, Amf0Value)>)
    requires
        forall|d: Double| call_requires(*number_text, (d,)),
    ensures
        forall|text: spec_fn(u64) -> Seq<char>|
            (gives(*number_text, text) || plain_entries(entry_views(p@))) ==> pair_views(out@) == #[trigger] bridged_entries(
                entry_views(p@),
                text,
            ),
    decreases p,
{
    let mut out: Vec<(String, Amf0Value)> = Vec::new();
    let ghost all = entry_views(p@);
    let mut i: usize = 0;
    assert forall|text: spec_fn(u64) -> Seq<char>|
        pair_views(out@) + bridged_entries(all.subrange(0, all.len() as int), text)
            == #[trigger] bridged_entries(all, text) by {
        assert(all.subrange(0, all.len() as int) =~= all);
        assert(pair_views(out@) + bridged_entries(all, text) =~= bridged_entries(all, text));
    }
    while i < p.len()
        invariant
            all == entry_views(p@),
            i <= p@.len(),
            forall|d: Double| call_requires(*number_text, (d,)),
            forall|text: spec_fn(u64) -> Seq<char>|
                (gives(*number_text, text) || plain_entries(all)) ==> pair_views(out@) + bridged_entries(
                    all.subrange(i as int, all.len() as int),
                    text,
                ) == #[trigger] bridged_entries(all, text),
        decreases p@.len() - i,
    {
        let ghost done = pair_views(out@);
        let ghost rest = all.subrange(i as int, all.len() as int);
        let k = amf3_key_to_string(&p[i].0, number_text);
        let v = p[i].1.to_amf0(number_text);
        let ghost here = (k@, v@);
        out.push((k, v));
        i = i + 1;
        assert forall|text: spec_fn(u64) -> Seq<char>| (gives(*number_text, text) || plain_entries(all)) implies pair_views(
            out@,
        ) + bridged_entries(all.subrange(i as int, all.len() as int), text)
            == #[trigger] bridged_entries(all, text) by {
            let more = all.subrange(i as int, all.len() as int);
            assert(rest.subrange(1, rest.len() as int) =~= more);
            assert(here.0 == key_text(rest[0].0, text));
            assert(here.1 == bridged(rest[0].1, text));
            assert(pair_views(out@) =~= done + seq![here]);
            assert(done + seq![here] + bridged_entries(more, text) =~= done + (seq![here]
                + bridged_entries(more, text)));
        }
    }
    assert forall|text: spec_fn(u64) -> Seq<char>| (gives(*number_text, text) || plain_entries(all)) implies pair_views(
        out@,
    ) == #[trigger] bridged_entries(all, text) by {
        assert(pair_views(out@) + Seq::empty() =~= pair_views(out@));
    }
    out
}

impl Amf3Value {
    /// The AMF0 value that stands for this one.
    ///
    /// Integers become numbers, sealed and dynamic members one object, an array
    /// an ECMA array with its values by number first, byte arrays and vectors
    /// strict arrays, documents strings, and a dictionary an ECMA array under the
    /// texts of its keys. `number_text` gives the text of a double that is a key;
    /// where no double is one, it has no say.
    pub fn to_amf0<F: Fn(Double) -> String>(&self, number_text: &F) -> (r: Amf0Value)
        requires
            forall|d: Double| call_requires(*number_text, (d,)),
        ensures
            forall|text: spec_fn(u64) -> Seq<char>|
                (gives(*number_text, text) || plain_keys(self@)) ==> r@ == #[trigger] bridged(self@, text),
        decreases self,
    {
        proof {
            crate::amf3::value::lemma_container_views(*self);
        }
        match self {
            Amf3Value::Undefined => Amf0Value::Undefined,
            Amf3Value::Null => Amf0Value::Null,
            Amf3Value::Boolean(b) => Amf0Value::Boolean(*b),
            Amf3Value::Integer(n) => Amf0Value::Number(Double::from_i32(*n)),
            Amf3Value::Double(d) => Amf0Value::Number(*d),
            Amf3Value::String(s) => Amf0Value::String(s.clone()),
            Amf3Value::XmlDocument(s) => Amf0Value::String(s.clone()),
            Amf3Value::Xml(s) => Amf0Value::String(s.clone()),
            Amf3Value::Date(d) => Amf0Value::Date { millis: *d, timezone: 0 },
            Amf3Value::Array { dense, assoc } => {
                let mut pairs: Vec<(String, Amf0Value)> = Vec::new();
                let ghost none = pair_views(pairs@);
                bridge_numbered(&mut pairs, dense, number_text);
                bridge_members(&mut pairs, assoc, number_text);
                let r = Amf0Value::EcmaArray(pairs);
                proof {
                    crate::amf::lemma_container_views(r);
                    assert forall|text: spec_fn(u64) -> Seq<char>| (gives(*number_text, text) || plain_keys(self@)) implies r@
                        == #[trigger] bridged(self@, text) by {
                        let a = bridged_numbered(views(dense@), 0, text);
                        let b = bridged_members(member_views(assoc@), text);
                        assert(none + a + b =~= a + b);
                    }
                }
                r
            },
            Amf3Value::Object { sealed, dynamic_members, .. } => {
                let mut pairs: Vec<(String, Amf0Value)> = Vec::new();
                let ghost none = pair_views(pairs@);
                bridge_members(&mut pairs, sealed, number_text);
                bridge_members(&mut pairs, dynamic_members, number_text);
                let r = Amf0Value::Object(pairs);
                proof {
                    crate::amf::lemma_container_views(r);
                    assert forall|text: spec_fn(u64) -> Seq<char>| (gives(*number_text, text) || plain_keys(self@)) implies r@
                        == #[trigger] bridged(self@, text) by {
                        let a = bridged_members(member_views(sealed@), text);
                        let b = bridged_members(member_views(dynamic_members@), text);
                        assert(none + a + b =~= a + b);
                    }
                }
                r
            },
            Amf3Value::ByteArray(b) => {
                let r = Amf0Value::StrictArray(numbers_from_bytes(b));
                proof {
                    crate::amf::lemma_container_views(r);
                    assert forall|text: spec_fn(u64) -> Seq<char>| r@ == #[trigger] bridged(
                        self@,
                        text,
                    ) by {
                        assert(r@->StrictArray_0 =~= bridged(self@, text)->StrictArray_0);
                    }
                }
                r
            },
            Amf3Value::VectorInt { items, .. } => {
                let r = Amf0Value::StrictArray(numbers_from_ints(items));
                proof {
                    crate::amf::lemma_container_views(r);
                    assert forall|text: spec_fn(u64) -> Seq<char>| r@ == #[trigger] bridged(
                        self@,
                        text,
                    ) by {
                        assert(r@->StrictArray_0 =~= bridged(self@, text)->StrictArray_0);
                    }
                }
                r
            },
            Amf3Value::VectorUInt { items, .. } => {
                let r = Amf0Value::StrictArray(numbers_from_uints(items));
                proof {
                    crate::amf::lemma_container_views(r);
                    assert forall|text: spec_fn(u64) -> Seq<char>| r@ == #[trigger] bridged(
                        self@,
                        text,
                    ) by {
                        assert(r@->StrictArray_0 =~= bridged(self@, text)->StrictArray_0);
                    }
                }
                r
            },
            Amf3Value::VectorDouble { items, .. } => {
                let r = Amf0Value::StrictArray(numbers_from_doubles(items));
                proof {
                    crate::amf::lemma_container_views(r);
                    assert forall|text: spec_fn(u64) -> Seq<char>| r@ == #[trigger] bridged(
                        self@,
                        text,
                    ) by {
                        assert(r@->StrictArray_0 =~= bridged(self@, text)->StrictArray_0);
                    }
                }
                r
            },
            Amf3Value::VectorObject { items, .. } => {
                let r = Amf0Value::StrictArray(bridge_values(items, number_text));
                proof {
                    crate::amf::lemma_container_views(r);
                    assert forall|text: spec_fn(u64) -> Seq<char>| (gives(*number_text, text) || plain_keys(self@)) implies r@
                        == #[trigger] bridged(self@, text) by {
                        assert(r@ == Amf0::StrictArray(bridged_values(views(items@), text)));
                    }
                }
                r
            },
            Amf3Value::Dictionary { entries, .. } => {
                let r = Amf0Value::EcmaArray(bridge_entries(entries, number_text));
                proof {
                    crate::amf::lemma_container_views(r);
                    assert forall|text: spec_fn(u64) -> Seq<char>| (gives(*number_text, text) || plain_keys(self@)) implies r@
                        == #[trigger] bridged(self@, text) by {
                        assert(r@ == Amf0::EcmaArray(bridged_entries(entry_views(entries@), text)));
                    }
                }
                r
            },
        }
    }
}

fn values_are_plain(a: &Vec<Amf3Value>) -> (b: bool)
    ensures
        b == plain_values(views(a@)),
    decreases a,
{
    let ghost all = views(a@);
    let mut i: usize = 0;
    while i < a.len()
        invariant
            all == views(a@),
            i <= a@.len(),
            forall|k: int| 0 <= k < i ==> plain_keys(#[trigger] all[k]),
        decreases a@.len() - i,
    {
        if !a[i].has_plain_keys() {
            assert(!plain_keys(all[i as int]));
            return false;
        }
        assert(plain_keys(all[i as int]));
        i = i + 1;
    }
    true
}

fn members_are_plain(p: &Vec<(String, Amf3Value)>) -> (b: bool)
    ensures
        b == plain_members(member_views(p@)),
    decreases p,
{
    let ghost all = member_views(p@);
    let mut i: usize = 0;
    while i < p.len()
        invariant
            all == member_views(p@),
            i <= p@.len(),
            forall|k: int| 0 <= k < i ==> plain_keys((#[trigger] all[k]).1),
        decreases p@.len() - i,
    {
        if !p[i].1.has_plain_keys() {
            assert(!plain_keys(all[i as int].1));
            return false;
        }
        assert(plain_keys(all[i as int].1));
        i = i + 1;
    }
    true
}

fn entries_are_plain(p: &Vec<(Amf3Value, Amf3Value)>) -> (b: bool)
    ensures
        b == plain_entries(entry_views(p@)),
    decreases p,
{
    let ghost all = entry_views(p@);
    let mut i: usize = 0;
    while i < p.len()
        invariant
            all == entry_views(p@),
            i <= p@.len(),
            forall|k: int|
                0 <= k < i ==> !((#[trigger] all[k]).0 is Double) && plain_keys(all[k].1),
        decreases p@.len() - i,
    {
        let double = match &p[i].0 {
            Amf3Value::Double(_) => true,
            _ => false,
        };
        assert(double == (all[i as int].0 is Double));
        if double || !p[i].1.has_plain_keys() {
            assert(all[i as int].0 is Double || !plain_keys(all[i as int].1));
            return false;
        }
        assert(plain_keys(all[i as int].1));
        i = i + 1;
    }
    true
}

impl Amf3Value {
    /// Whether no double is the key of a dictionary anywhere in this value.
    pub fn has_plain_keys(&self) -> (b: bool)
        ensures
            b == plain_keys(self@),
        decreases self,
    {
        proof {
            crate::amf3::value::lemma_container_views(*self);
        }
        match self {
            Amf3Value::Array { dense, assoc } => values_are_plain(dense) && members_are_plain(assoc),
            Amf3Value::Object { sealed, dynamic_members, .. } => members_are_plain(sealed)
                && members_are_plain(dynamic_members),
            Amf3Value::VectorObject { items, .. } => values_are_plain(items),
            Amf3Value::Dictionary { entries, .. } => entries_are_plain(entries),
            _ => true,
        }
    }
}

/// A named value of the object stands in its AMF0 form at the same place: sealed
/// members first, in order, then dynamic ones.
pub proof fn law_members_keep_their_order(
    p: Seq<(Seq<char>, Amf3)>,
    text: spec_fn(u64) -> Seq<char>,
    i: int,
)
    requires
        0 <= i < p.len(),
    ensures
        bridged_members(p, text).len() == p.len(),
        bridged_members(p, text)[i] == (p[i].0, bridged(p[i].1, text)),
    decreases p.len(),
{
    let tail = p.subrange(1, p.len() as int);
    if i > 0 {
        law_members_keep_their_order(tail, text, i - 1);
    } else if p.len() > 1 {
        law_members_keep_their_order(tail, text, 0);
    } else {
        assert(bridged_members(tail, text) =~= Seq::empty());
    }
}

/// Where no double is the key of a dictionary, the AMF0 form of a value does not turn on
/// what the text of a double is.
pub proof fn law_plain_keys_need_no_text(
    v: Amf3,
    one: spec_fn(u64) -> Seq<char>,
    other: spec_fn(u64) -> Seq<char>,
)
    requires
        plain_keys(v),
    ensures
        bridged(v, one) == bridged(v, other),
    decreases v,
{
    match v {
        Amf3::Array { dense, assoc } => {
            lemma_numbered_need_no_text(dense, 0, one, other);
            lemma_members_need_no_text(assoc, one, other);
        },
        Amf3::Object { class_name, dynamic, sealed, dynamic_members, externalizable_body } => {
            lemma_members_need_no_text(sealed, one, other);
            lemma_members_need_no_text(dynamic_members, one, other);
        },
        Amf3::VectorObject { fixed, object_type_name, values } => {
            lemma_values_need_no_text(values, one, other);
        },
        Amf3::Dictionary { weak_keys, entries } => {
            lemma_entries_need_no_text(entries, one, other);
        },
        _ => {},
    }
}

proof fn lemma_values_need_no_text(
    a: Seq<Amf3>,
    one: spec_fn(u64) -> Seq<char>,
    other: spec_fn(u64) -> Seq<char>,
)
    requires
        plain_values(a),
    ensures
        bridged_values(a, one) == bridged_values(a, other),
    decreases a,
{
    if a.len() > 0 {
        let tail = a.subrange(1, a.len() as int);
        assert forall|i: int| 0 <= i < tail.len() implies plain_keys(#[trigger] tail[i]) by {
            assert(tail[i] == a[i + 1]);
        }
        law_plain_keys_need_no_text(a[0], one, other);
        lemma_values_need_no_text(tail, one, other);
    }
}

proof fn lemma_numbered_need_no_text(
    a: Seq<Amf3>,
    n: nat,
    one: spec_fn(u64) -> Seq<char>,
    other: spec_fn(u64) -> Seq<char>,
)
    requires
        plain_values(a),
    ensures
        bridged_numbered(a, n, one) == bridged_numbered(a, n, other),
    decreases a,
{
    if a.len() > 0 {
        let tail = a.subrange(1, a.len() as int);
        assert forall|i: int| 0 <= i < tail.len() implies plain_keys(#[trigger] tail[i]) by {
            assert(tail[i] == a[i + 1]);
        }
        law_plain_keys_need_no_text(a[0], one, other);
        lemma_numbered_need_no_text(tail, n + 1, one, other);
    }
}

proof fn lemma_members_need_no_text(
    p: Seq<(Seq<char>, Amf3)>,
    one: spec_fn(u64) -> Seq<char>,
    other: spec_fn(u64) -> Seq<char>,
)
    requires
        plain_members(p),
    ensures
        bridged_members(p, one) == bridged_members(p, other),
    decreases p,
{
    if p.len() > 0 {
        let tail = p.subrange(1, p.len() as int);
        assert forall|i: int| 0 <= i < tail.len() implies plain_keys((#[trigger] tail[i]).1) by {
            assert(tail[i] == p[i + 1]);
        }
        law_plain_keys_need_no_text(p[0].1, one, other);
        lemma_members_need_no_text(tail, one, other);
    }
}

proof fn lemma_entries_need_no_text(
    p: Seq<(Amf3, Amf3)>,
    one: spec_fn(u64) -> Seq<char>,
    other: spec_fn(u64) -> Seq<char>,
)
    requires
        plain_entries(p),
    ensures
        bridged_entries(p, one) == bridged_entries(p, other),
    decreases p,
{
    if p.len() > 0 {
        let tail = p.subrange(1, p.len() as int);
        assert forall|i: int| 0 <= i < tail.len() implies !((#[trigger] tail[i]).0 is Double)
            && plain_keys(tail[i].1) by {
            assert(tail[i] == p[i + 1]);
        }
        assert(!(p[0].0 is Double));
        law_plain_keys_need_no_text(p[0].1, one, other);
        lemma_entries_need_no_text(tail, one, other);
    }
}

/// A value has plain keys exactly if no dictionary in it, at any depth, has a double for a
/// key: a value without parts has them, and one with parts if the parts do.
pub proof fn law_plain_keys(
    v: &Amf3Value,
    b: bool,
    weak: bool,
    entries: Seq<(Amf3, Amf3)>,
    dense: Seq<Amf3>,
    assoc: Seq<(Seq<char>, Amf3)>,
)
    requires
        call_ensures(Amf3Value::has_plain_keys, (v,), b),
    ensures
        b == plain_keys(v@),
        !(v@ is Array || v@ is Object || v@ is VectorObject || v@ is Dictionary) ==> b,
        v@ == (Amf3::Dictionary { weak_keys: weak, entries }) ==> (b <==> forall|i: int|
            0 <= i < entries.len() ==> !((#[trigger] entries[i]).0 is Double) && plain_keys(
                entries[i].1,
            )),
        v@ == (Amf3::Array { dense, assoc }) ==> (b <==> (forall|i: int|
            0 <= i < dense.len() ==> plain_keys(#[trigger] dense[i])) && (forall|i: int|
            0 <= i < assoc.len() ==> plain_keys((#[trigger] assoc[i]).1))),
        v@ matches Amf3::VectorObject { values, .. } ==> (b <==> forall|i: int|
            0 <= i < values.len() ==> plain_keys(#[trigger] values[i])),
        v@ matches Amf3::Object { sealed, dynamic_members, .. } ==> (b <==> (forall|i: int|
            0 <= i < sealed.len() ==> plain_keys((#[trigger] sealed[i]).1)) && (forall|i: int|
            0 <= i < dynamic_members.len() ==> plain_keys((#[trigger] dynamic_members[i]).1))),
{
}

} // verus!
