//! AMF3 values and their model.

use vstd::prelude::*;
#[allow(unused_imports)]
use crate::model::views;
use crate::number::Double;
#[allow(unused_imports)]
use crate::number::int_bits;
use crate::text::same_text;

verus! {

/// One AMF3 value.
#[allow(inconsistent_fields)]
#[derive(Debug, PartialEq)]
pub enum Amf3Value {
    Undefined,
    Null,
    Boolean(bool),
    /// An integer of 29 bits.
    Integer(i32),
    Double(Double),
    String(String),
    XmlDocument(String),
    Xml(String),
    /// Milliseconds since 1970.
    Date(Double),
    /// Values by number and values by name.
    Array { dense: Vec<Amf3Value>, assoc: Vec<(String, Amf3Value)> },
    /// Sealed members, those of the class, and dynamic members; or the bytes of
    /// a class that writes itself.
    Object {
        class_name: String,
        dynamic: bool,
        sealed: Vec<(String, Amf3Value)>,
        dynamic_members: Vec<(String, Amf3Value)>,
        externalizable_body: Option<Vec<u8>>,
    },
    ByteArray(Vec<u8>),
    VectorInt { fixed: bool, items: Vec<i32> },
    VectorUInt { fixed: bool, items: Vec<u32> },
    VectorDouble { fixed: bool, items: Vec<Double> },
    VectorObject { fixed: bool, object_type_name: String, items: Vec<Amf3Value> },
    Dictionary { weak_keys: bool, entries: Vec<(Amf3Value, Amf3Value)> },
}

/// The mathematical view of [`Amf3Value`].
pub enum Amf3 {
    Undefined,
    Null,
    Boolean(bool),
    Integer(i32),
    Double(u64),
    String(Seq<char>),
    XmlDocument(Seq<char>),
    Xml(Seq<char>),
    Date(u64),
    Array { dense: Seq<Amf3>, assoc: Seq<(Seq<char>, Amf3)> },
    Object {
        class_name: Seq<char>,
        dynamic: bool,
        sealed: Seq<(Seq<char>, Amf3)>,
        dynamic_members: Seq<(Seq<char>, Amf3)>,
        externalizable_body: Option<Seq<u8>>,
    },
    ByteArray(Seq<u8>),
    VectorInt { fixed: bool, ints: Seq<i32> },
    VectorUInt { fixed: bool, uints: Seq<u32> },
    VectorDouble { fixed: bool, doubles: Seq<u64> },
    VectorObject { fixed: bool, object_type_name: Seq<char>, values: Seq<Amf3> },
    Dictionary { weak_keys: bool, entries: Seq<(Amf3, Amf3)> },
}

/// The bits of a run of doubles.
pub open spec fn double_bits(s: Seq<Double>) -> Seq<u64> {
    Seq::new(s.len(), |i: int| s[i].bits)
}

/// Optional bytes, by their view.
pub open spec fn bytes_view(b: Option<Vec<u8>>) -> Option<Seq<u8>> {
    match b {
        Some(v) => Some(v@),
        None => None,
    }
}

impl View for Amf3Value {
    type V = Amf3;

    open spec fn view(&self) -> Amf3
        decreases self,
    {
        match *self {
            Amf3Value::Undefined => Amf3::Undefined,
            Amf3Value::Null => Amf3::Null,
            Amf3Value::Boolean(b) => Amf3::Boolean(b),
            Amf3Value::Integer(n) => Amf3::Integer(n),
            Amf3Value::Double(d) => Amf3::Double(d.bits),
            Amf3Value::String(s) => Amf3::String(s@),
            Amf3Value::XmlDocument(s) => Amf3::XmlDocument(s@),
            Amf3Value::Xml(s) => Amf3::Xml(s@),
            Amf3Value::Date(d) => Amf3::Date(d.bits),
            Amf3Value::Array { dense, assoc } => Amf3::Array {
                dense: Seq::new(
                    dense@.len(),
                    |i: int|
                        if 0 <= i < dense@.len() {
                            dense@[i].view()
                        } else {
                            arbitrary()
                        },
                ),
                assoc: Seq::new(
                    assoc@.len(),
                    |i: int|
                        if 0 <= i < assoc@.len() {
                            (assoc@[i].0@, assoc@[i].1.view())
                        } else {
                            arbitrary()
                        },
                ),
            },
            Amf3Value::Object {
                class_name,
                dynamic,
                sealed,
                dynamic_members,
                externalizable_body,
            } => Amf3::Object {
                class_name: class_name@,
                dynamic,
                sealed: Seq::new(
                    sealed@.len(),
                    |i: int|
                        if 0 <= i < sealed@.len() {
                            (sealed@[i].0@, sealed@[i].1.view())
                        } else {
                            arbitrary()
                        },
                ),
                dynamic_members: Seq::new(
                    dynamic_members@.len(),
                    |i: int|
                        if 0 <= i < dynamic_members@.len() {
                            (dynamic_members@[i].0@, dynamic_members@[i].1.view())
                        } else {
                            arbitrary()
                        },
                ),
                externalizable_body: bytes_view(externalizable_body),
            },
            Amf3Value::ByteArray(b) => Amf3::ByteArray(b@),
            Amf3Value::VectorInt { fixed, items } => Amf3::VectorInt { fixed, ints: items@ },
            Amf3Value::VectorUInt { fixed, items } => Amf3::VectorUInt { fixed, uints: items@ },
            Amf3Value::VectorDouble { fixed, items } => Amf3::VectorDouble {
                fixed,
                doubles: double_bits(items@),
            },
            Amf3Value::VectorObject { fixed, object_type_name, items } => Amf3::VectorObject {
                fixed,
                object_type_name: object_type_name@,
                values: Seq::new(
                    items@.len(),
                    |i: int|
                        if 0 <= i < items@.len() {
                            items@[i].view()
                        } else {
                            arbitrary()
                        },
                ),
            },
            Amf3Value::Dictionary { weak_keys, entries } => Amf3::Dictionary {
                weak_keys,
                entries: Seq::new(
                    entries@.len(),
                    |i: int|
                        if 0 <= i < entries@.len() {
                            (entries@[i].0.view(), entries@[i].1.view())
                        } else {
                            arbitrary()
                        },
                ),
            },
        }
    }
}

/// Named values, by their views.
pub open spec fn member_views(p: Seq<(String, Amf3Value)>) -> Seq<(Seq<char>, Amf3)> {
    Seq::new(p.len(), |i: int| (p[i].0@, p[i].1@))
}

/// Entries, by their views.
pub open spec fn entry_views(p: Seq<(Amf3Value, Amf3Value)>) -> Seq<(Amf3, Amf3)> {
    Seq::new(p.len(), |i: int| (p[i].0@, p[i].1@))
}

/// What the view of a container is made of.
pub proof fn lemma_container_views(v: Amf3Value)
    ensures
        match v {
            Amf3Value::Array { dense, assoc } => v@ == (Amf3::Array {
                dense: views(dense@),
                assoc: member_views(assoc@),
            }),
            Amf3Value::Object {
                class_name,
                dynamic,
                sealed,
                dynamic_members,
                externalizable_body,
            } => v@ == (Amf3::Object {
                class_name: class_name@,
                dynamic,
                sealed: member_views(sealed@),
                dynamic_members: member_views(dynamic_members@),
                externalizable_body: bytes_view(externalizable_body),
            }),
            Amf3Value::VectorObject { fixed, object_type_name, items } => v@
                == (Amf3::VectorObject {
                fixed,
                object_type_name: object_type_name@,
                values: views(items@),
            }),
            Amf3Value::Dictionary { weak_keys, entries } => v@ == (Amf3::Dictionary {
                weak_keys,
                entries: entry_views(entries@),
            }),
            _ => true,
        },
{
    reveal_with_fuel(<Amf3Value as View>::view, 2);
    match v {
        Amf3Value::Array { dense, assoc } => {
            assert(v@->dense =~= views(dense@));
            assert(v@->assoc =~= member_views(assoc@));
        },
        Amf3Value::Object { sealed, dynamic_members, .. } => {
            assert(v@->sealed =~= member_views(sealed@));
            assert(v@->dynamic_members =~= member_views(dynamic_members@));
        },
        Amf3Value::VectorObject { items, .. } => {
            assert(v@->values =~= views(items@));
        },
        Amf3Value::Dictionary { entries, .. } => {
            assert(v@->entries =~= entry_views(entries@));
        },
        _ => {},
    }
}

fn clone_members(p: &Vec<(String, Amf3Value)>) -> (out: Vec<(String, Amf3Value)>)
    ensures
        member_views(out@) == member_views(p@),
    decreases p,
{
    let mut out: Vec<(String, Amf3Value)> = Vec::new();
    let mut i: usize = 0;
    while i < p.len()
        invariant
            i <= p@.len(),
            out@.len() == i,
            forall|k: int|
                0 <= k < i ==> (#[trigger] out@[k]).0@ == p@[k].0@ && out@[k].1@ == p@[k].1@,
        decreases p@.len() - i,
    {
        let v = p[i].1.clone();
        out.push((p[i].0.clone(), v));
        i = i + 1;
    }
    assert(member_views(out@) =~= member_views(p@));
    out
}

fn clone_values(a: &Vec<Amf3Value>) -> (out: Vec<Amf3Value>)
    ensures
        views(out@) == views(a@),
    decreases a,
{
    let mut out: Vec<Amf3Value> = Vec::new();
    let mut i: usize = 0;
    while i < a.len()
        invariant
            i <= a@.len(),
            out@.len() == i,
            forall|k: int| 0 <= k < i ==> (#[trigger] out@[k])@ == a@[k]@,
        decreases a@.len() - i,
    {
        let v = a[i].clone();
        out.push(v);
        i = i + 1;
    }
    assert(views(out@) =~= views(a@));
    out
}

fn clone_entries(p: &Vec<(Amf3Value, Amf3Value)>) -> (out: Vec<(Amf3Value, Amf3Value)>)
    ensures
        entry_views(out@) == entry_views(p@),
    decreases p,
{
    let mut out: Vec<(Amf3Value, Amf3Value)> = Vec::new();
    let mut i: usize = 0;
    while i < p.len()
        invariant
            i <= p@.len(),
            out@.len() == i,
            forall|k: int|
                0 <= k < i ==> (#[trigger] out@[k]).0@ == p@[k].0@ && out@[k].1@ == p@[k].1@,
        decreases p@.len() - i,
    {
        let k = p[i].0.clone();
        let v = p[i].1.clone();
        out.push((k, v));
        i = i + 1;
    }
    assert(entry_views(out@) =~= entry_views(p@));
    out
}

fn clone_bytes(b: &Option<Vec<u8>>) -> (out: Option<Vec<u8>>)
    ensures
        bytes_view(out) == bytes_view(*b),
{
    match b {
        Some(v) => Some(vstd::slice::slice_to_vec(v.as_slice())),
        None => None,
    }
}

impl Clone for Amf3Value {
    fn clone(&self) -> (r: Amf3Value)
        ensures
            r@ == self@,
        decreases self,
    {
        let r = match self {
            Amf3Value::Undefined => Amf3Value::Undefined,
            Amf3Value::Null => Amf3Value::Null,
            Amf3Value::Boolean(b) => Amf3Value::Boolean(*b),
            Amf3Value::Integer(n) => Amf3Value::Integer(*n),
            Amf3Value::Double(d) => Amf3Value::Double(*d),
            Amf3Value::String(s) => Amf3Value::String(s.clone()),
            Amf3Value::XmlDocument(s) => Amf3Value::XmlDocument(s.clone()),
            Amf3Value::Xml(s) => Amf3Value::Xml(s.clone()),
            Amf3Value::Date(d) => Amf3Value::Date(*d),
            Amf3Value::Array { dense, assoc } => Amf3Value::Array {
                dense: clone_values(dense),
                assoc: clone_members(assoc),
            },
            Amf3Value::Object {
                class_name,
                dynamic,
                sealed,
                dynamic_members,
                externalizable_body,
            } => Amf3Value::Object {
                class_name: class_name.clone(),
                dynamic: *dynamic,
                sealed: clone_members(sealed),
                dynamic_members: clone_members(dynamic_members),
                externalizable_body: clone_bytes(externalizable_body),
            },
            Amf3Value::ByteArray(b) => Amf3Value::ByteArray(
                vstd::slice::slice_to_vec(b.as_slice()),
            ),
            Amf3Value::VectorInt { fixed, items } => Amf3Value::VectorInt {
                fixed: *fixed,
                items: vstd::slice::slice_to_vec(items.as_slice()),
            },
            Amf3Value::VectorUInt { fixed, items } => Amf3Value::VectorUInt {
                fixed: *fixed,
                items: vstd::slice::slice_to_vec(items.as_slice()),
            },
            Amf3Value::VectorDouble { fixed, items } => Amf3Value::VectorDouble {
                fixed: *fixed,
                items: vstd::slice::slice_to_vec(items.as_slice()),
            },
            Amf3Value::VectorObject { fixed, object_type_name, items } => Amf3Value::VectorObject {
                fixed: *fixed,
                object_type_name: object_type_name.clone(),
                items: clone_values(items),
            },
            Amf3Value::Dictionary { weak_keys, entries } => Amf3Value::Dictionary {
                weak_keys: *weak_keys,
                entries: clone_entries(entries),
            },
        };
        proof {
            lemma_container_views(*self);
            lemma_container_views(r);
        }
        r
    }
}

/// The first member called `key` from the `i`th on.
pub open spec fn member_named(members: Seq<(Seq<char>, Amf3)>, i: int, key: Seq<char>) -> Option<
    Amf3,
>
    decreases members.len() - i,
{
    if i >= members.len() {
        None
    } else if members[i].0 == key {
        Some(members[i].1)
    } else {
        member_named(members, i + 1, key)
    }
}

impl Amf3 {
    /// The first member called `key`: sealed members come before dynamic ones.
    pub open spec fn get(self, key: Seq<char>) -> Option<Amf3> {
        match self {
            Amf3::Object { sealed, dynamic_members, .. } => match member_named(sealed, 0, key) {
                Some(v) => Some(v),
                None => member_named(dynamic_members, 0, key),
            },
            _ => None,
        }
    }

    /// The text of a string or document.
    pub open spec fn text(self) -> Option<Seq<char>> {
        match self {
            Amf3::String(s) => Some(s),
            Amf3::Xml(s) => Some(s),
            Amf3::XmlDocument(s) => Some(s),
            _ => None,
        }
    }
}

fn find_member<'a>(members: &'a Vec<(String, Amf3Value)>, key: &str) -> (r: Option<&'a Amf3Value>)
    ensures
        match r {
            Some(v) => member_named(member_views(members@), 0, key@) == Some(v@),
            None => member_named(member_views(members@), 0, key@) is None,
        },
{
    let ghost all = member_views(members@);
    let mut i: usize = 0;
    while i < members.len()
        invariant
            all == member_views(members@),
            i <= members@.len(),
            member_named(all, 0, key@) == member_named(all, i as int, key@),
        decreases members@.len() - i,
    {
        if same_text(members[i].0.as_str(), key) {
            return Some(&members[i].1);
        }
        i = i + 1;
    }
    None
}

impl Amf3Value {
    /// The first member of an object called `key`.
    pub fn get(&self, key: &str) -> (r: Option<&Amf3Value>)
        ensures
            match r {
                Some(v) => self@.get(key@) == Some(v@),
                None => self@.get(key@) is None,
            },
    {
        proof {
            lemma_container_views(*self);
        }
        match self {
            Amf3Value::Object { sealed, dynamic_members, .. } => match find_member(sealed, key) {
                Some(v) => Some(v),
                None => find_member(dynamic_members, key),
            },
            _ => None,
        }
    }

    /// The text of a string or document.
    pub fn as_str(&self) -> (r: Option<&str>)
        ensures
            match r {
                Some(s) => self@.text() == Some(s@),
                None => self@.text() is None,
            },
    {
        match self {
            Amf3Value::String(s) => Some(s.as_str()),
            Amf3Value::Xml(s) => Some(s.as_str()),
            Amf3Value::XmlDocument(s) => Some(s.as_str()),
            _ => None,
        }
    }

    /// The integer, if this is one.
    pub fn as_i32(&self) -> (r: Option<i32>)
        ensures
            r == (match self@ {
                Amf3::Integer(n) => Some(n),
                _ => None,
            }),
    {
        match self {
            Amf3Value::Integer(n) => Some(*n),
            _ => None,
        }
    }

    /// The number, if this is a double or an integer.
    pub fn as_f64(&self) -> (r: Option<Double>)
        ensures
            r == (match self@ {
                Amf3::Double(bits) => Some(Double { bits }),
                Amf3::Integer(n) => Some(Double { bits: int_bits(n as int) }),
                _ => None,
            }),
    {
        match self {
            Amf3Value::Double(d) => Some(*d),
            Amf3Value::Integer(n) => Some(Double::from_i32(*n)),
            _ => None,
        }
    }

    /// The truth value, if this is one.
    pub fn as_bool(&self) -> (r: Option<bool>)
        ensures
            r == (match self@ {
                Amf3::Boolean(b) => Some(b),
                _ => None,
            }),
    {
        match self {
            Amf3Value::Boolean(b) => Some(*b),
            _ => None,
        }
    }
}

/// An object without class or dynamic members.
pub fn anon_object(pairs: Vec<(String, Amf3Value)>) -> (v: Amf3Value)
    ensures
        v@ == (Amf3::Object {
            class_name: Seq::empty(),
            dynamic: false,
            sealed: member_views(pairs@),
            dynamic_members: Seq::empty(),
            externalizable_body: None,
        }),
{
    let v = Amf3Value::Object {
        class_name: String::new(),
        dynamic: false,
        sealed: pairs,
        dynamic_members: Vec::new(),
        externalizable_body: None,
    };
    proof {
        lemma_container_views(v);
        assert(member_views(Seq::empty()) =~= Seq::empty());
    }
    v
}

/// An object without class or sealed members.
pub fn dynamic_object(pairs: Vec<(String, Amf3Value)>) -> (v: Amf3Value)
    ensures
        v@ == (Amf3::Object {
            class_name: Seq::empty(),
            dynamic: true,
            sealed: Seq::empty(),
            dynamic_members: member_views(pairs@),
            externalizable_body: None,
        }),
{
    let v = Amf3Value::Object {
        class_name: String::new(),
        dynamic: true,
        sealed: Vec::new(),
        dynamic_members: pairs,
        externalizable_body: None,
    };
    proof {
        lemma_container_views(v);
        assert(member_views(Seq::empty()) =~= Seq::empty());
    }
    v
}

} // verus!
