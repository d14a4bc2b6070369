//! Objects that are built from optional fields, and what is found in them.

use vstd::prelude::*;
#[allow(unused_imports)]
use vstd::utf8::encode_utf8;
use crate::amf::Amf0Value;
#[allow(unused_imports)]
use crate::amf::{pair_views, value_named, Amf0};
#[allow(unused_imports)]
use crate::amf_laws::{fits, pairs_fit};
#[allow(unused_imports)]
use crate::model::opt_view;
use crate::number::Double;

verus! {

/// Fields with their values, where they have one.
pub type Fields = Seq<(Seq<char>, Option<Amf0>)>;

/// One field, if it has a value.
pub open spec fn one(field: (Seq<char>, Option<Amf0>)) -> Seq<(Seq<char>, Amf0)> {
    match field.1 {
        Some(v) => seq![(field.0, v)],
        None => Seq::empty(),
    }
}

/// The fields that have a value, in order.
pub open spec fn present(fields: Fields) -> Seq<(Seq<char>, Amf0)>
    decreases fields.len(),
{
    if fields.len() == 0 {
        Seq::empty()
    } else {
        present(fields.drop_last()) + one(fields.last())
    }
}

/// The last value called `key` among the first `n` pairs.
pub open spec fn last_named(p: Seq<(Seq<char>, Amf0)>, n: int, key: Seq<char>) -> Option<Amf0>
    decreases n,
{
    if n <= 0 {
        None
    } else if p[n - 1].0 == key {
        Some(p[n - 1].1)
    } else {
        last_named(p, n - 1, key)
    }
}

/// Whether no two fields have the same name.
pub open spec fn distinct(fields: Fields) -> bool {
    forall|i: int, j: int|
        0 <= i < j < fields.len() ==> (#[trigger] fields[i]).0 != (#[trigger] fields[j]).0
}

/// A field with a number.
pub open spec fn number_field(key: Seq<char>, v: Option<Double>) -> (Seq<char>, Option<Amf0>) {
    (
        key,
        match v {
            Some(d) => Some(Amf0::Number(d.bits)),
            None => None,
        },
    )
}

/// A field with a truth value.
pub open spec fn bool_field(key: Seq<char>, v: Option<bool>) -> (Seq<char>, Option<Amf0>) {
    (
        key,
        match v {
            Some(b) => Some(Amf0::Boolean(b)),
            None => None,
        },
    )
}

/// A field with a text.
pub open spec fn text_field(key: Seq<char>, v: Option<Seq<char>>) -> (Seq<char>, Option<Amf0>) {
    (
        key,
        match v {
            Some(s) => Some(Amf0::String(s)),
            None => None,
        },
    )
}

/// What tells names apart: their length and four of their characters.
pub open spec fn mark(s: Seq<char>) -> int {
    let n = s.len() as int;
    (((n * 256 + s[0] as int) * 256 + s[1] as int) * 256 + s[n - 4] as int) * 256 + s[n - 1] as int
}

proof fn lemma_named_append(
    a: Seq<(Seq<char>, Amf0)>,
    b: Seq<(Seq<char>, Amf0)>,
    i: int,
    key: Seq<char>,
)
    requires
        0 <= i <= a.len(),
    ensures
        value_named(a + b, i, key) == match value_named(a, i, key) {
            Some(v) => Some(v),
            None => value_named(b, 0, key),
        },
    decreases a.len() - i,
{
    if i < a.len() {
        assert((a + b)[i] == a[i]);
        lemma_named_append(a, b, i + 1, key);
    } else {
        lemma_named_shift(a, b, 0, key);
    }
}

proof fn lemma_named_shift(
    a: Seq<(Seq<char>, Amf0)>,
    b: Seq<(Seq<char>, Amf0)>,
    i: int,
    key: Seq<char>,
)
    requires
        0 <= i <= b.len(),
    ensures
        value_named(a + b, a.len() + i, key) == value_named(b, i, key),
    decreases b.len() - i,
{
    if i < b.len() {
        assert((a + b)[a.len() + i] == b[i]);
        lemma_named_shift(a, b, i + 1, key);
    }
}

/// A name that no field has is not found.
proof fn lemma_absent(fields: Fields, key: Seq<char>)
    requires
        forall|i: int| 0 <= i < fields.len() ==> (#[trigger] fields[i]).0 != key,
    ensures
        value_named(present(fields), 0, key) is None,
    decreases fields.len(),
{
    if fields.len() > 0 {
        let front = fields.drop_last();
        assert forall|i: int| 0 <= i < front.len() implies (#[trigger] front[i]).0 != key by {
            assert(front[i] == fields[i]);
        }
        lemma_absent(front, key);
        lemma_named_append(present(front), one(fields.last()), 0, key);
        assert(fields.last() == fields[fields.len() - 1]);
        assert(value_named(one(fields.last()), 0, key) is None) by {
            reveal_with_fuel(value_named, 2);
        }
    }
}

/// Under a field's name its value is found.
pub proof fn lemma_first_present(fields: Fields, i: int)
    requires
        distinct(fields),
        0 <= i < fields.len(),
    ensures
        value_named(present(fields), 0, fields[i].0) == fields[i].1,
    decreases fields.len(),
{
    let front = fields.drop_last();
    let key = fields[i].0;
    lemma_named_append(present(front), one(fields.last()), 0, key);
    if i < front.len() {
        assert forall|a: int, b: int| 0 <= a < b < front.len() implies (#[trigger] front[a]).0 != (
        #[trigger] front[b]).0 by {
            assert(front[a] == fields[a] && front[b] == fields[b]);
        }
        lemma_first_present(front, i);
        assert(front[i] == fields[i]);
        assert(fields.last() == fields[fields.len() - 1]);
        assert(value_named(one(fields.last()), 0, key) is None) by {
            reveal_with_fuel(value_named, 2);
        }
    } else {
        assert forall|a: int| 0 <= a < front.len() implies (#[trigger] front[a]).0 != key by {
            assert(front[a] == fields[a]);
        }
        lemma_absent(front, key);
        assert(value_named(one(fields.last()), 0, key) == fields[i].1) by {
            reveal_with_fuel(value_named, 2);
        }
    }
}

/// Where every name is marked apart, names are distinct.
pub proof fn lemma_marked(fields: Fields, marks: Seq<int>)
    requires
        marks.len() == fields.len(),
        forall|i: int| 0 <= i < fields.len() ==> mark((#[trigger] fields[i]).0) == marks[i],
        forall|i: int, j: int| 0 <= i < j < marks.len() ==> marks[i] != marks[j],
    ensures
        distinct(fields),
{
}

/// One more pair is the last of its name.
pub proof fn lemma_last_push(
    p: Seq<(Seq<char>, Amf0)>,
    x: (Seq<char>, Amf0),
    key: Seq<char>,
)
    ensures
        last_named(p.push(x), p.len() + 1int, key) == if x.0 == key {
            Some(x.1)
        } else {
            last_named(p, p.len() as int, key)
        },
{
    lemma_last_same(p, p.push(x), p.len() as int, key);
}

proof fn lemma_last_same(
    p: Seq<(Seq<char>, Amf0)>,
    q: Seq<(Seq<char>, Amf0)>,
    n: int,
    key: Seq<char>,
)
    requires
        n <= p.len(),
        n <= q.len(),
        forall|i: int| 0 <= i < n ==> p[i] == q[i],
    ensures
        last_named(p, n, key) == last_named(q, n, key),
    decreases n,
{
    if n > 0 {
        lemma_last_same(p, q, n - 1, key);
    }
}

/// The last of a name is looked for behind first.
pub proof fn lemma_last_append(
    a: Seq<(Seq<char>, Amf0)>,
    b: Seq<(Seq<char>, Amf0)>,
    n: int,
    key: Seq<char>,
)
    requires
        0 <= n <= b.len(),
    ensures
        last_named(a + b, a.len() + n, key) == match last_named(b, n, key) {
            Some(v) => Some(v),
            None => last_named(a, a.len() as int, key),
        },
    decreases n,
{
    if n > 0 {
        assert((a + b)[a.len() + n - 1] == b[n - 1]);
        lemma_last_append(a, b, n - 1, key);
    } else {
        lemma_last_same(a, a + b, a.len() as int, key);
    }
}

proof fn lemma_last_absent(p: Seq<(Seq<char>, Amf0)>, n: int, key: Seq<char>)
    requires
        n <= p.len(),
        forall|i: int| 0 <= i < n ==> (#[trigger] p[i]).0 != key,
    ensures
        last_named(p, n, key) is None,
    decreases n,
{
    if n > 0 {
        lemma_last_absent(p, n - 1, key);
    }
}

/// Whatever is present has the name of a field.
proof fn lemma_present_names(fields: Fields, k: int)
    requires
        0 <= k < present(fields).len(),
    ensures
        exists|i: int| 0 <= i < fields.len() && (#[trigger] fields[i]).0 == present(fields)[k].0,
    decreases fields.len(),
{
    let front = fields.drop_last();
    if k < present(front).len() {
        lemma_present_names(front, k);
        let i = choose|i: int|
            0 <= i < front.len() && (#[trigger] front[i]).0 == present(front)[k].0;
        assert(fields[i] == front[i]);
    } else {
        assert(fields.last() == fields[fields.len() - 1]);
    }
}

/// Under a field's name its value is the last one found, whatever other names
/// follow.
pub proof fn lemma_last_present(fields: Fields, others: Seq<(Seq<char>, Amf0)>, i: int)
    requires
        distinct(fields),
        0 <= i < fields.len(),
        forall|k: int| 0 <= k < others.len() ==> (#[trigger] others[k]).0 != fields[i].0,
    ensures
        last_named(
            present(fields) + others,
            (present(fields) + others).len() as int,
            fields[i].0,
        ) == fields[i].1,
{
    let key = fields[i].0;
    lemma_last_append(present(fields), others, others.len() as int, key);
    lemma_last_absent(others, others.len() as int, key);
    lemma_last_field(fields, i);
}

proof fn lemma_last_field(fields: Fields, i: int)
    requires
        distinct(fields),
        0 <= i < fields.len(),
    ensures
        last_named(present(fields), present(fields).len() as int, fields[i].0) == fields[i].1,
    decreases fields.len(),
{
    let front = fields.drop_last();
    let key = fields[i].0;
    let tail = one(fields.last());
    assert(fields.last() == fields[fields.len() - 1]);
    lemma_last_append(present(front), tail, tail.len() as int, key);
    if i < front.len() {
        assert forall|a: int, b: int| 0 <= a < b < front.len() implies (#[trigger] front[a]).0 != (
        #[trigger] front[b]).0 by {
            assert(front[a] == fields[a] && front[b] == fields[b]);
        }
        lemma_last_field(front, i);
        assert(front[i] == fields[i]);
        lemma_last_absent(tail, tail.len() as int, key);
    } else {
        assert forall|k: int| 0 <= k < present(front).len() implies (#[trigger] present(front)[k]).0
            != key by {
            lemma_present_names(front, k);
            let a = choose|a: int|
                0 <= a < front.len() && (#[trigger] front[a]).0 == present(front)[k].0;
            assert(front[a] == fields[a]);
        }
        lemma_last_absent(present(front), present(front).len() as int, key);
        reveal_with_fuel(last_named, 2);
    }
}

/// Text takes at most four bytes a character.
pub proof fn lemma_utf8_length(t: Seq<char>)
    ensures
        encode_utf8(t).len() <= 4 * t.len(),
    decreases t.len(),
{
    if t.len() > 0 {
        lemma_utf8_length(t.drop_first());
    }
}

proof fn lemma_pairs_fit_append(
    a: Seq<(Seq<char>, Amf0)>,
    b: Seq<(Seq<char>, Amf0)>,
    room: nat,
)
    requires
        pairs_fit(a, room),
        pairs_fit(b, room),
    ensures
        pairs_fit(a + b, room),
    decreases a.len(),
{
    if a.len() == 0 {
        assert(a + b =~= b);
    } else {
        let tail = a.subrange(1, a.len() as int);
        lemma_pairs_fit_append(tail, b, room);
        assert((a + b).subrange(1, (a + b).len() as int) =~= tail + b);
        assert((a + b)[0] == a[0]);
    }
}

/// Whether a field can be written: its name is neither empty nor long, and its
/// value fits.
pub open spec fn field_fits(field: (Seq<char>, Option<Amf0>), room: nat) -> bool {
    &&& 0 < field.0.len() <= 1000
    &&& match field.1 {
        Some(v) => fits(v, room),
        None => true,
    }
}

/// Fields that can be written make named values that can.
pub proof fn lemma_present_fits(fields: Fields, room: nat)
    requires
        forall|i: int| 0 <= i < fields.len() ==> field_fits(#[trigger] fields[i], room),
    ensures
        pairs_fit(present(fields), room),
    decreases fields.len(),
{
    if fields.len() > 0 {
        let front = fields.drop_last();
        let last = fields.last();
        assert(last == fields[fields.len() - 1]);
        assert forall|i: int| 0 <= i < front.len() implies field_fits(#[trigger] front[i], room) by {
            assert(front[i] == fields[i]);
        }
        lemma_present_fits(front, room);
        lemma_utf8_length(last.0);
        let tail = one(last);
        assert(pairs_fit(tail, room)) by {
            if last.1 is Some {
                assert(tail.subrange(1, 1) =~= Seq::empty());
                assert(pairs_fit(tail.subrange(1, tail.len() as int), room));
            }
        }
        lemma_pairs_fit_append(present(front), tail, room);
    }
}

/// A list of named values in the making.
pub struct FieldList {
    pairs: Vec<(String, Amf0Value)>,
    fields: Ghost<Fields>,
}

impl View for FieldList {
    type V = Fields;

    closed spec fn view(&self) -> Fields {
        self.fields@
    }
}

impl FieldList {
    /// Whether the list holds the fields that have a value.
    pub closed spec fn wf(&self) -> bool {
        pair_views(self.pairs@) == present(self.fields@)
    }

    /// No fields yet.
    pub fn new() -> (l: FieldList)
        ensures
            l.wf(),
            l@ == Fields::empty(),
    {
        let l = FieldList { pairs: Vec::new(), fields: Ghost(Seq::empty()) };
        assert(pair_views(l.pairs@) =~= Seq::empty());
        l
    }

    /// Add a field.
    pub fn push(&mut self, key: &str, value: Option<Amf0Value>)
        requires
            old(self).wf(),
        ensures
            final(self).wf(),
            final(self)@ == old(self)@.push((key@, opt_view(value))),
    {
        let ghost was = pair_views(self.pairs@);
        let ghost field = (key@, opt_view(value));
        let ghost fields = self.fields@.push(field);
        proof {
            assert(fields.drop_last() =~= self.fields@);
        }
        match value {
            Some(v) => {
                self.pairs.push((key.to_owned(), v));
            },
            None => {},
        }
        self.fields = Ghost(fields);
        assert(pair_views(self.pairs@) =~= was + one(field));
    }

    /// Add a number.
    pub fn push_num(&mut self, key: &str, value: Option<Double>)
        requires
            old(self).wf(),
        ensures
            final(self).wf(),
            final(self)@ == old(self)@.push(number_field(key@, value)),
    {
        match value {
            Some(d) => self.push(key, Some(Amf0Value::Number(d))),
            None => self.push(key, None),
        }
    }

    /// Add a truth value.
    pub fn push_bool(&mut self, key: &str, value: Option<bool>)
        requires
            old(self).wf(),
        ensures
            final(self).wf(),
            final(self)@ == old(self)@.push(bool_field(key@, value)),
    {
        match value {
            Some(b) => self.push(key, Some(Amf0Value::Boolean(b))),
            None => self.push(key, None),
        }
    }

    /// The named values.
    pub fn into_pairs(self) -> (pairs: Vec<(String, Amf0Value)>)
        requires
            self.wf(),
        ensures
            pair_views(pairs@) == present(self@),
    {
        self.pairs
    }
}

/// A value of a name counts from the last pair that has the name: the pair at
/// `i` is found where no later one is called the same, and nothing is found where
/// no pair has the name.
pub proof fn law_last_of_a_name_counts(p: Seq<(Seq<char>, Amf0)>, i: int, key: Seq<char>)
    ensures
        0 <= i < p.len() && p[i].0 == key && (forall|j: int|
            i < j < p.len() ==> (#[trigger] p[j]).0 != key) ==> last_named(
            p,
            p.len() as int,
            key,
        ) == Some(p[i].1),
        (forall|j: int| 0 <= j < p.len() ==> (#[trigger] p[j]).0 != key) ==> last_named(
            p,
            p.len() as int,
            key,
        ) is None,
{
    if 0 <= i < p.len() && p[i].0 == key && (forall|j: int|
        i < j < p.len() ==> (#[trigger] p[j]).0 != key) {
        lemma_last_from(p, i, p.len() as int, key);
    }
    if forall|j: int| 0 <= j < p.len() ==> (#[trigger] p[j]).0 != key {
        lemma_none_from(p, p.len() as int, key);
    }
}

proof fn lemma_last_from(p: Seq<(Seq<char>, Amf0)>, i: int, n: int, key: Seq<char>)
    requires
        0 <= i < n <= p.len(),
        p[i].0 == key,
        forall|j: int| i < j < n ==> (#[trigger] p[j]).0 != key,
    ensures
        last_named(p, n, key) == Some(p[i].1),
    decreases n,
{
    if n > i + 1 {
        lemma_last_from(p, i, n - 1, key);
    }
}

proof fn lemma_none_from(p: Seq<(Seq<char>, Amf0)>, n: int, key: Seq<char>)
    requires
        0 <= n <= p.len(),
        forall|j: int| 0 <= j < n ==> (#[trigger] p[j]).0 != key,
    ensures
        last_named(p, n, key) is None,
    decreases n,
{
    if n > 0 {
        lemma_none_from(p, n - 1, key);
    }
}

/// Looking up a name finds the first pair that has it, and nothing where no pair
/// has it.
pub proof fn law_first_of_a_name_is_found(p: Seq<(Seq<char>, Amf0)>, i: int, key: Seq<char>)
    ensures
        0 <= i < p.len() && p[i].0 == key && (forall|j: int|
            0 <= j < i ==> (#[trigger] p[j]).0 != key) ==> value_named(p, 0, key) == Some(p[i].1),
        (forall|j: int| 0 <= j < p.len() ==> (#[trigger] p[j]).0 != key) ==> value_named(
            p,
            0,
            key,
        ) is None,
{
    if 0 <= i < p.len() && p[i].0 == key && (forall|j: int|
        0 <= j < i ==> (#[trigger] p[j]).0 != key) {
        lemma_first_from(p, 0, i, key);
    }
    if forall|j: int| 0 <= j < p.len() ==> (#[trigger] p[j]).0 != key {
        lemma_unnamed_from(p, 0, key);
    }
}

proof fn lemma_first_from(p: Seq<(Seq<char>, Amf0)>, k: int, i: int, key: Seq<char>)
    requires
        0 <= k <= i < p.len(),
        p[i].0 == key,
        forall|j: int| k <= j < i ==> (#[trigger] p[j]).0 != key,
    ensures
        value_named(p, k, key) == Some(p[i].1),
    decreases i - k,
{
    if k < i {
        lemma_first_from(p, k + 1, i, key);
    }
}

proof fn lemma_unnamed_from(p: Seq<(Seq<char>, Amf0)>, k: int, key: Seq<char>)
    requires
        0 <= k,
        forall|j: int| k <= j < p.len() ==> (#[trigger] p[j]).0 != key,
    ensures
        value_named(p, k, key) is None,
    decreases p.len() - k,
{
    if k < p.len() {
        lemma_unnamed_from(p, k + 1, key);
    }
}

/// The fields that are written are those with a value, in their order.
pub proof fn law_fields_with_a_value_are_written(f: Fields, key: Seq<char>, v: Amf0)
    ensures
        present(f.push((key, Some(v)))) == present(f).push((key, v)),
        present(f.push((key, None))) == present(f),
        present(Seq::empty()) == Seq::<(Seq<char>, Amf0)>::empty(),
{
    let a = f.push((key, Some(v)));
    let b = f.push((key, None::<Amf0>));
    assert(a.drop_last() =~= f);
    assert(b.drop_last() =~= f);
    assert(present(f) + one(a.last()) =~= present(f).push((key, v)));
    assert(present(f) + one(b.last()) =~= present(f));
}

/// A field is added behind the others, with its value in the type that it is added as, and
/// the fields with a value come out in order.
pub proof fn law_fields_are_added(
    key: &str,
    n: Option<Double>,
    b: Option<bool>,
    v: Option<Amf0Value>,
    f: &mut FieldList,
    g: &mut FieldList,
    h: &mut FieldList,
    list: FieldList,
    pairs: Vec<(String, Amf0Value)>,
)
    requires
        old(f).wf() && old(g).wf() && old(h).wf() && list.wf(),
        call_ensures(FieldList::push, (f, key, v), ()),
        call_ensures(FieldList::push_num, (g, key, n), ()),
        call_ensures(FieldList::push_bool, (h, key, b), ()),
        call_ensures(FieldList::into_pairs, (list,), pairs),
    ensures
        final(f)@ == old(f)@.push((key@, opt_view(v))),
        n is None ==> final(g)@ == old(g)@.push((key@, None)),
        n matches Some(x) ==> final(g)@ == old(g)@.push((key@, Some(Amf0::Number(x.bits)))),
        b is None ==> final(h)@ == old(h)@.push((key@, None)),
        b matches Some(x) ==> final(h)@ == old(h)@.push((key@, Some(Amf0::Boolean(x)))),
        pair_views(pairs@) == present(list@),
{
}

} // verus!
