//! Spec functions shared by the models.

use vstd::prelude::*;

verus! {

/// The views of a run of values.
pub open spec fn views<T: View>(s: Seq<T>) -> Seq<T::V> {
    Seq::new(s.len(), |i: int| s[i]@)
}

/// The view of an optional value.
pub open spec fn opt_view<T: View>(o: Option<T>) -> Option<T::V> {
    match o {
        Some(v) => Some(v@),
        None => None,
    }
}

/// `front` before whatever comes.
pub open spec fn prepended<A, E>(
    front: Seq<A>,
    rest: core::result::Result<Seq<A>, E>,
) -> core::result::Result<Seq<A>, E> {
    match rest {
        Ok(s) => Ok(front + s),
        Err(e) => Err(e),
    }
}

pub proof fn lemma_prepend_nothing<A, E>(r: core::result::Result<Seq<A>, E>)
    ensures
        prepended(Seq::empty(), r) == r,
{
    if let Ok(s) = r {
        assert(Seq::<A>::empty() + s =~= s);
    }
}

pub proof fn lemma_prepend_twice<A, E>(
    a: Seq<A>,
    b: Seq<A>,
    r: core::result::Result<Seq<A>, E>,
)
    ensures
        prepended(a, prepended(b, r)) == prepended(a + b, r),
{
    if let Ok(s) = r {
        assert(a + (b + s) =~= a + b + s);
    }
}

pub proof fn lemma_associative<A>(a: Seq<A>, b: Seq<A>, c: Seq<A>)
    ensures
        a + (b + c) == (a + b) + c,
{
    assert(a + (b + c) =~= (a + b) + c);
}

pub proof fn lemma_around_nothing<A>(a: Seq<A>)
    ensures
        a + Seq::<A>::empty() == a,
        Seq::<A>::empty() + a == a,
{
    assert(a + Seq::<A>::empty() =~= a);
    assert(Seq::<A>::empty() + a =~= a);
}

} // verus!
