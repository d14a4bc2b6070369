//! Finding characters and texts in texts.

use vstd::prelude::*;

verus! {

/// Where `c` first stands, from the `i`th character on.
pub open spec fn first_char(s: Seq<char>, i: int, c: char) -> Option<int>
    decreases s.len() - i,
{
    if i >= s.len() {
        None
    } else if s[i] == c {
        Some(i)
    } else {
        first_char(s, i + 1, c)
    }
}

/// Where `c` last stands among the first `n` characters.
pub open spec fn last_char(s: Seq<char>, n: int, c: char) -> Option<int>
    decreases n,
{
    if n <= 0 {
        None
    } else if s[n - 1] == c {
        Some(n - 1)
    } else {
        last_char(s, n - 1, c)
    }
}

/// Whether `pat` stands at the `i`th character.
pub open spec fn stands_at(s: Seq<char>, i: int, pat: Seq<char>) -> bool {
    0 <= i && i + pat.len() <= s.len() && s.subrange(i, i + pat.len()) == pat
}

/// Where `pat` first stands, from the `i`th character on.
pub open spec fn first_text(s: Seq<char>, i: int, pat: Seq<char>) -> Option<int>
    decreases s.len() - i,
{
    if i >= s.len() {
        None
    } else if stands_at(s, i, pat) {
        Some(i)
    } else {
        first_text(s, i + 1, pat)
    }
}

/// What stands before the `i`th character.
pub open spec fn head(s: Seq<char>, i: int) -> Seq<char> {
    s.subrange(0, i)
}

/// What stands from the `i`th character on.
pub open spec fn tail(s: Seq<char>, i: int) -> Seq<char> {
    s.subrange(i, s.len() as int)
}

/// Where `c` first stands in `s`.
pub fn find_char(s: &str, c: char) -> (r: Option<usize>)
    ensures
        match r {
            Some(i) => first_char(s@, 0, c) == Some(i as int) && i < s@.len() <= usize::MAX
                && s@[i as int] == c,
            None => first_char(s@, 0, c) is None,
        },
{
    let n: usize = s.unicode_len();
    let mut i: usize = 0;
    while i < n
        invariant
            n == s@.len(),
            i <= n,
            first_char(s@, 0, c) == first_char(s@, i as int, c),
        decreases n - i,
    {
        if s.get_char(i) == c {
            return Some(i);
        }
        i = i + 1;
    }
    None
}

/// Where `c` last stands in `s`.
pub fn rfind_char(s: &str, c: char) -> (r: Option<usize>)
    ensures
        match r {
            Some(i) => last_char(s@, s@.len() as int, c) == Some(i as int) && i < s@.len()
                <= usize::MAX && s@[i as int] == c,
            None => last_char(s@, s@.len() as int, c) is None,
        },
{
    let n: usize = s.unicode_len();
    let mut i: usize = n;
    while i > 0
        invariant
            n == s@.len(),
            i <= n,
            last_char(s@, n as int, c) == last_char(s@, i as int, c),
        decreases i,
    {
        if s.get_char(i - 1) == c {
            return Some(i - 1);
        }
        i = i - 1;
    }
    None
}

fn matches_at(s: &str, i: usize, pat: &str) -> (b: bool)
    ensures
        b == stands_at(s@, i as int, pat@),
{
    let n: usize = s.unicode_len();
    let m: usize = pat.unicode_len();
    if i > n || n - i < m {
        return false;
    }
    let mut k: usize = 0;
    while k < m
        invariant
            n == s@.len(),
            m == pat@.len(),
            i <= n,
            n - i >= m,
            k <= m,
            forall|j: int| 0 <= j < k ==> s@[i + j] == pat@[j],
        decreases m - k,
    {
        if s.get_char(i + k) != pat.get_char(k) {
            assert(s@.subrange(i as int, i + m)[k as int] == s@[i + k]);
            return false;
        }
        k = k + 1;
    }
    assert(s@.subrange(i as int, i + m) =~= pat@);
    true
}

/// Whether `s` starts with `pat`.
pub fn starts_with(s: &str, pat: &str) -> (b: bool)
    ensures
        b == stands_at(s@, 0, pat@),
{
    matches_at(s, 0, pat)
}

/// Where `pat` first stands in `s`.
pub fn find_text(s: &str, pat: &str) -> (r: Option<usize>)
    ensures
        match r {
            Some(i) => first_text(s@, 0, pat@) == Some(i as int) && stands_at(s@, i as int, pat@)
                && s@.len() <= usize::MAX,
            None => first_text(s@, 0, pat@) is None,
        },
{
    let n: usize = s.unicode_len();
    let mut i: usize = 0;
    while i < n
        invariant
            n == s@.len(),
            i <= n,
            first_text(s@, 0, pat@) == first_text(s@, i as int, pat@),
        decreases n - i,
    {
        if matches_at(s, i, pat) {
            return Some(i);
        }
        i = i + 1;
    }
    None
}

/// What stands before the `i`th character.
pub fn head_of(s: &str, i: usize) -> (r: &str)
    requires
        i <= s@.len(),
    ensures
        r@ == head(s@, i as int),
{
    s.substring_char(0, i)
}

/// What stands from the `i`th character on.
pub fn tail_of(s: &str, i: usize) -> (r: &str)
    requires
        i <= s@.len(),
    ensures
        r@ == tail(s@, i as int),
{
    let n: usize = s.unicode_len();
    s.substring_char(i, n)
}

/// A character that stands nowhere before `i` and stands there is first found
/// there.
pub proof fn lemma_first_char(s: Seq<char>, from: int, i: int, c: char)
    requires
        0 <= from <= i < s.len(),
        forall|k: int| from <= k < i ==> s[k] != c,
        s[i] == c,
    ensures
        first_char(s, from, c) == Some(i),
    decreases i - from,
{
    if from < i {
        lemma_first_char(s, from + 1, i, c);
    }
}

/// A character that stands nowhere is not found.
pub proof fn lemma_no_char(s: Seq<char>, from: int, c: char)
    requires
        0 <= from,
        forall|k: int| from <= k < s.len() ==> s[k] != c,
    ensures
        first_char(s, from, c) is None,
    decreases s.len() - from,
{
    if from < s.len() {
        lemma_no_char(s, from + 1, c);
    }
}

/// What was found first, and that nothing stands before it.
pub proof fn lemma_found_char(s: Seq<char>, from: int, c: char)
    requires
        0 <= from,
    ensures
        match first_char(s, from, c) {
            Some(i) => from <= i < s.len() && s[i] == c && forall|k: int|
                from <= k < i ==> s[k] != c,
            None => forall|k: int| from <= k < s.len() ==> s[k] != c,
        },
    decreases s.len() - from,
{
    if from < s.len() && s[from] != c {
        lemma_found_char(s, from + 1, c);
    }
}

/// A character that stands at `i` and nowhere behind it is last found there.
pub proof fn lemma_last_char(s: Seq<char>, n: int, i: int, c: char)
    requires
        0 <= i < n <= s.len(),
        forall|k: int| i < k < n ==> s[k] != c,
        s[i] == c,
    ensures
        last_char(s, n, c) == Some(i),
    decreases n - i,
{
    if i < n - 1 {
        lemma_last_char(s, n - 1, i, c);
    }
}

/// A text that stands at `i` and nowhere before is first found there.
pub proof fn lemma_first_text(s: Seq<char>, from: int, i: int, pat: Seq<char>)
    requires
        0 <= from <= i < s.len(),
        forall|k: int| from <= k < i ==> !stands_at(s, k, pat),
        stands_at(s, i, pat),
    ensures
        first_text(s, from, pat) == Some(i),
    decreases i - from,
{
    if from < i {
        lemma_first_text(s, from + 1, i, pat);
    }
}

// ---------------------------------------------------------------------------
// Laws
// ---------------------------------------------------------------------------

proof fn lemma_first_char_place(s: Seq<char>, i: int, c: char)
    requires
        0 <= i <= s.len(),
    ensures
        match first_char(s, i, c) {
            Some(k) => i <= k < s.len() && s[k] == c && forall|j: int| i <= j < k ==> s[j] != c,
            None => forall|j: int| i <= j < s.len() ==> s[j] != c,
        },
    decreases s.len() - i,
{
    if i < s.len() && s[i] != c {
        lemma_first_char_place(s, i + 1, c);
    }
}

proof fn lemma_last_char_place(s: Seq<char>, n: int, c: char)
    requires
        0 <= n <= s.len(),
    ensures
        match last_char(s, n, c) {
            Some(k) => 0 <= k < n && s[k] == c && forall|j: int| k < j < n ==> s[j] != c,
            None => forall|j: int| 0 <= j < n ==> s[j] != c,
        },
    decreases n,
{
    if n > 0 && s[n - 1] != c {
        lemma_last_char_place(s, n - 1, c);
    }
}

proof fn lemma_first_text_place(s: Seq<char>, i: int, pat: Seq<char>)
    requires
        0 <= i <= s.len(),
    ensures
        match first_text(s, i, pat) {
            Some(k) => i <= k < s.len() && stands_at(s, k, pat) && forall|j: int|
                i <= j < k ==> !stands_at(s, j, pat),
            None => forall|j: int| i <= j < s.len() ==> !stands_at(s, j, pat),
        },
    decreases s.len() - i,
{
    if i < s.len() && !stands_at(s, i, pat) {
        lemma_first_text_place(s, i + 1, pat);
    }
}

/// A character is found where it stands, with none before it from the front and none behind
/// it from the back, and is not found exactly if it stands nowhere.
pub proof fn law_characters_are_found(s: &str, c: char, a: Option<usize>, b: Option<usize>)
    requires
        call_ensures(find_char, (s, c), a),
        call_ensures(rfind_char, (s, c), b),
    ensures
        match a {
            Some(i) => i < s@.len() && s@[i as int] == c && forall|j: int|
                0 <= j < i ==> s@[j] != c,
            None => forall|j: int| 0 <= j < s@.len() ==> s@[j] != c,
        },
        match b {
            Some(i) => i < s@.len() && s@[i as int] == c && forall|j: int|
                i < j < s@.len() ==> s@[j] != c,
            None => forall|j: int| 0 <= j < s@.len() ==> s@[j] != c,
        },
{
    lemma_first_char_place(s@, 0, c);
    lemma_last_char_place(s@, s@.len() as int, c);
}

/// A text is found where it first stands: between what comes before and what comes behind,
/// with no earlier place.
pub proof fn law_texts_are_found(s: &str, pat: &str, starts: bool, r: Option<usize>)
    requires
        call_ensures(starts_with, (s, pat), starts),
        call_ensures(find_text, (s, pat), r),
    ensures
        starts <==> exists|rest: Seq<char>| s@ == pat@ + rest,
        match r {
            Some(i) => {
                &&& i < s@.len()
                &&& exists|before: Seq<char>, rest: Seq<char>|
                    before.len() == i && s@ == before + pat@ + rest
                &&& forall|before: Seq<char>, rest: Seq<char>|
                    before.len() < i ==> s@ != before + pat@ + rest
            },
            None => forall|before: Seq<char>, rest: Seq<char>|
                before.len() < s@.len() ==> s@ != before + pat@ + rest,
        },
{
    lemma_first_text_place(s@, 0, pat@);
    if starts {
        assert(s@ =~= pat@ + s@.subrange(pat@.len() as int, s@.len() as int));
    }
    assert forall|rest: Seq<char>| s@ == pat@ + rest implies stands_at(s@, 0, pat@) by {
        assert(s@.subrange(0, pat@.len() as int) =~= pat@);
    }
    assert forall|before: Seq<char>, rest: Seq<char>| s@ == before + pat@ + rest implies stands_at(
        s@,
        before.len() as int,
        pat@,
    ) by {
        assert(s@.subrange(before.len() as int, before.len() as int + pat@.len()) =~= pat@);
    }
    if let Some(i) = r {
        let before = s@.subrange(0, i as int);
        let rest = s@.subrange(i + pat@.len(), s@.len() as int);
        assert(s@.subrange(i as int, i + pat@.len()) == pat@);
        assert forall|k: int| 0 <= k < s@.len() implies s@[k] == (before + pat@ + rest)[k] by {
            if i <= k < i + pat@.len() {
                assert(pat@[k - i] == s@.subrange(i as int, i + pat@.len())[k - i]);
            }
        }
        assert(s@ =~= before + pat@ + rest);
        assert(before.len() == i && s@ == before + pat@ + rest);
    }
}

/// The two parts of a text that is cut make the text again.
pub proof fn law_texts_are_cut(s: &str, i: usize, a: &str, b: &str)
    requires
        i <= s@.len(),
        call_ensures(head_of, (s, i), a),
        call_ensures(tail_of, (s, i), b),
    ensures
        a@.len() == i,
        a@ + b@ == s@,
{
    assert(a@ + b@ =~= s@);
}

} // verus!
