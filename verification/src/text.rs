//! Searching a string for a character, by position counted in characters.

use vstd::prelude::*;
use vstd::std_specs::iter::IteratorSpec;
use vstd::string::StrSliceExecFns;

verus! {

/// `c` occurs in `s` at `i` and nowhere before.
pub open spec fn is_first_at(s: Seq<char>, c: char, i: int) -> bool {
    &&& 0 <= i < s.len()
    &&& s[i] == c
    &&& forall|j: int| 0 <= j < i ==> s[j] != c
}

/// `c` occurs in `s` at `i` and nowhere after.
pub open spec fn is_last_at(s: Seq<char>, c: char, i: int) -> bool {
    &&& 0 <= i < s.len()
    &&& s[i] == c
    &&& forall|j: int| i < j < s.len() ==> s[j] != c
}

/// The position of the first `c` in `s`, if there is one.
pub open spec fn first_index(s: Seq<char>, c: char) -> Option<int> {
    if exists|i: int| is_first_at(s, c, i) {
        Some(choose|i: int| is_first_at(s, c, i))
    } else {
        None
    }
}

/// The position of the last `c` in `s`, if there is one.
pub open spec fn last_index(s: Seq<char>, c: char) -> Option<int> {
    if exists|i: int| is_last_at(s, c, i) {
        Some(choose|i: int| is_last_at(s, c, i))
    } else {
        None
    }
}

/// A first occurrence is the only one: whatever position qualifies is the
/// one `first_index` names.
pub proof fn lemma_first_index_unique(s: Seq<char>, c: char, i: int)
    requires
        is_first_at(s, c, i),
    ensures
        first_index(s, c) == Some(i),
{
    let k = choose|k: int| is_first_at(s, c, k);
    assert(is_first_at(s, c, k));
    if k < i {
        assert(s[k] != c);
    } else if i < k {
        assert(s[i] != c);
    }
}

/// A last occurrence is the only one.
pub proof fn lemma_last_index_unique(s: Seq<char>, c: char, i: int)
    requires
        is_last_at(s, c, i),
    ensures
        last_index(s, c) == Some(i),
{
    let k = choose|k: int| is_last_at(s, c, k);
    assert(is_last_at(s, c, k));
    if k < i {
        assert(s[i] != c);
    } else if i < k {
        assert(s[k] != c);
    }
}

/// A string without `c` has neither a first nor a last occurrence of it.
pub proof fn lemma_absent_has_no_index(s: Seq<char>, c: char)
    requires
        forall|j: int| 0 <= j < s.len() ==> s[j] != c,
    ensures
        first_index(s, c).is_none(),
        last_index(s, c).is_none(),
{
    assert forall|i: int| !is_first_at(s, c, i) by {
        if 0 <= i < s.len() {
            assert(s[i] != c);
        }
    }
    assert forall|i: int| !is_last_at(s, c, i) by {
        if 0 <= i < s.len() {
            assert(s[i] != c);
        }
    }
}

/// Finds the first `c` in `s` in one pass over its characters.
pub fn find_first(s: &str, c: char) -> (r: Option<usize>)
    ensures
        r matches Some(i) ==> first_index(s@, c) == Some(i as int),
        r.is_none() ==> first_index(s@, c).is_none(),
{
    let n = s.unicode_len();
    let mut it = s.chars();
    let mut i: usize = 0;
    while i < n
        invariant
            n == s@.len(),
            i <= n,
            it.obeys_prophetic_iter_laws(),
            it.remaining() == s@.skip(i as int),
            forall|j: int| 0 <= j < i ==> s@[j] != c,
        decreases n - i,
    {
        let next = it.next();
        assert(next == Some(s@[i as int]));
        assert(it.remaining() == s@.skip(i as int + 1));
        match next {
            Some(ch) => {
                if ch == c {
                    proof {
                        lemma_first_index_unique(s@, c, i as int);
                    }
                    return Some(i);
                }
            },
            None => {},
        }
        i = i + 1;
    }
    proof {
        lemma_absent_has_no_index(s@, c);
    }
    None
}

/// Finds the last `c` in `s` in one pass over its characters.
pub fn find_last(s: &str, c: char) -> (r: Option<usize>)
    ensures
        r matches Some(i) ==> last_index(s@, c) == Some(i as int),
        r.is_none() ==> last_index(s@, c).is_none(),
{
    let n = s.unicode_len();
    let mut it = s.chars();
    let mut found: Option<usize> = None;
    let mut i: usize = 0;
    while i < n
        invariant
            n == s@.len(),
            i <= n,
            it.obeys_prophetic_iter_laws(),
            it.remaining() == s@.skip(i as int),
            found matches Some(k) ==> k < i && s@[k as int] == c && forall|j: int|
                k < j < i ==> s@[j] != c,
            found.is_none() ==> forall|j: int| 0 <= j < i ==> s@[j] != c,
        decreases n - i,
    {
        let next = it.next();
        assert(next == Some(s@[i as int]));
        assert(it.remaining() == s@.skip(i as int + 1));
        match next {
            Some(ch) => {
                if ch == c {
                    found = Some(i);
                }
            },
            None => {},
        }
        i = i + 1;
    }
    proof {
        match found {
            Some(k) => lemma_last_index_unique(s@, c, k as int),
            None => lemma_absent_has_no_index(s@, c),
        }
    }
    found
}

} // verus!
