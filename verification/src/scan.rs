//! Finding the first occurrence of a value in a sequence.

use vstd::prelude::*;

verus! {

/// The first index at which `needle` occurs in `s`; the length of `s` where
/// it does not occur.
pub open spec fn first_index<T>(s: Seq<T>, needle: T) -> int
    decreases s.len(),
{
    if s.len() == 0 || s[0] == needle {
        0
    } else {
        1 + first_index(s.skip(1), needle)
    }
}

/// `first_index` lies within the sequence, nothing before it is the needle,
/// and the needle stands at it unless it is the length.
pub proof fn lemma_first_index<T>(s: Seq<T>, needle: T)
    ensures
        0 <= first_index(s, needle) <= s.len(),
        forall|j: int| 0 <= j < first_index(s, needle) ==> s[j] != needle,
        first_index(s, needle) < s.len() ==> s[first_index(s, needle)] == needle,
    decreases s.len(),
{
    if s.len() == 0 || s[0] == needle {
    } else {
        let rest = s.skip(1);
        lemma_first_index(rest, needle);
        assert forall|j: int| 0 <= j < first_index(s, needle) implies s[j] != needle by {
            if j > 0 {
                assert(s[j] == rest[j - 1]);
            }
        }
    }
}

/// An index with nothing equal to the needle before it, and the needle at
/// it unless it is the length, is the first index.
pub proof fn lemma_first_index_is<T>(s: Seq<T>, needle: T, i: int)
    requires
        0 <= i <= s.len(),
        forall|j: int| 0 <= j < i ==> s[j] != needle,
        i < s.len() ==> s[i] == needle,
    ensures
        first_index(s, needle) == i,
{
    lemma_first_index(s, needle);
    let f = first_index(s, needle);
    if f < i {
        assert(s[f] != needle);
    } else if i < f {
        assert(s[i] != needle);
    }
}

} // verus!
