//! Plain operations on attribute text.

use crate::scan::{first_index, lemma_first_index_is};
use vstd::prelude::*;

verus! {

/// The characters of `text`, in order.
pub fn chars_of(text: &str) -> (v: Vec<char>)
    ensures
        v@ == text@,
{
    let mut v: Vec<char> = Vec::new();
    for c in it: text.chars()
        invariant
            v@ == it.seq().take(it.index() as int),
            it.seq() == text@,
    {
        v.push(c);
    }
    v
}

/// Whether two texts hold the same characters.
pub fn text_eq(a: &str, b: &str) -> (r: bool)
    ensures
        r == (a@ == b@),
{
    let x = String::from_str(a);
    let y = String::from_str(b);
    x == y
}

/// `s` begins with `prefix`.
pub open spec fn begins_with(s: Seq<char>, prefix: Seq<char>) -> bool {
    prefix.len() <= s.len() && s.take(prefix.len() as int) == prefix
}

/// Whether `text` begins with `prefix`.
pub fn starts_with(text: &str, prefix: &str) -> (r: bool)
    ensures
        r == begins_with(text@, prefix@),
{
    let t = chars_of(text);
    let p = chars_of(prefix);
    if p.len() > t.len() {
        return false;
    }
    let mut i: usize = 0;
    while i < p.len()
        invariant
            t@ == text@,
            p@ == prefix@,
            i <= p@.len() <= t@.len(),
            t@.take(i as int) == p@.take(i as int),
        decreases p@.len() - i,
    {
        if t[i] != p[i] {
            assert(t@.take(p@.len() as int)[i as int] != p@[i as int]);
            return false;
        }
        assert(t@.take(i + 1) =~= t@.take(i as int).push(t@[i as int]));
        assert(p@.take(i + 1) =~= p@.take(i as int).push(p@[i as int]));
        i += 1;
    }
    assert(p@.take(p@.len() as int) =~= p@);
    true
}

/// The part of `s` before its first space; all of `s` where it holds none.
pub open spec fn first_word(s: Seq<char>) -> Seq<char> {
    s.take(first_index(s, ' '))
}

/// The part of `text` before its first space.
pub fn first_word_of(text: &str) -> (word: String)
    ensures
        word@ == first_word(text@),
{
    let n = text.unicode_len();
    let mut end: usize = 0;
    let mut found = false;
    for c in it: text.chars()
        invariant
            it.seq() == text@,
            n == text@.len(),
            end <= it.index() <= n,
            found ==> end < n && text@[end as int] == ' ',
            !found ==> end == it.index(),
            forall|j: int| 0 <= j < end ==> text@[j] != ' ',
    {
        if !found {
            if c == ' ' {
                found = true;
            } else {
                end += 1;
            }
        }
    }
    proof {
        lemma_first_index_is(text@, ' ', end as int);
    }
    String::from_str(text.substring_char(0, end))
}

} // verus!
