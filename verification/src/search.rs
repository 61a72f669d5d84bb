//! Searching for the first occurrence of a value.
use vstd::prelude::*;

verus! {

/// The index in `i` as a mathematical integer.
pub open spec fn as_index(i: Option<usize>) -> Option<int> {
    match i {
        Some(i) => Some(i as int),
        None => None,
    }
}

/// If the first `needle` of `s` is at `i`, then `index_of_first` tells so.
pub proof fn lemma_first_index<A>(s: Seq<A>, needle: A, i: int)
    requires
        0 <= i < s.len(),
        s[i] == needle,
        forall|j: int| 0 <= j < i ==> s[j] != needle,
    ensures
        s.index_of_first(needle) == Some(i),
{
    s.index_of_first_ensures(needle);
    assert(s.contains(needle));
}

/// If `s` has no `needle`, then `index_of_first` tells so.
pub proof fn lemma_no_index<A>(s: Seq<A>, needle: A)
    requires
        forall|j: int| 0 <= j < s.len() ==> s[j] != needle,
    ensures
        s.index_of_first(needle) == None::<int>,
{
    s.index_of_first_ensures(needle);
}

/// Finds the first `needle` in `s`.
pub fn find_byte(s: &[u8], needle: u8) -> (r: Option<usize>)
    ensures
        as_index(r) == s@.index_of_first(needle),
        match r {
            Some(i) => {
                &&& i < s@.len()
                &&& s@[i as int] == needle
                &&& forall|j: int| 0 <= j < i ==> s@[j] != needle
            },
            None => !s@.contains(needle),
        },
{
    let mut i: usize = 0;
    while i < s.len()
        invariant
            i <= s@.len(),
            forall|j: int| 0 <= j < i ==> s@[j] != needle,
        decreases s@.len() - i,
    {
        if s[i] == needle {
            proof {
                lemma_first_index(s@, needle, i as int);
            }
            return Some(i);
        }
        i = i + 1;
    }
    proof {
        lemma_no_index(s@, needle);
    }
    None
}

/// Finds the first `needle` in `s`.
pub fn find_char(s: &[char], needle: char) -> (r: Option<usize>)
    ensures
        as_index(r) == s@.index_of_first(needle),
        match r {
            Some(i) => {
                &&& i < s@.len()
                &&& s@[i as int] == needle
                &&& forall|j: int| 0 <= j < i ==> s@[j] != needle
            },
            None => !s@.contains(needle),
        },
{
    let mut i: usize = 0;
    while i < s.len()
        invariant
            i <= s@.len(),
            forall|j: int| 0 <= j < i ==> s@[j] != needle,
        decreases s@.len() - i,
    {
        if s[i] == needle {
            proof {
                lemma_first_index(s@, needle, i as int);
            }
            return Some(i);
        }
        i = i + 1;
    }
    proof {
        lemma_no_index(s@, needle);
    }
    None
}

/// Finds the first `needle` in `s`.
pub fn find_id(s: &[u128], needle: u128) -> (r: Option<usize>)
    ensures
        as_index(r) == s@.index_of_first(needle),
        match r {
            Some(i) => {
                &&& i < s@.len()
                &&& s@[i as int] == needle
                &&& forall|j: int| 0 <= j < i ==> s@[j] != needle
            },
            None => !s@.contains(needle),
        },
{
    let mut i: usize = 0;
    while i < s.len()
        invariant
            i <= s@.len(),
            forall|j: int| 0 <= j < i ==> s@[j] != needle,
        decreases s@.len() - i,
    {
        if s[i] == needle {
            proof {
                lemma_first_index(s@, needle, i as int);
            }
            return Some(i);
        }
        i = i + 1;
    }
    proof {
        lemma_no_index(s@, needle);
    }
    None
}

} // verus!
