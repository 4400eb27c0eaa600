//! Searching for a pattern of characters in a text.

use vstd::prelude::*;
use crate::chars::{chars_of, string_from_chars};

verus! {

/// `p` occurs in `s` at position `i`.
pub open spec fn occurs_at(s: Seq<char>, p: Seq<char>, i: int) -> bool {
    0 <= i && i + p.len() <= s.len() && s.subrange(i, i + p.len()) == p
}

/// The first position at or after `k` where `p` occurs in `s`.
pub open spec fn first_from(s: Seq<char>, p: Seq<char>, k: nat) -> Option<int>
    decreases s.len() - k,
{
    if k + p.len() > s.len() {
        None
    } else if occurs_at(s, p, k as int) {
        Some(k as int)
    } else if k >= s.len() {
        None
    } else {
        first_from(s, p, k + 1)
    }
}

/// The first position where `p` occurs in `s` (`str::find`, counted in characters).
pub open spec fn first_occurrence(s: Seq<char>, p: Seq<char>) -> Option<int> {
    first_from(s, p, 0)
}

/// `p` occurs somewhere in `s` (`str::contains`).
pub open spec fn contains_seq(s: Seq<char>, p: Seq<char>) -> bool {
    first_occurrence(s, p) is Some
}

/// `s` starts with `p` (`str::starts_with`).
pub open spec fn starts_with_seq(s: Seq<char>, p: Seq<char>) -> bool {
    p.len() <= s.len() && s.subrange(0, p.len() as int) == p
}

proof fn lemma_first_from(s: Seq<char>, p: Seq<char>, k: nat)
    ensures
        first_from(s, p, k) matches Some(i) ==> k <= i && occurs_at(s, p, i) && forall|j: int|
            k <= j < i ==> !occurs_at(s, p, j),
        first_from(s, p, k) is None ==> forall|j: int| k <= j ==> !occurs_at(s, p, j),
    decreases s.len() - k,
{
    if k + p.len() <= s.len() && !occurs_at(s, p, k as int) && k < s.len() {
        lemma_first_from(s, p, k + 1);
    } else if k + p.len() <= s.len() && !occurs_at(s, p, k as int) {
        assert(s.subrange(k as int, k as int) =~= p);
    }
}

/// `contains_seq` holds exactly when the pattern occurs at some position.
pub proof fn lemma_contains_seq(s: Seq<char>, p: Seq<char>)
    ensures
        contains_seq(s, p) <==> exists|i: int| occurs_at(s, p, i),
        first_occurrence(s, p) matches Some(i) ==> occurs_at(s, p, i),
{
    lemma_first_from(s, p, 0);
    if let Some(i) = first_occurrence(s, p) {
        assert(occurs_at(s, p, i));
    }
}

/// The first occurrence is an occurrence, and none comes before it; without
/// one, the pattern occurs nowhere.
pub proof fn lemma_first_occurrence_is_first(s: Seq<char>, p: Seq<char>)
    ensures
        first_occurrence(s, p) matches Some(i) ==> occurs_at(s, p, i) && forall|j: int|
            0 <= j < i ==> !occurs_at(s, p, j),
        first_occurrence(s, p) is None ==> forall|j: int| !occurs_at(s, p, j),
{
    lemma_first_from(s, p, 0);
}

/// Whether `p` occurs in `s` at position `k`.
pub fn matches_at(s: &Vec<char>, p: &Vec<char>, k: usize) -> (r: bool)
    requires
        k + p.len() <= s.len(),
    ensures
        r == occurs_at(s@, p@, k as int),
{
    let mut j: usize = 0;
    while j < p.len()
        invariant
            k + p.len() <= s.len(),
            j <= p.len(),
            forall|q: int| 0 <= q < j ==> s@[k + q] == p@[q],
        decreases p.len() - j,
    {
        if s[k + j] != p[j] {
            assert(s@.subrange(k as int, k + p.len())[j as int] != p@[j as int]);
            return false;
        }
        j += 1;
    }
    assert(s@.subrange(k as int, k + p.len()) =~= p@);
    true
}

/// The first position of `p` in `s`, in characters.
pub fn find_chars(s: &Vec<char>, p: &Vec<char>) -> (r: Option<usize>)
    ensures
        match r {
            Some(i) => first_occurrence(s@, p@) == Some(i as int),
            None => first_occurrence(s@, p@) is None,
        },
{
    if p.len() > s.len() {
        return None;
    }
    let mut k: usize = 0;
    let last = s.len() - p.len();
    while k <= last
        invariant
            p.len() <= s.len(),
            last == s.len() - p.len(),
            k <= last + 1,
            first_from(s@, p@, 0) == first_from(s@, p@, k as nat),
        decreases last + 1 - k,
    {
        if matches_at(s, p, k) {
            return Some(k);
        }
        if k == s.len() {
            assert(s@.subrange(k as int, k as int) =~= p@);
        }
        k += 1;
    }
    None
}

/// The first position of `p` in `s`, in characters (`str::find`).
pub fn find_str(s: &str, p: &str) -> (r: Option<usize>)
    ensures
        match r {
            Some(i) => first_occurrence(s@, p@) == Some(i as int),
            None => first_occurrence(s@, p@) is None,
        },
{
    let vs = chars_of(s);
    let vp = chars_of(p);
    find_chars(&vs, &vp)
}

/// Whether `p` occurs in `s` (`str::contains`).
pub fn contains_str(s: &str, p: &str) -> (r: bool)
    ensures
        r == contains_seq(s@, p@),
{
    find_str(s, p).is_some()
}

/// Whether `s` starts with `p` (`str::starts_with`).
pub fn starts_with_str(s: &str, p: &str) -> (r: bool)
    ensures
        r == starts_with_seq(s@, p@),
{
    let vs = chars_of(s);
    let vp = chars_of(p);
    if vp.len() > vs.len() {
        return false;
    }
    matches_at(&vs, &vp, 0)
}

/// The characters `s[start..end]` as a string.
pub fn substring(s: &Vec<char>, start: usize, end: usize) -> (r: String)
    requires
        start <= end <= s.len(),
    ensures
        r@ == s@.subrange(start as int, end as int),
{
    let v = crate::text::slice_chars(s, start, end);
    string_from_chars(&v)
}

} // verus!
