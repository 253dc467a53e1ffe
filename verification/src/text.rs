//! Verified helpers for working with strings as sequences of characters.

use vstd::prelude::*;

verus! {

/// The pattern `p` occurs in `s` starting at position `i`.
pub open spec fn matches_at(s: Seq<char>, i: int, p: Seq<char>) -> bool {
    0 <= i && i + p.len() <= s.len() && s.subrange(i, i + p.len() as int) == p
}

/// The first position at or after `i` where character `c` occurs in `s`.
pub open spec fn first_at(s: Seq<char>, c: char, i: int) -> Option<int>
    decreases s.len() - i,
{
    if i < 0 || i >= s.len() {
        None
    } else if s[i] == c {
        Some(i)
    } else {
        first_at(s, c, i + 1)
    }
}

/// The first position at or after `i` where the pattern `pat` occurs in `s`.
pub open spec fn first_match(s: Seq<char>, pat: Seq<char>, i: int) -> Option<int>
    decreases s.len() - i + 1,
{
    if i < 0 || i + pat.len() > s.len() {
        None
    } else if matches_at(s, i, pat) {
        Some(i)
    } else {
        first_match(s, pat, i + 1)
    }
}

/// The last position where character `c` occurs in `s`.
pub open spec fn last_at(s: Seq<char>, c: char) -> Option<int>
    decreases s.len(),
{
    if s.len() == 0 {
        None
    } else if s.last() == c {
        Some(s.len() - 1)
    } else {
        last_at(s.drop_last(), c)
    }
}

/// A position holding `c` with none earlier (at or after `k`) is what
/// `first_at` finds.
pub proof fn lemma_first_at_found(s: Seq<char>, c: char, k: int, i: int)
    requires
        0 <= k <= i < s.len(),
        s[i] == c,
        forall|j: int| k <= j < i ==> s[j] != c,
    ensures
        first_at(s, c, k) == Some(i),
    decreases i - k,
{
    if k < i {
        lemma_first_at_found(s, c, k + 1, i);
    }
}

/// Where `c` occurs nowhere at or after `k`, `first_at` finds nothing.
pub proof fn lemma_first_at_none(s: Seq<char>, c: char, k: int)
    requires
        0 <= k,
        forall|j: int| k <= j < s.len() ==> s[j] != c,
    ensures
        first_at(s, c, k) is None,
    decreases s.len() - k,
{
    if k < s.len() {
        lemma_first_at_none(s, c, k + 1);
    }
}

/// A position matching `pat` with no earlier match (at or after `k`) is what
/// `first_match` finds.
pub proof fn lemma_first_match_found(s: Seq<char>, pat: Seq<char>, k: int, i: int)
    requires
        0 <= k <= i,
        matches_at(s, i, pat),
        forall|j: int| k <= j < i ==> !matches_at(s, j, pat),
    ensures
        first_match(s, pat, k) == Some(i),
    decreases i - k,
{
    if k < i {
        lemma_first_match_found(s, pat, k + 1, i);
    }
}

/// Where `pat` matches nowhere at or after `k`, `first_match` finds nothing.
pub proof fn lemma_first_match_none(s: Seq<char>, pat: Seq<char>, k: int)
    requires
        0 <= k,
        forall|j: int| k <= j ==> !matches_at(s, j, pat),
    ensures
        first_match(s, pat, k) is None,
    decreases s.len() - k + 1,
{
    if k + pat.len() <= s.len() {
        lemma_first_match_none(s, pat, k + 1);
    }
}

/// A position holding `c` with none later is what `last_at` finds.
pub proof fn lemma_last_at_found(s: Seq<char>, c: char, i: int)
    requires
        0 <= i < s.len(),
        s[i] == c,
        forall|j: int| i < j < s.len() ==> s[j] != c,
    ensures
        last_at(s, c) == Some(i),
    decreases s.len(),
{
    if i < s.len() - 1 {
        assert(forall|j: int| i < j < s.drop_last().len() ==> s.drop_last()[j] != c);
        lemma_last_at_found(s.drop_last(), c, i);
    }
}

/// Where `c` occurs nowhere, `last_at` finds nothing.
pub proof fn lemma_last_at_none(s: Seq<char>, c: char)
    requires
        forall|j: int| 0 <= j < s.len() ==> s[j] != c,
    ensures
        last_at(s, c) is None,
    decreases s.len(),
{
    if s.len() > 0 {
        lemma_last_at_none(s.drop_last(), c);
    }
}

/// Character-for-character equality of two string slices.
pub fn str_eq(a: &str, b: &str) -> (r: bool)
    ensures
        r == (a@ == b@),
{
    let alen = a.unicode_len();
    let blen = b.unicode_len();
    if alen != blen {
        return false;
    }
    let mut i: usize = 0;
    while i < alen
        invariant
            alen == a@.len(),
            alen == b@.len(),
            i <= alen,
            forall|j: int| 0 <= j < i ==> a@[j] == b@[j],
        decreases alen - i,
    {
        if a.get_char(i) != b.get_char(i) {
            return false;
        }
        i = i + 1;
    }
    proof {
        assert(a@ =~= b@);
    }
    true
}

/// The first position at or after `from` where character `c` occurs in `s`.
pub fn find_char_from(s: &str, c: char, from: usize) -> (r: Option<usize>)
    requires
        from <= s@.len(),
    ensures
        match r {
            Some(i) => from <= i < s@.len() && s@[i as int] == c && forall|j: int|
                from <= j < i ==> s@[j] != c,
            None => forall|j: int| from <= j < s@.len() ==> s@[j] != c,
        },
{
    let len = s.unicode_len();
    let mut i: usize = from;
    while i < len
        invariant
            from <= i <= len,
            len == s@.len(),
            forall|j: int| from <= j < i ==> s@[j] != c,
        decreases len - i,
    {
        if s.get_char(i) == c {
            return Some(i);
        }
        i = i + 1;
    }
    None
}

/// Whether `pat` occurs in `s` starting at position `i`.
pub fn contains_at(s: &str, i: usize, pat: &str) -> (r: bool)
    ensures
        r == matches_at(s@, i as int, pat@),
{
    let slen = s.unicode_len();
    let plen = pat.unicode_len();
    if i > slen || plen > slen - i {
        return false;
    }
    let mut k: usize = 0;
    while k < plen
        invariant
            k <= plen,
            plen == pat@.len(),
            slen == s@.len(),
            i + plen <= slen,
            forall|j: int| 0 <= j < k ==> s@[i + j] == pat@[j],
        decreases plen - k,
    {
        if s.get_char(i + k) != pat.get_char(k) {
            proof {
                assert(s@.subrange(i as int, i + pat@.len() as int)[k as int] == s@[i + k]);
            }
            return false;
        }
        k = k + 1;
    }
    proof {
        assert(s@.subrange(i as int, i + pat@.len() as int) =~= pat@);
    }
    true
}

/// The first position where `pat` occurs in `s`.
pub fn find_sub(s: &str, pat: &str) -> (r: Option<usize>)
    ensures
        match r {
            Some(i) => matches_at(s@, i as int, pat@) && forall|j: int|
                0 <= j < i ==> !matches_at(s@, j, pat@),
            None => forall|j: int| !matches_at(s@, j, pat@),
        },
{
    let len = s.unicode_len();
    let plen = pat.unicode_len();
    if plen > len {
        return None;
    }
    if plen == 0 {
        proof {
            assert(s@.subrange(0, 0) =~= pat@);
        }
        return Some(0);
    }
    let last = len - plen;
    let mut i: usize = 0;
    while i <= last
        invariant
            i <= last + 1,
            last == len - plen,
            1 <= plen <= len,
            len == s@.len(),
            plen == pat@.len(),
            forall|j: int| 0 <= j < i ==> !matches_at(s@, j, pat@),
        decreases last + 1 - i,
    {
        if contains_at(s, i, pat) {
            return Some(i);
        }
        i = i + 1;
    }
    proof {
        assert(forall|j: int| j > last ==> !matches_at(s@, j, pat@));
    }
    None
}

} // verus!
