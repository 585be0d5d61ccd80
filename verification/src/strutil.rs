//! Character-sequence helpers: equality, suffix and substring tests over
//! `&str`, with the same sequence-level contracts as the byte helpers.

use vstd::prelude::*;
use crate::bytesutil::{seq_ends_with, seq_matches_at, seq_contains};
use vstd::string::StrSliceExecFns;

verus! {

/// Character-for-character equality of two string slices.
pub fn str_eq(a: &str, b: &str) -> (r: bool)
    ensures
        r <==> a@ == b@,
{
    let alen = a.unicode_len();
    let blen = b.unicode_len();
    if alen != blen {
        return false;
    }
    let mut i: usize = 0;
    while i < alen
        invariant
            i <= alen,
            alen == a@.len(),
            alen == b@.len(),
            forall|j: int| 0 <= j < i ==> a@[j] == b@[j],
        decreases alen - i,
    {
        if a.get_char(i) != b.get_char(i) {
            return false;
        }
        i += 1;
    }
    proof {
        assert(a@ =~= b@);
    }
    true
}

/// Suffix test on string slices.
pub fn str_ends_with(s: &str, suffix: &str) -> (r: bool)
    ensures
        r <==> seq_ends_with(s@, suffix@),
{
    let slen = s.unicode_len();
    let m = suffix.unicode_len();
    if m > slen {
        return false;
    }
    let start: usize = slen - m;
    let mut i: usize = 0;
    while i < m
        invariant
            i <= m,
            m == suffix@.len(),
            slen == s@.len(),
            start == slen - m,
            forall|j: int| 0 <= j < i ==> s@[start + j] == suffix@[j],
        decreases m - i,
    {
        if s.get_char(start + i) != suffix.get_char(i) {
            proof {
                let sub = s@.subrange(s@.len() - suffix@.len(), s@.len() as int);
                assert(sub[i as int] == s@[start + i]);
            }
            return false;
        }
        i += 1;
    }
    proof {
        assert(s@.subrange(s@.len() - suffix@.len(), s@.len() as int) =~= suffix@);
    }
    true
}

/// `needle` matches `s` at position `i` (exec counterpart of `seq_matches_at`).
fn str_matches_at(s: &str, needle: &str, i: usize) -> (r: bool)
    requires
        i + needle@.len() <= s@.len(),
    ensures
        r <==> seq_matches_at(s@, needle@, i as int),
{
    let slen = s.unicode_len();
    let m = needle.unicode_len();
    let mut j: usize = 0;
    while j < m
        invariant
            j <= m,
            m == needle@.len(),
            slen == s@.len(),
            i + needle@.len() <= s@.len(),
            forall|k: int| 0 <= k < j ==> s@[i + k] == needle@[k],
        decreases m - j,
    {
        if s.get_char(i + j) != needle.get_char(j) {
            proof {
                let sub = s@.subrange(i as int, i + needle@.len());
                assert(sub[j as int] == s@[i + j]);
            }
            return false;
        }
        j += 1;
    }
    proof {
        assert(s@.subrange(i as int, i + needle@.len()) =~= needle@);
    }
    true
}

/// Substring search over string slices.
pub fn str_contains(s: &str, needle: &str) -> (r: bool)
    ensures
        r <==> seq_contains(s@, needle@),
{
    let slen = s.unicode_len();
    let m = needle.unicode_len();
    if m > slen {
        return false;
    }
    if m == 0 {
        proof {
            assert(s@.subrange(0, 0) =~= needle@);
            assert(seq_matches_at(s@, needle@, 0));
        }
        return true;
    }
    let last: usize = slen - m;
    let mut i: usize = 0;
    while i <= last
        invariant
            i <= last + 1,
            slen == s@.len(),
            m == needle@.len(),
            last == slen - m,
            1 <= m <= slen,
            forall|j: int| 0 <= j < i ==> !seq_matches_at(s@, needle@, j),
        decreases last + 1 - i,
    {
        if str_matches_at(s, needle, i) {
            return true;
        }
        i += 1;
    }
    false
}

/// Prefix test on string slices.
pub fn str_starts_with(s: &str, prefix: &str) -> (r: bool)
    ensures
        r <==> seq_matches_at(s@, prefix@, 0),
{
    let slen = s.unicode_len();
    let m = prefix.unicode_len();
    if m > slen {
        return false;
    }
    str_matches_at_pub(s, prefix, 0)
}

/// `needle` matches `s` at position `i`.
pub fn str_matches_at_pub(s: &str, needle: &str, i: usize) -> (r: bool)
    requires
        i + needle@.len() <= s@.len(),
    ensures
        r <==> seq_matches_at(s@, needle@, i as int),
{
    str_matches_at(s, needle, i)
}

/// Position of the last occurrence of `needle` in `s`, if any.
pub fn str_rfind(s: &str, needle: &str) -> (r: Option<usize>)
    ensures
        r matches Some(i) ==> seq_matches_at(s@, needle@, i as int) && (forall|j: int|
            i < j ==> !seq_matches_at(s@, needle@, j)),
        r is None ==> forall|j: int| !seq_matches_at(s@, needle@, j),
{
    let slen = s.unicode_len();
    let m = needle.unicode_len();
    if m > slen {
        proof {
            assert forall|j: int| !seq_matches_at(s@, needle@, j) by {}
        }
        return None;
    }
    let last: usize = slen - m;
    let mut i: usize = last;
    loop
        invariant
            i <= last,
            slen == s@.len(),
            m == needle@.len(),
            last == slen - m,
            forall|j: int| i < j ==> !seq_matches_at(s@, needle@, j),
        decreases i + 1,
    {
        if str_matches_at(s, needle, i) {
            return Some(i);
        }
        if i == 0 {
            proof {
                assert forall|j: int| !seq_matches_at(s@, needle@, j) by {}
            }
            return None;
        }
        i -= 1;
    }
}

} // verus!
