//! Source classification: which raw inputs name a remote repository.

use vstd::prelude::*;

verus! {

/// The characters of `pat` occur in `s` starting at position `i`.
pub open spec fn contains_at(s: Seq<char>, pat: Seq<char>, i: int) -> bool {
    0 <= i && i + pat.len() <= s.len() && s.subrange(i, i + pat.len()) == pat
}

/// `pat` occurs somewhere in `s`.
pub open spec fn contains_seq(s: Seq<char>, pat: Seq<char>) -> bool {
    exists|i: int| contains_at(s, pat, i)
}

/// The classification heuristic: an input is treated as a remote repository
/// reference when it contains an SSH-style `git@` marker or a GitHub HTTPS
/// prefix. A local path that happens to contain one of these substrings is
/// misclassified; that is accepted.
pub open spec fn is_git_spec(s: Seq<char>) -> bool {
    ||| contains_seq(s, "git@"@)
    ||| contains_seq(s, "https://github.com"@)
    ||| contains_seq(s, "https://www.github.com"@)
}

/// Whether `pat` occurs in `s` starting exactly at `i`.
pub(crate) fn matches_at(s: &str, pat: &str, i: usize) -> (r: bool)
    requires
        i + pat@.len() <= s@.len(),
        s@.len() <= usize::MAX,
    ensures
        r == contains_at(s@, pat@, i as int),
{
    let m = pat.unicode_len();
    let mut k: usize = 0;
    while k < m
        invariant
            m == pat@.len(),
            i + m <= s@.len(),
            s@.len() <= usize::MAX,
            0 <= k <= m,
            forall|j: int| 0 <= j < k ==> s@[i + j] == pat@[j],
        decreases m - k,
    {
        if s.get_char(i + k) != pat.get_char(k) {
            assert(s@.subrange(i as int, i + m) != pat@) by {
                assert(s@.subrange(i as int, i + m)[k as int] == s@[i + k]);
            }
            return false;
        }
        k += 1;
    }
    assert(s@.subrange(i as int, i + m) =~= pat@);
    true
}

/// Substring search, proved equivalent to `contains_seq`.
pub fn contains_sub(s: &str, pat: &str) -> (r: bool)
    ensures
        r == contains_seq(s@, pat@),
{
    let n = s.unicode_len();
    let m = pat.unicode_len();
    if m > n {
        assert(forall|i: int| !contains_at(s@, pat@, i));
        return false;
    }
    if m == 0 {
        assert(s@.subrange(0, 0) =~= pat@);
        assert(contains_at(s@, pat@, 0));
        return true;
    }
    let mut i: usize = 0;
    while i <= n - m
        invariant
            n == s@.len(),
            m == pat@.len(),
            1 <= m <= n,
            0 <= i <= n - m + 1,
            forall|j: int| 0 <= j < i ==> !contains_at(s@, pat@, j),
        decreases n - i,
    {
        if matches_at(s, pat, i) {
            return true;
        }
        i += 1;
    }
    assert(forall|j: int| !contains_at(s@, pat@, j));
    false
}

/// Character-wise string comparison.
pub fn str_eq(a: &str, b: &str) -> (r: bool)
    ensures
        r == (a@ == b@),
{
    let n = a.unicode_len();
    let m = b.unicode_len();
    if n != m {
        return false;
    }
    let mut i: usize = 0;
    while i < n
        invariant
            n == a@.len(),
            n == b@.len(),
            0 <= i <= n,
            forall|j: int| 0 <= j < i ==> a@[j] == b@[j],
        decreases n - i,
    {
        if a.get_char(i) != b.get_char(i) {
            return false;
        }
        i += 1;
    }
    proof {
        assert(a@ =~= b@);
    }
    true
}

/// Classifies one raw input string: `true` means it is taken for a remote
/// repository reference, `false` for a local path or literal content.
pub fn is_git(uri: &str) -> (r: bool)
    ensures
        r == is_git_spec(uri@),
{
    contains_sub(uri, "git@") || contains_sub(uri, "https://github.com")
        || contains_sub(uri, "https://www.github.com")
}

} // verus!
