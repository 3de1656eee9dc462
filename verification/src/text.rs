//! Verified character-level string comparisons.
//!
//! The evaluator compares property values with filter literals by exact
//! equality, containment, prefix and suffix; all four are implemented here
//! over the character views of `&str`.

use vstd::prelude::*;
use vstd::string::*;

verus! {

/// Whether `sub` occurs contiguously inside `s`. The empty sequence is
/// contained in every string.
pub open spec fn contains_seq(s: Seq<char>, sub: Seq<char>) -> bool {
    exists|i: int|
        0 <= i && i + sub.len() <= s.len() && #[trigger] s.subrange(i, i + sub.len() as int) == sub
}

/// Character-for-character string equality.
pub fn str_eq(a: &str, b: &str) -> (r: bool)
    ensures
        r == (a@ == b@),
{
    let na = a.unicode_len();
    let nb = b.unicode_len();
    if na != nb {
        return false;
    }
    let mut i: usize = 0;
    while i < na
        invariant
            na == a@.len(),
            na == b@.len(),
            i <= na,
            forall|j: int| 0 <= j < i ==> a@[j] == b@[j],
        decreases na - i,
    {
        if a.get_char(i) != b.get_char(i) {
            return false;
        }
        i += 1;
    }
    proof {
        assert(a@ =~= b@);
    }
    true
}

/// Whether `p@` is a prefix of `s@`.
pub fn str_starts_with(s: &str, p: &str) -> (r: bool)
    ensures
        r == p@.is_prefix_of(s@),
{
    let np = p.unicode_len();
    let ns = s.unicode_len();
    if np > ns {
        return false;
    }
    let head = s.substring_char(0, np);
    let r = str_eq(head, p);
    proof {
        if r {
            assert(p@ =~= s@.subrange(0, p@.len() as int));
        }
    }
    r
}

/// Whether `p@` is a suffix of `s@`.
pub fn str_ends_with(s: &str, p: &str) -> (r: bool)
    ensures
        r == p@.is_suffix_of(s@),
{
    let np = p.unicode_len();
    let ns = s.unicode_len();
    if np > ns {
        return false;
    }
    let tail = s.substring_char(ns - np, ns);
    let r = str_eq(tail, p);
    proof {
        if r {
            assert(p@ =~= s@.subrange(s@.len() - p@.len(), s@.len() as int));
        }
    }
    r
}

/// Whether `sub@` occurs contiguously inside `s@`.
pub fn str_contains(s: &str, sub: &str) -> (r: bool)
    ensures
        r == contains_seq(s@, sub@),
{
    let nsub = sub.unicode_len();
    let ns = s.unicode_len();
    if nsub > ns {
        return false;
    }
    if nsub == 0 {
        proof {
            assert(contains_seq(s@, sub@)) by {
                assert(s@.subrange(0, 0 + sub@.len() as int) =~= sub@);
            }
        }
        return true;
    }
    let limit = ns - nsub;
    let mut i: usize = 0;
    while i <= limit
        invariant
            ns == s@.len(),
            nsub == sub@.len(),
            1 <= nsub <= ns,
            limit == ns - nsub,
            i <= limit + 1,
            forall|j: int|
                0 <= j < i ==> #[trigger] s@.subrange(j, j + sub@.len() as int) != sub@,
        decreases limit + 1 - i,
    {
        let w = s.substring_char(i, i + nsub);
        if str_eq(w, sub) {
            proof {
                assert(s@.subrange(i as int, i + sub@.len() as int) == sub@);
            }
            return true;
        }
        i += 1;
    }
    false
}

} // verus!
