//! Character-level helpers over the view of a string, a `Seq<char>`.

use vstd::prelude::*;

verus! {

/// `p` occurs in `s` starting at index `i`.
pub open spec fn occurs_at(s: Seq<char>, p: Seq<char>, i: int) -> bool {
    &&& 0 <= i
    &&& i + p.len() <= s.len()
    &&& forall|j: int| 0 <= j < p.len() ==> #[trigger] s[i + j] == p[j]
}

/// `p` is a substring of `s`.
pub open spec fn contains(s: Seq<char>, p: Seq<char>) -> bool {
    exists|i: int| occurs_at(s, p, i)
}

/// The characters of `s`, one per element.
pub fn chars_of(s: &str) -> (r: Vec<char>)
    ensures
        r@ == s@,
{
    let mut r: Vec<char> = Vec::new();
    for c in it: s.chars()
        invariant
            it.seq() == s@,
            r@ == it.seq().take(it.index() as int),
    {
        r.push(c);
    }
    r
}

/// Whether `p` occurs in `s` at index `i`.
pub fn matches_at(s: &Vec<char>, p: &Vec<char>, i: usize) -> (r: bool)
    ensures
        r == occurs_at(s@, p@, i as int),
{
    if i > s.len() || p.len() > s.len() - i {
        return false;
    }
    let mut j: usize = 0;
    while j < p.len()
        invariant
            i + p.len() <= s.len(),
            j <= p.len(),
            forall|k: int| 0 <= k < j ==> #[trigger] s@[i + k] == p@[k],
        decreases p@.len() - j,
    {
        if s[i + j] != p[j] {
            return false;
        }
        j = j + 1;
    }
    true
}

/// Whether `p` is a substring of the slice `s[lo..hi]`.
pub fn contains_within(s: &Vec<char>, lo: usize, hi: usize, p: &Vec<char>) -> (r: bool)
    requires
        lo <= hi <= s@.len(),
    ensures
        r == contains(s@.subrange(lo as int, hi as int), p@),
{
    let ghost t = s@.subrange(lo as int, hi as int);
    if p.len() > hi - lo {
        assert forall|i: int| !occurs_at(t, p@, i) by {}
        return false;
    }
    let last = hi - p.len();
    let mut k: usize = lo;
    while k <= last
        invariant
            lo <= k <= last + 1,
            last + p@.len() == hi,
            hi <= s@.len(),
            t == s@.subrange(lo as int, hi as int),
            forall|i: int| 0 <= i < k - lo ==> !occurs_at(t, p@, i),
        decreases last + 1 - k,
    {
        if matches_at(s, p, k) {
            assert(occurs_at(t, p@, k - lo)) by {
                assert forall|j: int| 0 <= j < p@.len() implies #[trigger] t[k - lo + j] == p@[j] by {
                    assert(s@[k + j] == p@[j]);
                }
            }
            return true;
        }
        assert(!occurs_at(t, p@, k - lo)) by {
            if occurs_at(t, p@, k - lo) {
                assert forall|j: int| 0 <= j < p@.len() implies #[trigger] s@[k + j] == p@[j] by {
                    assert(t[k - lo + j] == p@[j]);
                }
            }
        }
        k = k + 1;
    }
    false
}

} // verus!
