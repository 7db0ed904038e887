//! Searching character sequences.
//!
//! Strings are modelled by their sequence of characters (`Seq<char>`, the view
//! of `str` and `String`). Everything the client needs from a text is phrased
//! as "where does this pattern first occur", so this module defines that notion
//! and provides verified executable search over `Vec<char>`.

use vstd::prelude::*;
use vstd::std_specs::iter::IteratorSpec;
use vstd::string::*;

verus! {

/// `pat` occurs in `s` starting at position `i`.
pub open spec fn occurs_at(s: Seq<char>, pat: Seq<char>, i: int) -> bool {
    &&& 0 <= i
    &&& i + pat.len() <= s.len()
    &&& s.subrange(i, i + pat.len()) =~= pat
}

/// `pat` occurs somewhere in `s`.
pub open spec fn occurs_in(s: Seq<char>, pat: Seq<char>) -> bool {
    exists|i: int| occurs_at(s, pat, i)
}

/// `i` is the leftmost position at which `pat` occurs in `s`.
pub open spec fn first_occurrence_at(s: Seq<char>, pat: Seq<char>, i: int) -> bool {
    &&& occurs_at(s, pat, i)
    &&& forall|j: int| 0 <= j < i ==> !occurs_at(s, pat, j)
}

/// The leftmost position at which `pat` occurs in `s`, if it occurs at all.
pub open spec fn first_occurrence(s: Seq<char>, pat: Seq<char>) -> Option<int> {
    if occurs_in(s, pat) {
        Some(choose|i: int| first_occurrence_at(s, pat, i))
    } else {
        None
    }
}

/// Among the occurrences of `pat` in `s` at or before `bound`, one is leftmost.
proof fn lemma_leftmost_exists(s: Seq<char>, pat: Seq<char>, bound: int)
    requires
        occurs_at(s, pat, bound),
    ensures
        exists|i: int| first_occurrence_at(s, pat, i),
    decreases bound,
{
    if forall|j: int| 0 <= j < bound ==> !occurs_at(s, pat, j) {
        assert(first_occurrence_at(s, pat, bound));
    } else {
        let j = choose|j: int| 0 <= j < bound && occurs_at(s, pat, j);
        lemma_leftmost_exists(s, pat, j);
    }
}

/// What `first_occurrence` returns: `Some(i)` exactly when `i` is the leftmost
/// occurrence, and `None` exactly when the pattern occurs nowhere.
pub proof fn lemma_first_occurrence(s: Seq<char>, pat: Seq<char>)
    ensures
        match first_occurrence(s, pat) {
            Some(i) => first_occurrence_at(s, pat, i),
            None => forall|j: int| !occurs_at(s, pat, j),
        },
{
    if occurs_in(s, pat) {
        let w = choose|i: int| occurs_at(s, pat, i);
        lemma_leftmost_exists(s, pat, w);
    }
}

/// A leftmost occurrence is the one `first_occurrence` names.
pub proof fn lemma_first_occurrence_is(s: Seq<char>, pat: Seq<char>, i: int)
    requires
        first_occurrence_at(s, pat, i),
    ensures
        first_occurrence(s, pat) == Some(i),
{
    lemma_first_occurrence(s, pat);
    let k = first_occurrence(s, pat)->0;
    assert(first_occurrence_at(s, pat, k));
    if k < i {
        assert(!occurs_at(s, pat, k));
    } else if i < k {
        assert(!occurs_at(s, pat, i));
    }
}

/// A single character `c` occurs at `i` exactly when `s[i]` is `c`.
pub proof fn lemma_occurs_at_char(s: Seq<char>, c: char, i: int)
    ensures
        occurs_at(s, seq![c], i) <==> (0 <= i < s.len() && s[i] == c),
{
    let pat = seq![c];
    if 0 <= i < s.len() {
        if s[i] == c {
            assert(s.subrange(i, i + 1) =~= pat);
        } else {
            assert(s.subrange(i, i + 1)[0] == s[i]);
        }
    }
}

/// The characters of `s`, in order.
pub fn chars_of(s: &str) -> (v: Vec<char>)
    ensures
        v@ == s@,
{
    let mut v: Vec<char> = Vec::new();
    for c in it: s.chars()
        invariant
            it.seq() == s@,
            v@ == s@.take(it.index()),
    {
        v.push(c);
    }
    v
}

/// Whether `pat` occurs in `hay` at position `i`.
pub fn matches_at(hay: &Vec<char>, pat: &Vec<char>, i: usize) -> (b: bool)
    ensures
        b == occurs_at(hay@, pat@, i as int),
{
    let n = hay.len();
    let m = pat.len();
    if i > n || m > n - i {
        return false;
    }
    let mut k: usize = 0;
    while k < m
        invariant
            n == hay@.len(),
            m == pat@.len(),
            i + m <= n,
            k <= m,
            forall|j: int| 0 <= j < k ==> hay@[i + j] == pat@[j],
        decreases m - k,
    {
        if hay[i + k] != pat[k] {
            assert(hay@.subrange(i as int, i + m)[k as int] == hay@[i + k]);
            return false;
        }
        k += 1;
    }
    assert(hay@.subrange(i as int, i + m) =~= pat@);
    true
}

/// Whether `hay` begins with `pat`.
pub fn starts_with(hay: &Vec<char>, pat: &Vec<char>) -> (b: bool)
    ensures
        b == pat@.is_prefix_of(hay@),
{
    matches_at(hay, pat, 0)
}

/// The leftmost position at which `pat` occurs in `hay`, if any.
pub fn find(hay: &Vec<char>, pat: &Vec<char>) -> (r: Option<usize>)
    ensures
        match r {
            Some(i) => first_occurrence(hay@, pat@) == Some(i as int),
            None => first_occurrence(hay@, pat@) is None,
        },
{
    let n = hay.len();
    let m = pat.len();
    if m > n {
        return None;
    }
    let last = n - m;
    let mut i: usize = 0;
    loop
        invariant
            n == hay@.len(),
            m == pat@.len(),
            last == n - m,
            i <= last,
            forall|j: int| 0 <= j < i ==> !occurs_at(hay@, pat@, j),
        decreases last - i,
    {
        if matches_at(hay, pat, i) {
            proof {
                lemma_first_occurrence_is(hay@, pat@, i as int);
            }
            return Some(i);
        }
        if i == last {
            return None;
        }
        i += 1;
    }
}

} // verus!
