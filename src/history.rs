//! The mathematical model of a delta traversal: for each position, the distance back
//! to the most recent earlier element that an equality policy relates to it.
use vstd::prelude::*;

verus! {

/// Position of the most recent element among `s[0..j]` that `same` relates to `s[i]`,
/// the older element given first, or -1 where there is none.
pub open spec fn last_match<T>(s: Seq<T>, i: int, j: int, same: spec_fn(T, T) -> bool) -> int
    decreases j,
{
    if j <= 0 {
        -1
    } else if same(s[j - 1], s[i]) {
        j - 1
    } else {
        last_match(s, i, j - 1, same)
    }
}

/// The delta of position `i`: the number of elements strictly between `s[i]` and its
/// most recent earlier match, or `i` itself where nothing before it matches.
pub open spec fn delta_at<T>(s: Seq<T>, i: int, same: spec_fn(T, T) -> bool) -> int {
    let k = last_match(s, i, i, same);
    if k < 0 {
        i
    } else {
        i - k - 1
    }
}

/// What `last_match` finds: a match below `j` with no match after it, or no match at all.
pub proof fn lemma_last_match<T>(s: Seq<T>, i: int, j: int, same: spec_fn(T, T) -> bool)
    requires
        0 <= j <= s.len(),
        0 <= i < s.len(),
    ensures
        -1 <= last_match(s, i, j, same) < j,
        last_match(s, i, j, same) >= 0 ==> same(s[last_match(s, i, j, same)], s[i]),
        forall|m: int| last_match(s, i, j, same) < m < j ==> !same(#[trigger] s[m], s[i]),
    decreases j,
{
    if j > 0 && !same(s[j - 1], s[i]) {
        lemma_last_match(s, i, j - 1, same);
    }
}

/// `last_match` reads only the elements below `j` and the element at `i`.
pub proof fn lemma_last_match_prefix<T>(
    s: Seq<T>,
    t: Seq<T>,
    i: int,
    j: int,
    same: spec_fn(T, T) -> bool,
)
    requires
        0 <= j <= s.len(),
        j <= t.len(),
        0 <= i < s.len(),
        i < t.len(),
        s[i] == t[i],
        forall|m: int| 0 <= m < j ==> s[m] == t[m],
    ensures
        last_match(s, i, j, same) == last_match(t, i, j, same),
    decreases j,
{
    if j > 0 {
        lemma_last_match_prefix(s, t, i, j - 1, same);
    }
}

/// The delta of a position depends on the elements up to it alone.
pub proof fn lemma_delta_prefix<T>(s: Seq<T>, t: Seq<T>, i: int, same: spec_fn(T, T) -> bool)
    requires
        0 <= i < s.len(),
        i < t.len(),
        forall|m: int| 0 <= m <= i ==> s[m] == t[m],
    ensures
        delta_at(s, i, same) == delta_at(t, i, same),
{
    lemma_last_match_prefix(s, t, i, i, same);
}

/// An element with no earlier match has its own position as its delta.
pub proof fn lemma_first_occurrence<T>(s: Seq<T>, i: int, same: spec_fn(T, T) -> bool)
    requires
        0 <= i < s.len(),
        forall|j: int| 0 <= j < i ==> !same(#[trigger] s[j], s[i]),
    ensures
        delta_at(s, i, same) == i,
{
    lemma_last_match(s, i, i, same);
}

/// An element that matches the element just before it has delta 0.
pub proof fn lemma_adjacent_repeat<T>(s: Seq<T>, i: int, same: spec_fn(T, T) -> bool)
    requires
        0 < i < s.len(),
        same(s[i - 1], s[i]),
    ensures
        delta_at(s, i, same) == 0,
{
}

/// A delta is never negative and never exceeds its position, so it stays below the
/// length of the sequence; an element with an earlier match has a delta below its
/// own position.
pub proof fn lemma_delta_bounds<T>(s: Seq<T>, i: int, same: spec_fn(T, T) -> bool)
    requires
        0 <= i < s.len(),
    ensures
        0 <= delta_at(s, i, same) <= i,
        delta_at(s, i, same) < s.len(),
        (exists|j: int| 0 <= j < i && same(#[trigger] s[j], s[i])) ==> delta_at(s, i, same) < i,
{
    lemma_last_match(s, i, i, same);
}

/// Two equality policies that agree on every pair give the same deltas.
pub proof fn lemma_same_policy<T>(
    s: Seq<T>,
    i: int,
    p: spec_fn(T, T) -> bool,
    q: spec_fn(T, T) -> bool,
)
    requires
        0 <= i < s.len(),
        forall|a: T, b: T| #[trigger] p(a, b) == q(a, b),
    ensures
        delta_at(s, i, p) == delta_at(s, i, q),
{
    assert(p == q);
}

} // verus!
