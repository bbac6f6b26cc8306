//! The mathematical model of picking an element by a partially ordered key.
use vstd::prelude::*;

use core::cmp::Ordering;
use vstd::std_specs::cmp::PartialOrdSpec;

use crate::policy::key_of;

verus! {

/// The order of two keys, where a comparison that is undefined counts as equal.
pub open spec fn order_or_equal<K: PartialOrd>(a: K, b: K) -> Ordering {
    match a.partial_cmp_spec(&b) {
        Some(o) => o,
        None => Ordering::Equal,
    }
}

/// The position that the minimum search picks among `s[0..n]`: walking left to right,
/// a later element replaces the pick only where the pick's key is greater than its own,
/// so the first of equal keys stays.
pub open spec fn min_pick<T, K: PartialOrd, F: Fn(&T) -> K>(s: Seq<T>, f: F, n: int) -> int
    decreases n,
{
    if n <= 1 {
        0
    } else {
        let m = min_pick(s, f, n - 1);
        if order_or_equal(key_of(f, s[m]), key_of(f, s[n - 1])) == Ordering::Greater {
            n - 1
        } else {
            m
        }
    }
}

/// The position that the maximum search picks among `s[0..n]`: walking left to right,
/// a later element replaces the pick unless the pick's key is greater than its own,
/// so the last of equal keys wins.
pub open spec fn max_pick<T, K: PartialOrd, F: Fn(&T) -> K>(s: Seq<T>, f: F, n: int) -> int
    decreases n,
{
    if n <= 1 {
        0
    } else {
        let m = max_pick(s, f, n - 1);
        if order_or_equal(key_of(f, s[m]), key_of(f, s[n - 1])) == Ordering::Greater {
            m
        } else {
            n - 1
        }
    }
}

} // verus!
