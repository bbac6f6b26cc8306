//! Equality policies for delta traversals, and what a caller-supplied comparator or key
//! function has to satisfy for its results to be well defined.
use vstd::prelude::*;

use core::cmp::Ordering;
use vstd::std_specs::cmp::PartialEqSpec;

use crate::history::{delta_at, lemma_same_policy};

verus! {

/// Native equality of the element type.
pub open spec fn same_value<T: PartialEq>() -> spec_fn(T, T) -> bool {
    |a: T, b: T| a.eq_spec(&b)
}

/// A comparator that can be called on any pair and always answers the same for it.
pub open spec fn comparator_ok<T, F: Fn(&T, &T) -> Ordering>(f: F) -> bool {
    &&& forall|a: T, b: T| #[trigger] call_requires(f, (&a, &b))
    &&& forall|a: T, b: T, o: Ordering, p: Ordering|
        #[trigger] call_ensures(f, (&a, &b), o) && #[trigger] call_ensures(f, (&a, &b), p) ==> o
            == p
}

/// Two elements are the same under a comparator when it reports them equal.
pub open spec fn reports_equal<T, F: Fn(&T, &T) -> Ordering>(f: F) -> spec_fn(T, T) -> bool {
    |a: T, b: T| call_ensures(f, (&a, &b), Ordering::Equal)
}

/// A key function that can be called on any element and always gives it the same key.
pub open spec fn key_fn_ok<T, K, F: Fn(&T) -> K>(f: F) -> bool {
    &&& forall|a: T| #[trigger] call_requires(f, (&a,))
    &&& forall|a: T, k: K, l: K|
        #[trigger] call_ensures(f, (&a,), k) && #[trigger] call_ensures(f, (&a,), l) ==> k == l
}

/// The key that a pure key function gives an element.
pub open spec fn key_of<T, K, F: Fn(&T) -> K>(f: F, a: T) -> K {
    choose|k: K| call_ensures(f, (&a,), k)
}

/// Two elements are the same under a key function when their keys are equal.
pub open spec fn same_key<T, K: PartialEq, F: Fn(&T) -> K>(f: F) -> spec_fn(T, T) -> bool {
    |a: T, b: T| key_of(f, a).eq_spec(&key_of(f, b))
}

/// A key function whose result, once returned, is the key of its argument.
pub proof fn lemma_key_of<T, K, F: Fn(&T) -> K>(f: F, a: T, k: K)
    requires
        key_fn_ok(f),
        call_ensures(f, (&a,), k),
    ensures
        key_of(f, a) == k,
{
}

/// A comparator's answer on a pair decides whether it reports the pair equal.
pub proof fn lemma_reports_equal<T, F: Fn(&T, &T) -> Ordering>(f: F, a: T, b: T, o: Ordering)
    requires
        comparator_ok(f),
        call_ensures(f, (&a, &b), o),
    ensures
        reports_equal(f)(a, b) <==> o == Ordering::Equal,
{
}

/// Deltas by native equality are deltas by key where the key of each element is the
/// element itself.
pub proof fn lemma_identity_key<T: PartialEq, F: Fn(&T) -> T>(s: Seq<T>, i: int, f: F)
    requires
        0 <= i < s.len(),
        forall|a: T, k: T| #[trigger] call_ensures(f, (&a,), k) <==> k == a,
    ensures
        delta_at(s, i, same_value()) == delta_at(s, i, same_key(f)),
{
    assert forall|a: T, b: T| #[trigger] same_value::<T>()(a, b) == same_key::<T, T, F>(f)(a, b) by {
        assert(call_ensures(f, (&a,), a));
        assert(call_ensures(f, (&b,), b));
    }
    lemma_same_policy(s, i, same_value(), same_key(f));
}

} // verus!
