//! The traversals and the extension trait that creates them.
use vstd::prelude::*;

use core::cmp::Ordering;
use vstd::std_specs::cmp::{PartialEqSpec, PartialOrdSpec};

use std::collections::VecDeque;

use crate::extremum::{max_pick, min_pick};
use crate::history::{delta_at, last_match, lemma_delta_prefix};
use crate::policy::{
    comparator_ok, key_fn_ok, key_of, lemma_key_of, lemma_reports_equal, reports_equal, same_key,
    same_value,
};

verus! {

/// Distance from each item to its previous equal item, by the items' own `==`.
///
/// Each call of `next` takes one pending item, finds the most recent earlier item equal
/// to it, and returns the number of items strictly between the two; an item with no
/// earlier equal gets its own position.
pub struct Deltas<T> {
    items: Vec<(T, usize)>,
    source: VecDeque<T>,
}

impl<T> Deltas<T> {
    /// Items taken so far, in order.
    pub closed spec fn seen(&self) -> Seq<T> {
        self.items@.map_values(|p: (T, usize)| p.0)
    }

    /// Items not yet taken, in order.
    pub closed spec fn pending(&self) -> Seq<T> {
        self.source@
    }

    /// Each history entry holds the position at which its item was taken.
    pub closed spec fn wf(&self) -> bool {
        forall|k: int| 0 <= k < self.items@.len() ==> (#[trigger] self.items@[k]).1 == k
    }

    /// A traversal over `input`, with nothing taken yet.
    pub fn new(input: Vec<T>) -> (r: Self)
        ensures
            r.wf(),
            r.seen() == Seq::<T>::empty(),
            r.pending() == input@,
    {
        let r = Deltas { items: Vec::new(), source: queue_of(input) };
        assert(r.seen() =~= Seq::<T>::empty());
        r
    }
}

impl<T: PartialEq> Deltas<T> {
    /// The delta of the next pending item, or `None` once every item has been taken.
    pub fn next(&mut self) -> (r: Option<usize>)
        requires
            old(self).wf(),
        ensures
            final(self).wf(),
            old(self).pending().len() == 0 ==> {
                &&& r is None
                &&& final(self).seen() == old(self).seen()
                &&& final(self).pending() == old(self).pending()
            },
            old(self).pending().len() > 0 ==> {
                &&& r matches Some(d) && d <= old(self).seen().len()
                &&& final(self).seen() == old(self).seen().push(old(self).pending()[0])
                &&& final(self).pending() == old(self).pending().drop_first()
                &&& T::obeys_eq_spec() ==> r.unwrap() == delta_at(
                    final(self).seen(),
                    old(self).seen().len() as int,
                    same_value(),
                )
            },
    {
        let next_item = match self.source.pop_front() {
            Some(x) => x,
            None => return None,
        };
        let next_index = self.items.len();
        let ghost s = self.seen().push(next_item);
        let mut j: usize = next_index;
        let mut last_index: Option<usize> = None;
        while j > 0 && last_index.is_none()
            invariant
                j <= next_index == self.items@.len(),
                s == self.seen().push(next_item),
                self.wf(),
                last_index is None ==> (T::obeys_eq_spec() ==> last_match(
                    s,
                    next_index as int,
                    next_index as int,
                    same_value(),
                ) == last_match(s, next_index as int, j as int, same_value())),
                last_index matches Some(l) ==> l < next_index && (T::obeys_eq_spec() ==> l
                    == last_match(s, next_index as int, next_index as int, same_value())),
            decreases j + if last_index is None { 1int } else { 0int },
        {
            assert(s[j - 1] == self.items@[j - 1].0);
            if self.items[j - 1].0 == next_item {
                last_index = Some(self.items[j - 1].1);
            } else {
                j = j - 1;
            }
        }
        self.items.push((next_item, next_index));
        proof {
            assert(self.seen() =~= s);
        }
        match last_index {
            Some(last) => Some(next_index - last - 1),
            None => Some(next_index),
        }
    }
    /// The deltas of all pending items, in order.
    pub fn collect_vec(self) -> (r: Vec<usize>)
        requires
            self.wf(),
        ensures
            r@.len() == self.pending().len(),
            forall|i: int| 0 <= i < r@.len() ==> #[trigger] r@[i] <= self.seen().len() + i,
            T::obeys_eq_spec() ==> forall|i: int|
                0 <= i < r@.len() ==> #[trigger] r@[i] == delta_at(
                    self.seen() + self.pending(),
                    self.seen().len() + i,
                    same_value(),
                ),
    {
        let ghost all = self.seen() + self.pending();
        let ghost start = self.seen().len();
        let mut this = self;
        let mut r: Vec<usize> = Vec::new();
        loop
            invariant
                this.wf(),
                this.seen() + this.pending() == all,
                this.seen().len() == start + r@.len(),
                forall|i: int| 0 <= i < r@.len() ==> #[trigger] r@[i] <= start + i,
                T::obeys_eq_spec() ==> forall|i: int|
                    0 <= i < r@.len() ==> #[trigger] r@[i] == delta_at(all, start + i, same_value()),
            ensures
                this.pending().len() == 0,
            decreases this.pending().len(),
        {
            let ghost before = this.seen();
            match this.next() {
                Some(d) => {
                    proof {
                        assert(this.seen() + this.pending() =~= all);
                        lemma_delta_prefix(this.seen(), all, before.len() as int, same_value());
                    }
                    r.push(d);
                },
                None => break,
            }
        }
        assert(this.seen() + this.pending() =~= this.seen());
        r
    }
}

/// Distance from each item to its previous equal item, where two items are equal when a
/// comparator, given the older item first, answers `Ordering::Equal`.
pub struct DeltasBy<T, F> {
    items: Vec<(T, usize)>,
    source: VecDeque<T>,
    cmp_fn: F,
}

impl<T, F: Fn(&T, &T) -> Ordering> DeltasBy<T, F> {
    /// Items taken so far, in order.
    pub closed spec fn seen(&self) -> Seq<T> {
        self.items@.map_values(|p: (T, usize)| p.0)
    }

    /// Items not yet taken, in order.
    pub closed spec fn pending(&self) -> Seq<T> {
        self.source@
    }

    /// The comparator chosen at construction.
    pub closed spec fn comparator(&self) -> F {
        self.cmp_fn
    }

    /// Each history entry holds the position at which its item was taken, and the
    /// comparator is pure.
    pub closed spec fn wf(&self) -> bool {
        &&& forall|k: int| 0 <= k < self.items@.len() ==> (#[trigger] self.items@[k]).1 == k
        &&& comparator_ok(self.cmp_fn)
    }

    /// A traversal over `input`, with nothing taken yet.
    pub fn new(input: Vec<T>, cmp_fn: F) -> (r: Self)
        requires
            comparator_ok(cmp_fn),
        ensures
            r.wf(),
            r.seen() == Seq::<T>::empty(),
            r.pending() == input@,
            r.comparator() == cmp_fn,
    {
        let r = DeltasBy { items: Vec::new(), source: queue_of(input), cmp_fn };
        assert(r.seen() =~= Seq::<T>::empty());
        r
    }

    /// The delta of the next pending item, or `None` once every item has been taken.
    pub fn next(&mut self) -> (r: Option<usize>)
        requires
            old(self).wf(),
        ensures
            final(self).wf(),
            final(self).comparator() == old(self).comparator(),
            old(self).pending().len() == 0 ==> {
                &&& r is None
                &&& final(self).seen() == old(self).seen()
                &&& final(self).pending() == old(self).pending()
            },
            old(self).pending().len() > 0 ==> {
                &&& r matches Some(d) && d <= old(self).seen().len()
                &&& final(self).seen() == old(self).seen().push(old(self).pending()[0])
                &&& final(self).pending() == old(self).pending().drop_first()
                &&& r.unwrap() == delta_at(
                    final(self).seen(),
                    old(self).seen().len() as int,
                    reports_equal(old(self).comparator()),
                )
            },
    {
        let next_item = match self.source.pop_front() {
            Some(x) => x,
            None => return None,
        };
        let next_index = self.items.len();
        let ghost s = self.seen().push(next_item);
        let ghost same = reports_equal(self.cmp_fn);
        let mut j: usize = next_index;
        let mut last_index: Option<usize> = None;
        while j > 0 && last_index.is_none()
            invariant
                j <= next_index == self.items@.len(),
                s == self.seen().push(next_item),
                self.wf(),
                same == reports_equal(self.cmp_fn),
                last_index is None ==> last_match(s, next_index as int, next_index as int, same)
                    == last_match(s, next_index as int, j as int, same),
                last_index matches Some(l) ==> l < next_index && l == last_match(
                    s,
                    next_index as int,
                    next_index as int,
                    same,
                ),
            decreases j + if last_index is None { 1int } else { 0int },
        {
            assert(s[j - 1] == self.items@[j - 1].0);
            let order = (self.cmp_fn)(&self.items[j - 1].0, &next_item);
            proof {
                lemma_reports_equal(self.cmp_fn, s[j - 1], next_item, order);
            }
            if let Ordering::Equal = order {
                last_index = Some(self.items[j - 1].1);
            } else {
                j = j - 1;
            }
        }
        self.items.push((next_item, next_index));
        proof {
            assert(self.seen() =~= s);
        }
        match last_index {
            Some(last) => Some(next_index - last - 1),
            None => Some(next_index),
        }
    }

    /// The deltas of all pending items, in order.
    pub fn collect_vec(self) -> (r: Vec<usize>)
        requires
            self.wf(),
        ensures
            r@.len() == self.pending().len(),
            forall|i: int| 0 <= i < r@.len() ==> #[trigger] r@[i] <= self.seen().len() + i,
            forall|i: int|
                0 <= i < r@.len() ==> #[trigger] r@[i] == delta_at(
                    self.seen() + self.pending(),
                    self.seen().len() + i,
                    reports_equal(self.comparator()),
                ),
    {
        let ghost all = self.seen() + self.pending();
        let ghost start = self.seen().len();
        let ghost same = reports_equal(self.comparator());
        let mut this = self;
        let mut r: Vec<usize> = Vec::new();
        loop
            invariant
                this.wf(),
                this.seen() + this.pending() == all,
                this.seen().len() == start + r@.len(),
                forall|i: int| 0 <= i < r@.len() ==> #[trigger] r@[i] <= start + i,
                same == reports_equal(this.comparator()),
                forall|i: int| 0 <= i < r@.len() ==> #[trigger] r@[i] == delta_at(all, start + i, same),
            ensures
                this.pending().len() == 0,
            decreases this.pending().len(),
        {
            let ghost before = this.seen();
            match this.next() {
                Some(d) => {
                    proof {
                        assert(this.seen() + this.pending() =~= all);
                        lemma_delta_prefix(this.seen(), all, before.len() as int, same);
                    }
                    r.push(d);
                },
                None => break,
            }
        }
        assert(this.seen() + this.pending() =~= this.seen());
        r
    }
}

/// Distance from each item to its previous equal item, where two items are equal when
/// a key function gives them equal keys.
pub struct DeltasByKey<T, F> {
    items: Vec<(T, usize)>,
    source: VecDeque<T>,
    key_fn: F,
}

impl<T, K: PartialEq, F: Fn(&T) -> K> DeltasByKey<T, F> {
    /// Items taken so far, in order.
    pub closed spec fn seen(&self) -> Seq<T> {
        self.items@.map_values(|p: (T, usize)| p.0)
    }

    /// Items not yet taken, in order.
    pub closed spec fn pending(&self) -> Seq<T> {
        self.source@
    }

    /// The key function chosen at construction.
    pub closed spec fn key_function(&self) -> F {
        self.key_fn
    }

    /// Each history entry holds the position at which its item was taken, and the key
    /// function is pure.
    pub closed spec fn wf(&self) -> bool {
        &&& forall|k: int| 0 <= k < self.items@.len() ==> (#[trigger] self.items@[k]).1 == k
        &&& key_fn_ok(self.key_fn)
    }

    /// A traversal over `input`, with nothing taken yet.
    pub fn new(input: Vec<T>, key_fn: F) -> (r: Self)
        requires
            key_fn_ok(key_fn),
        ensures
            r.wf(),
            r.seen() == Seq::<T>::empty(),
            r.pending() == input@,
            r.key_function() == key_fn,
    {
        let r = DeltasByKey { items: Vec::new(), source: queue_of(input), key_fn };
        assert(r.seen() =~= Seq::<T>::empty());
        r
    }

    /// The delta of the next pending item, or `None` once every item has been taken.
    pub fn next(&mut self) -> (r: Option<usize>)
        requires
            old(self).wf(),
        ensures
            final(self).wf(),
            final(self).key_function() == old(self).key_function(),
            old(self).pending().len() == 0 ==> {
                &&& r is None
                &&& final(self).seen() == old(self).seen()
                &&& final(self).pending() == old(self).pending()
            },
            old(self).pending().len() > 0 ==> {
                &&& r matches Some(d) && d <= old(self).seen().len()
                &&& final(self).seen() == old(self).seen().push(old(self).pending()[0])
                &&& final(self).pending() == old(self).pending().drop_first()
                &&& K::obeys_eq_spec() ==> r.unwrap() == delta_at(
                    final(self).seen(),
                    old(self).seen().len() as int,
                    same_key(old(self).key_function()),
                )
            },
    {
        let next_item = match self.source.pop_front() {
            Some(x) => x,
            None => return None,
        };
        let next_index = self.items.len();
        let ghost s = self.seen().push(next_item);
        let ghost same = same_key(self.key_fn);
        let next_key = (self.key_fn)(&next_item);
        proof {
            lemma_key_of(self.key_fn, next_item, next_key);
        }
        let mut j: usize = next_index;
        let mut last_index: Option<usize> = None;
        while j > 0 && last_index.is_none()
            invariant
                j <= next_index == self.items@.len(),
                s == self.seen().push(next_item),
                self.wf(),
                same == same_key(self.key_fn),
                key_of(self.key_fn, next_item) == next_key,
                last_index is None ==> (K::obeys_eq_spec() ==> last_match(
                    s,
                    next_index as int,
                    next_index as int,
                    same,
                ) == last_match(s, next_index as int, j as int, same)),
                last_index matches Some(l) ==> l < next_index && (K::obeys_eq_spec() ==> l
                    == last_match(s, next_index as int, next_index as int, same)),
            decreases j + if last_index is None { 1int } else { 0int },
        {
            assert(s[j - 1] == self.items@[j - 1].0);
            let key = (self.key_fn)(&self.items[j - 1].0);
            proof {
                lemma_key_of(self.key_fn, s[j - 1], key);
            }
            if key == next_key {
                last_index = Some(self.items[j - 1].1);
            } else {
                j = j - 1;
            }
        }
        self.items.push((next_item, next_index));
        proof {
            assert(self.seen() =~= s);
        }
        match last_index {
            Some(last) => Some(next_index - last - 1),
            None => Some(next_index),
        }
    }

    /// The deltas of all pending items, in order.
    pub fn collect_vec(self) -> (r: Vec<usize>)
        requires
            self.wf(),
        ensures
            r@.len() == self.pending().len(),
            forall|i: int| 0 <= i < r@.len() ==> #[trigger] r@[i] <= self.seen().len() + i,
            K::obeys_eq_spec() ==> forall|i: int|
                0 <= i < r@.len() ==> #[trigger] r@[i] == delta_at(
                    self.seen() + self.pending(),
                    self.seen().len() + i,
                    same_key(self.key_function()),
                ),
    {
        let ghost all = self.seen() + self.pending();
        let ghost start = self.seen().len();
        let ghost same = same_key(self.key_function());
        let mut this = self;
        let mut r: Vec<usize> = Vec::new();
        loop
            invariant
                this.wf(),
                this.seen() + this.pending() == all,
                this.seen().len() == start + r@.len(),
                forall|i: int| 0 <= i < r@.len() ==> #[trigger] r@[i] <= start + i,
                same == same_key(this.key_function()),
                K::obeys_eq_spec() ==> forall|i: int|
                    0 <= i < r@.len() ==> #[trigger] r@[i] == delta_at(all, start + i, same),
            ensures
                this.pending().len() == 0,
            decreases this.pending().len(),
        {
            let ghost before = this.seen();
            match this.next() {
                Some(d) => {
                    proof {
                        assert(this.seen() + this.pending() =~= all);
                        lemma_delta_prefix(this.seen(), all, before.len() as int, same);
                    }
                    r.push(d);
                },
                None => break,
            }
        }
        assert(this.seen() + this.pending() =~= this.seen());
        r
    }
}

/// Operations added to a sequence of items.
pub trait IterExtra: Sized {
    type Item;

    /// The items, in order.
    spec fn elements(&self) -> Seq<Self::Item>;

    /// The item with the least key, where keys that cannot be compared count as equal;
    /// of several equal least keys the first wins. `None` for an empty sequence.
    fn min_by_partial_key<K: PartialOrd, F: Fn(&Self::Item) -> K>(self, key: F) -> (r: Option<
        Self::Item,
    >)
        requires
            key_fn_ok(key),
        ensures
            r is None <==> self.elements().len() == 0,
            self.elements().len() == 1 ==> r == Some(self.elements()[0]),
            r is Some ==> exists|i: int|
                0 <= i < self.elements().len() && r == Some(self.elements()[i]),
            K::obeys_partial_cmp_spec() && self.elements().len() > 0 ==> r == Some(
                self.elements()[min_pick(self.elements(), key, self.elements().len() as int)],
            ),
    ;

    /// The item with the greatest key, where keys that cannot be compared count as
    /// equal; of several equal greatest keys the last wins. `None` for an empty sequence.
    fn max_by_partial_key<K: PartialOrd, F: Fn(&Self::Item) -> K>(self, key: F) -> (r: Option<
        Self::Item,
    >)
        requires
            key_fn_ok(key),
        ensures
            r is None <==> self.elements().len() == 0,
            self.elements().len() == 1 ==> r == Some(self.elements()[0]),
            r is Some ==> exists|i: int|
                0 <= i < self.elements().len() && r == Some(self.elements()[i]),
            K::obeys_partial_cmp_spec() && self.elements().len() > 0 ==> r == Some(
                self.elements()[max_pick(self.elements(), key, self.elements().len() as int)],
            ),
    ;

    /// The items, or `None` where there are none.
    fn collect_some_vec(self) -> (r: Option<Vec<Self::Item>>)
        ensures
            self.elements().len() == 0 ==> r is None,
            self.elements().len() > 0 ==> (r matches Some(v) && v@ == self.elements()),
    ;

    /// The items, or `err` where there are none.
    fn collect_ok_vec_or<E>(self, err: E) -> (r: Result<Vec<Self::Item>, E>)
        ensures
            self.elements().len() == 0 ==> r == Err::<Vec<Self::Item>, E>(err),
            self.elements().len() > 0 ==> (r matches Ok(v) && v@ == self.elements()),
    ;

    /// The items, or the default error where there are none.
    fn collect_ok_vec_or_default<E: Default>(self) -> (r: Result<Vec<Self::Item>, E>)
        ensures
            self.elements().len() == 0 ==> r is Err,
            self.elements().len() > 0 ==> (r matches Ok(v) && v@ == self.elements()),
    ;

    /// A traversal that gives, for each item, the distance back to its previous equal
    /// item by the items' own `==`.
    fn deltas(self) -> (r: Deltas<Self::Item>) where Self::Item: PartialEq
        ensures
            r.wf(),
            r.seen() == Seq::<Self::Item>::empty(),
            r.pending() == self.elements(),
    ;

    /// A traversal that gives, for each item, the distance back to its previous item
    /// that `cmp_fn` reports equal to it.
    fn deltas_by<F: Fn(&Self::Item, &Self::Item) -> Ordering>(self, cmp_fn: F) -> (r: DeltasBy<
        Self::Item,
        F,
    >)
        requires
            comparator_ok(cmp_fn),
        ensures
            r.wf(),
            r.seen() == Seq::<Self::Item>::empty(),
            r.pending() == self.elements(),
            r.comparator() == cmp_fn,
    ;

    /// A traversal that gives, for each item, the distance back to its previous item
    /// with an equal key.
    fn deltas_by_key<K: PartialEq, F: Fn(&Self::Item) -> K>(self, key_fn: F) -> (r: DeltasByKey<
        Self::Item,
        F,
    >)
        requires
            key_fn_ok(key_fn),
        ensures
            r.wf(),
            r.seen() == Seq::<Self::Item>::empty(),
            r.pending() == self.elements(),
            r.key_function() == key_fn,
    ;
}

impl<T> IterExtra for Vec<T> {
    type Item = T;

    open spec fn elements(&self) -> Seq<T> {
        self@
    }

    fn min_by_partial_key<K: PartialOrd, F: Fn(&T) -> K>(self, key: F) -> (r: Option<T>) {
        if self.len() == 0 {
            return None;
        }
        let mut best: usize = 0;
        let mut i: usize = 1;
        while i < self.len()
            invariant
                key_fn_ok(key),
                1 <= i <= self@.len(),
                0 <= best < i,
                K::obeys_partial_cmp_spec() ==> best == min_pick(self@, key, i as int),
            decreases self@.len() - i,
        {
            let a = key(&self[best]);
            let b = key(&self[i]);
            proof {
                lemma_key_of(key, self@[best as int], a);
                lemma_key_of(key, self@[i as int], b);
            }
            let order = match a.partial_cmp(&b) {
                Some(o) => o,
                None => Ordering::Equal,
            };
            if let Ordering::Greater = order {
                best = i;
            }
            i = i + 1;
        }
        let mut items = self;
        Some(items.swap_remove(best))
    }

    fn max_by_partial_key<K: PartialOrd, F: Fn(&T) -> K>(self, key: F) -> (r: Option<T>) {
        if self.len() == 0 {
            return None;
        }
        let mut best: usize = 0;
        let mut i: usize = 1;
        while i < self.len()
            invariant
                key_fn_ok(key),
                1 <= i <= self@.len(),
                0 <= best < i,
                K::obeys_partial_cmp_spec() ==> best == max_pick(self@, key, i as int),
            decreases self@.len() - i,
        {
            let a = key(&self[best]);
            let b = key(&self[i]);
            proof {
                lemma_key_of(key, self@[best as int], a);
                lemma_key_of(key, self@[i as int], b);
            }
            let order = match a.partial_cmp(&b) {
                Some(o) => o,
                None => Ordering::Equal,
            };
            match order {
                Ordering::Greater => {},
                _ => {
                    best = i;
                },
            }
            i = i + 1;
        }
        let mut items = self;
        Some(items.swap_remove(best))
    }
    fn collect_some_vec(self) -> (r: Option<Vec<T>>) {
        if self.len() == 0 {
            None
        } else {
            Some(self)
        }
    }

    fn collect_ok_vec_or<E>(self, err: E) -> (r: Result<Vec<T>, E>) {
        if self.len() == 0 {
            Err(err)
        } else {
            Ok(self)
        }
    }

    fn collect_ok_vec_or_default<E: Default>(self) -> (r: Result<Vec<T>, E>) {
        if self.len() == 0 {
            Err(E::default())
        } else {
            Ok(self)
        }
    }

    fn deltas(self) -> (r: Deltas<T>) where T: PartialEq {
        Deltas::new(self)
    }

    fn deltas_by<F: Fn(&T, &T) -> Ordering>(self, cmp_fn: F) -> (r: DeltasBy<T, F>) {
        DeltasBy::new(self, cmp_fn)
    }

    fn deltas_by_key<K: PartialEq, F: Fn(&T) -> K>(self, key_fn: F) -> (r: DeltasByKey<T, F>) {
        DeltasByKey::new(self, key_fn)
    }
}

/// Moves the items of `v` into a queue, keeping their order.
fn queue_of<T>(v: Vec<T>) -> (r: VecDeque<T>)
    ensures
        r@ == v@,
{
    let ghost all = v@;
    let mut rest = v;
    let mut r: VecDeque<T> = VecDeque::new();
    while rest.len() > 0
        invariant
            rest@.len() <= all.len(),
            rest@ == all.subrange(0, rest@.len() as int),
            r@ == all.subrange(rest@.len() as int, all.len() as int),
        decreases rest@.len(),
    {
        let x = rest.pop().unwrap();
        r.push_front(x);
        assert(r@ =~= all.subrange(rest@.len() as int, all.len() as int));
    }
    r
}

} // verus!
