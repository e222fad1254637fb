//! Value bags: the values stored under one key, duplicates included.

use vstd::prelude::*;

verus! {

/// How the values of a bag are arranged.
#[derive(Clone, Copy, Debug, PartialEq, Eq, Structural)]
pub enum Order {
    /// Values stay in the order in which they were inserted.
    Insertion,
    /// Values are kept in ascending order; equal values stay in insertion order.
    Sorted,
}

/// `s` is in ascending order.
pub open spec fn sorted(s: Seq<i64>) -> bool {
    forall|i: int, j: int| 0 <= i <= j < s.len() ==> s[i] <= s[j]
}

/// `i` is the position of the first element of `s` that equals `v`.
pub open spec fn is_first_index(s: Seq<i64>, v: i64, i: int) -> bool {
    &&& 0 <= i < s.len()
    &&& s[i] == v
    &&& forall|j: int| 0 <= j < i ==> s[j] != v
}

/// The position of the first element of `s` that equals `v`.
/// Meaningful only if `s` contains `v`.
pub open spec fn first_index(s: Seq<i64>, v: i64) -> int {
    choose|i: int| is_first_index(s, v, i)
}

/// `p` splits `s` into the elements that are at most `v` and those above it.
pub open spec fn is_insert_point(s: Seq<i64>, v: i64, p: int) -> bool {
    &&& 0 <= p <= s.len()
    &&& forall|i: int| 0 <= i < p ==> s[i] <= v
    &&& forall|i: int| p <= i < s.len() ==> s[i] > v
}

/// Where `v` goes in the sorted sequence `s`: behind every element that is
/// at most `v`.
pub open spec fn insert_point(s: Seq<i64>, v: i64) -> int {
    choose|p: int| is_insert_point(s, v, p)
}

/// The bag `s` after `v` was inserted under the policy `order`.
pub open spec fn bag_insert(s: Seq<i64>, v: i64, order: Order) -> Seq<i64> {
    match order {
        Order::Insertion => s.push(v),
        Order::Sorted => s.insert(insert_point(s, v), v),
    }
}

/// The bag `s` without the first occurrence of `v`; `s` itself if `v` does
/// not occur.
pub open spec fn bag_remove(s: Seq<i64>, v: i64) -> Seq<i64> {
    if s.contains(v) {
        s.remove(first_index(s, v))
    } else {
        s
    }
}

/// A bag that obeys the policy `order`.
pub open spec fn bag_ok(s: Seq<i64>, order: Order) -> bool {
    order == Order::Sorted ==> sorted(s)
}

/// The first occurrence of a value is unique.
pub proof fn lemma_first_index_unique(s: Seq<i64>, v: i64, i: int)
    requires
        is_first_index(s, v, i),
    ensures
        s.contains(v),
        first_index(s, v) == i,
{
    let j = first_index(s, v);
    assert(is_first_index(s, v, j));
    if j < i {
        assert(s[j] != v);
    } else if i < j {
        assert(s[i] != v);
    }
}

/// A sequence that contains `v` has a first occurrence of it.
pub proof fn lemma_first_index_exists(s: Seq<i64>, v: i64)
    requires
        s.contains(v),
    ensures
        is_first_index(s, v, first_index(s, v)),
    decreases s.len(),
{
    let k = choose|k: int| 0 <= k < s.len() && s[k] == v;
    if exists|j: int| 0 <= j < k && s[j] == v {
        let j = choose|j: int| 0 <= j < k && s[j] == v;
        let t = s.subrange(0, k);
        assert(t[j] == v);
        lemma_first_index_exists(t, v);
        let f = first_index(t, v);
        assert(s[f] == t[f]);
        assert forall|i: int| 0 <= i < f implies s[i] != v by {
            assert(t[i] == s[i]);
        }
        assert(is_first_index(s, v, f));
    } else {
        assert(is_first_index(s, v, k));
    }
}

/// The insert point of a sorted sequence is unique.
pub proof fn lemma_insert_point_unique(s: Seq<i64>, v: i64, p: int)
    requires
        is_insert_point(s, v, p),
    ensures
        insert_point(s, v) == p,
{
    let q = insert_point(s, v);
    assert(is_insert_point(s, v, q));
    if q < p {
        assert(s[q] <= v);
        assert(s[q] > v);
    } else if p < q {
        assert(s[p] <= v);
        assert(s[p] > v);
    }
}

/// Inserting into a bag that obeys its policy gives one that obeys it.
pub proof fn lemma_bag_insert_ok(s: Seq<i64>, v: i64, order: Order, p: int)
    requires
        bag_ok(s, order),
        order == Order::Sorted ==> is_insert_point(s, v, p),
    ensures
        bag_ok(bag_insert(s, v, order), order),
{
    if order == Order::Sorted {
        lemma_insert_point_unique(s, v, p);
        let t = s.insert(p, v);
        assert forall|i: int, j: int| 0 <= i <= j < t.len() implies t[i] <= t[j] by {
            if i < p && j > p {
                assert(t[i] == s[i]);
                assert(t[j] == s[j - 1]);
            }
        }
    }
}

/// Removing a value from a bag that obeys its policy gives one that obeys it.
pub proof fn lemma_bag_remove_ok(s: Seq<i64>, v: i64, order: Order)
    requires
        bag_ok(s, order),
    ensures
        bag_ok(bag_remove(s, v), order),
{
    if s.contains(v) && order == Order::Sorted {
        lemma_first_index_exists(s, v);
        let f = first_index(s, v);
        let t = s.remove(f);
        assert forall|i: int, j: int| 0 <= i <= j < t.len() implies t[i] <= t[j] by {
            let a = if i < f { i } else { i + 1 };
            let b = if j < f { j } else { j + 1 };
            assert(t[i] == s[a]);
            assert(t[j] == s[b]);
        }
    }
}

/// A sorted sequence has an insert point for every value.
pub proof fn lemma_insert_point_exists(s: Seq<i64>, v: i64)
    requires
        sorted(s),
    ensures
        is_insert_point(s, v, insert_point(s, v)),
    decreases s.len(),
{
    if s.len() == 0 {
        assert(is_insert_point(s, v, 0));
    } else if s.last() <= v {
        assert forall|i: int| 0 <= i < s.len() implies s[i] <= v by {
            assert(s[i] <= s[s.len() - 1]);
        }
        assert(is_insert_point(s, v, s.len() as int));
    } else {
        let t = s.drop_last();
        assert(sorted(t)) by {
            assert forall|i: int, j: int| 0 <= i <= j < t.len() implies t[i] <= t[j] by {
                assert(s[i] <= s[j]);
            }
        }
        lemma_insert_point_exists(t, v);
        let p = insert_point(t, v);
        assert forall|i: int| 0 <= i < p implies s[i] <= v by {
            assert(t[i] == s[i]);
        }
        assert forall|i: int| p <= i < s.len() implies s[i] > v by {
            if i < t.len() {
                assert(t[i] == s[i]);
            }
        }
        assert(is_insert_point(s, v, p));
    }
}

/// Inserting a value adds one occurrence of it and changes no other count.
pub proof fn lemma_bag_insert_counts(s: Seq<i64>, v: i64, order: Order)
    requires
        bag_ok(s, order),
    ensures
        bag_insert(s, v, order).to_multiset() == s.to_multiset().insert(v),
        bag_insert(s, v, order).len() == s.len() + 1,
        bag_insert(s, v, order).contains(v),
{
    broadcast use vstd::seq_lib::group_to_multiset_ensures;

    let t = bag_insert(s, v, order);
    match order {
        Order::Insertion => {
            assert(t[s.len() as int] == v);
        },
        Order::Sorted => {
            lemma_insert_point_exists(s, v);
            let p = insert_point(s, v);
            assert(t[p] == v);
            assert(t.remove(p) =~= s);
            assert(t.remove(p).to_multiset() =~= t.to_multiset().remove(t[p]));
            assert(t.to_multiset().count(v) > 0);
            assert(t.to_multiset() =~= s.to_multiset().insert(v));
        },
    }
}

/// Removing a value that occurs takes away one occurrence of it and changes
/// no other count; removing one that does not occur changes nothing.
pub proof fn lemma_bag_remove_counts(s: Seq<i64>, v: i64)
    ensures
        bag_remove(s, v).to_multiset() == s.to_multiset().remove(v),
        s.contains(v) ==> bag_remove(s, v).len() == s.len() - 1,
        !s.contains(v) ==> bag_remove(s, v) == s,
{
    broadcast use vstd::seq_lib::group_to_multiset_ensures;

    if s.contains(v) {
        lemma_first_index_exists(s, v);
        let f = first_index(s, v);
        assert(s.remove(f).to_multiset() =~= s.to_multiset().remove(s[f]));
    } else {
        assert(s.to_multiset().count(v) == 0);
        assert(s.to_multiset().remove(v) =~= s.to_multiset());
    }
}

/// The values stored under one key. Equal values are separate entries.
#[derive(Debug)]
pub struct ValueBag {
    items: Vec<i64>,
    order: Order,
}

impl View for ValueBag {
    type V = Seq<i64>;

    closed spec fn view(&self) -> Seq<i64> {
        self.items@
    }
}

impl ValueBag {
    /// The policy that this bag was made with.
    pub closed spec fn policy(&self) -> Order {
        self.order
    }

    /// The bag obeys its policy.
    pub closed spec fn wf(&self) -> bool {
        bag_ok(self.items@, self.order)
    }

    /// An empty bag with the given policy.
    pub fn new(order: Order) -> (bag: ValueBag)
        ensures
            bag@ == Seq::<i64>::empty(),
            bag.policy() == order,
            bag.wf(),
    {
        ValueBag { items: Vec::new(), order }
    }

    /// The policy that this bag was made with.
    pub fn order(&self) -> (order: Order)
        ensures
            order == self.policy(),
    {
        self.order
    }

    /// The number of values, duplicates counted.
    pub fn len(&self) -> (n: usize)
        ensures
            n == self@.len(),
    {
        self.items.len()
    }

    /// Whether the bag holds no value.
    pub fn is_empty(&self) -> (empty: bool)
        ensures
            empty == (self@.len() == 0),
    {
        self.items.len() == 0
    }

    /// The value at position `i` in bag order, if there is one.
    pub fn get(&self, i: usize) -> (value: Option<i64>)
        ensures
            value == (if i < self@.len() { Some(self@[i as int]) } else { None }),
    {
        if i < self.items.len() {
            Some(self.items[i])
        } else {
            None
        }
    }

    /// The position of the first occurrence of `v`, if it occurs.
    pub fn position(&self, v: i64) -> (pos: Option<usize>)
        ensures
            match pos {
                Some(i) => is_first_index(self@, v, i as int),
                None => !self@.contains(v),
            },
    {
        let mut i: usize = 0;
        while i < self.items.len()
            invariant
                i <= self.items@.len(),
                forall|j: int| 0 <= j < i ==> self.items@[j] != v,
            decreases self.items@.len() - i,
        {
            if self.items[i] == v {
                return Some(i);
            }
            i += 1;
        }
        None
    }

    /// Whether `v` occurs in the bag.
    pub fn contains(&self, v: i64) -> (found: bool)
        ensures
            found == self@.contains(v),
    {
        self.position(v).is_some()
    }

    /// The values in bag order.
    pub fn to_vec(&self) -> (values: Vec<i64>)
        ensures
            values@ == self@,
    {
        self.items.clone()
    }

    /// Adds `v`: at the end under `Order::Insertion`, behind the values that
    /// are at most `v` under `Order::Sorted`.
    pub fn insert(&mut self, v: i64)
        requires
            old(self).wf(),
        ensures
            final(self)@ == bag_insert(old(self)@, v, old(self).policy()),
            final(self).policy() == old(self).policy(),
            final(self).wf(),
    {
        match self.order {
            Order::Insertion => {
                self.items.push(v);
            },
            Order::Sorted => {
                let mut p: usize = 0;
                let mut end: usize = self.items.len();
                while p < end
                    invariant
                        p <= end <= self.items@.len(),
                        sorted(self.items@),
                        forall|i: int| 0 <= i < p ==> self.items@[i] <= v,
                        forall|i: int| end <= i < self.items@.len() ==> self.items@[i] > v,
                    decreases end - p,
                {
                    let mid = p + (end - p) / 2;
                    if self.items[mid] <= v {
                        assert forall|i: int| 0 <= i < mid + 1 implies self.items@[i] <= v by {
                            assert(self.items@[i] <= self.items@[mid as int]);
                        }
                        p = mid + 1;
                    } else {
                        assert forall|i: int| mid <= i < self.items@.len() implies self.items@[i]
                            > v by {
                            assert(self.items@[mid as int] <= self.items@[i]);
                        }
                        end = mid;
                    }
                }
                proof {
                    assert(is_insert_point(self.items@, v, p as int));
                    lemma_bag_insert_ok(self.items@, v, self.order, p as int);
                    lemma_insert_point_unique(self.items@, v, p as int);
                }
                self.items.insert(p, v);
            },
        }
    }

    /// Removes the first occurrence of `v` and says whether there was one.
    /// The bag may become empty.
    pub fn remove_value(&mut self, v: i64) -> (removed: bool)
        requires
            old(self).wf(),
        ensures
            removed == old(self)@.contains(v),
            final(self)@ == bag_remove(old(self)@, v),
            final(self).policy() == old(self).policy(),
            final(self).wf(),
    {
        proof {
            lemma_bag_remove_ok(self.items@, v, self.order);
        }
        match self.position(v) {
            Some(i) => {
                proof {
                    lemma_first_index_unique(self.items@, v, i as int);
                }
                self.items.remove(i);
                true
            },
            None => false,
        }
    }
}

} // verus!
