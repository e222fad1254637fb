//! One copy of the multimap: keys in ascending order, each with its bag.

use crate::bag::{Order, ValueBag};
use crate::model::{
    apply, bag_of, in_range, is_key_list, key_in_range, lemma_ordered_keys, map_insert,
    map_remove_entry, map_remove_range, map_remove_value, ordered_keys, Bound, Operation,
};
use vstd::prelude::*;

verus! {

/// A key with the values stored under it.
#[derive(Debug)]
struct Entry {
    key: i64,
    bag: ValueBag,
}

/// Some entry of `es` has the key `k`.
spec fn present(es: Seq<Entry>, k: i64) -> bool {
    exists|i: int| 0 <= i < es.len() && (#[trigger] es[i]).key == k
}

/// The position of the entry with the key `k`.
spec fn slot(es: Seq<Entry>, k: i64) -> int {
    choose|i: int| 0 <= i < es.len() && (#[trigger] es[i]).key == k
}

/// The keys of `es` ascend strictly.
spec fn ordered(es: Seq<Entry>) -> bool {
    forall|i: int, j: int| 0 <= i < j < es.len() ==> (#[trigger] es[i]).key < (#[trigger] es[j]).key
}

/// Every bag of `es` is well formed and has the policy `order`.
spec fn bags_ok(es: Seq<Entry>, order: Order) -> bool {
    forall|i: int|
        0 <= i < es.len() ==> (#[trigger] es[i]).bag.wf() && es[i].bag.policy() == order
}

/// The map that the entries `es` stand for.
spec fn contents(es: Seq<Entry>) -> Map<i64, Seq<i64>> {
    Map::new(|k: i64| present(es, k), |k: i64| es[slot(es, k)].bag@)
}

/// `p` is where an entry with the key `k` belongs in `es`.
spec fn is_gap(es: Seq<Entry>, k: i64, p: int) -> bool {
    &&& 0 <= p <= es.len()
    &&& forall|i: int| 0 <= i < p ==> (#[trigger] es[i]).key < k
    &&& forall|i: int| p <= i < es.len() ==> (#[trigger] es[i]).key > k
}

proof fn lemma_slot(es: Seq<Entry>, i: int)
    requires
        ordered(es),
        0 <= i < es.len(),
    ensures
        present(es, es[i].key),
        slot(es, es[i].key) == i,
        contents(es).dom().contains(es[i].key),
        contents(es)[es[i].key] == es[i].bag@,
{
    let k = es[i].key;
    let j = slot(es, k);
    assert(0 <= j < es.len() && es[j].key == k);
    if j < i {
        assert(es[j].key < es[i].key);
    } else if i < j {
        assert(es[i].key < es[j].key);
    }
}

proof fn lemma_gap_absent(es: Seq<Entry>, k: i64, p: int)
    requires
        is_gap(es, k, p),
    ensures
        !present(es, k),
        !contents(es).dom().contains(k),
{
    if present(es, k) {
        let i = slot(es, k);
        assert(es[i].key == k);
        if i < p {
            assert(es[i].key < k);
        } else {
            assert(es[i].key > k);
        }
    }
}

proof fn lemma_insert_entry(es: Seq<Entry>, p: int, e: Entry)
    requires
        ordered(es),
        is_gap(es, e.key, p),
    ensures
        ordered(es.insert(p, e)),
        contents(es.insert(p, e)) == contents(es).insert(e.key, e.bag@),
{
    let t = es.insert(p, e);
    assert(ordered(t)) by {
        assert forall|i: int, j: int| 0 <= i < j < t.len() implies (#[trigger] t[i]).key < (
        #[trigger] t[j]).key by {
            let a = if i < p { i } else { i - 1 };
            let b = if j < p { j } else { j - 1 };
            if i != p {
                assert(t[i] == es[a]);
            }
            if j != p {
                assert(t[j] == es[b]);
            }
        }
    }
    assert(t[p] == e);
    lemma_slot(t, p);
    assert forall|k: i64| present(t, k) <==> (k == e.key || present(es, k)) by {
        if present(t, k) {
            let i = slot(t, k);
            if i < p {
                assert(t[i] == es[i]);
            } else if i > p {
                assert(t[i] == es[i - 1]);
            }
        }
        if present(es, k) {
            let i = slot(es, k);
            if i < p {
                assert(t[i] == es[i]);
            } else {
                assert(t[i + 1] == es[i]);
            }
        }
    }
    assert forall|k: i64| present(es, k) && k != e.key implies contents(t)[k] == contents(es)[k] by {
        let i = slot(es, k);
        lemma_slot(es, i);
        if i < p {
            assert(t[i] == es[i]);
            lemma_slot(t, i);
        } else {
            assert(t[i + 1] == es[i]);
            lemma_slot(t, i + 1);
        }
    }
    assert(contents(t) =~= contents(es).insert(e.key, e.bag@));
}

proof fn lemma_remove_entry(es: Seq<Entry>, p: int)
    requires
        ordered(es),
        0 <= p < es.len(),
    ensures
        ordered(es.remove(p)),
        contents(es.remove(p)) == contents(es).remove(es[p].key),
{
    let t = es.remove(p);
    assert(ordered(t)) by {
        assert forall|i: int, j: int| 0 <= i < j < t.len() implies (#[trigger] t[i]).key < (
        #[trigger] t[j]).key by {
            let a = if i < p { i } else { i + 1 };
            let b = if j < p { j } else { j + 1 };
            assert(t[i] == es[a]);
            assert(t[j] == es[b]);
        }
    }
    lemma_slot(es, p);
    assert forall|k: i64| present(t, k) <==> (k != es[p].key && present(es, k)) by {
        if present(t, k) {
            let i = slot(t, k);
            let a = if i < p { i } else { i + 1 };
            assert(t[i] == es[a]);
            lemma_slot(es, a);
        }
        if present(es, k) && k != es[p].key {
            let i = slot(es, k);
            if i < p {
                assert(t[i] == es[i]);
            } else {
                assert(t[i - 1] == es[i]);
            }
        }
    }
    assert forall|k: i64| present(t, k) implies contents(t)[k] == contents(es)[k] by {
        let i = slot(t, k);
        lemma_slot(t, i);
        let a = if i < p { i } else { i + 1 };
        assert(t[i] == es[a]);
        lemma_slot(es, a);
    }
    assert(contents(t) =~= contents(es).remove(es[p].key));
}

proof fn lemma_update_entry(es: Seq<Entry>, p: int, e: Entry)
    requires
        ordered(es),
        0 <= p < es.len(),
        e.key == es[p].key,
    ensures
        ordered(es.update(p, e)),
        contents(es.update(p, e)) == contents(es).insert(e.key, e.bag@),
{
    let t = es.update(p, e);
    assert(ordered(t)) by {
        assert forall|i: int, j: int| 0 <= i < j < t.len() implies (#[trigger] t[i]).key < (
        #[trigger] t[j]).key by {
            assert(t[i].key == es[i].key);
            assert(t[j].key == es[j].key);
        }
    }
    lemma_slot(t, p);
    lemma_slot(es, p);
    assert forall|k: i64| present(t, k) <==> present(es, k) by {
        if present(t, k) {
            let i = slot(t, k);
            assert(t[i].key == es[i].key);
        }
        if present(es, k) {
            let i = slot(es, k);
            assert(t[i].key == es[i].key);
        }
    }
    assert forall|k: i64| present(es, k) && k != e.key implies contents(t)[k] == contents(es)[k] by {
        let i = slot(es, k);
        lemma_slot(es, i);
        assert(t[i] == es[i]);
        lemma_slot(t, i);
    }
    assert(contents(t) =~= contents(es).insert(e.key, e.bag@));
}

proof fn lemma_count(es: Seq<Entry>)
    requires
        ordered(es),
    ensures
        contents(es).dom().finite(),
        contents(es).dom().len() == es.len(),
    decreases es.len(),
{
    if es.len() == 0 {
        assert(contents(es).dom() =~= Set::<i64>::empty());
    } else {
        let p = es.len() - 1;
        let t = es.remove(p);
        lemma_remove_entry(es, p);
        lemma_count(t);
        lemma_slot(es, p);
        assert(contents(es).dom() =~= contents(t).dom().insert(es[p].key));
    }
}

proof fn lemma_bags_remove(es: Seq<Entry>, p: int, order: Order)
    requires
        bags_ok(es, order),
        0 <= p < es.len(),
    ensures
        bags_ok(es.remove(p), order),
{
    let t = es.remove(p);
    assert forall|i: int| 0 <= i < t.len() implies (#[trigger] t[i]).bag.wf() && t[i].bag.policy()
        == order by {
        let a = if i < p { i } else { i + 1 };
        assert(t[i] == es[a]);
    }
}

/// One copy of the multimap.
#[derive(Debug)]
pub struct InnerMap {
    entries: Vec<Entry>,
    order: Order,
}

impl View for InnerMap {
    type V = Map<i64, Seq<i64>>;

    closed spec fn view(&self) -> Map<i64, Seq<i64>> {
        contents(self.entries@)
    }
}

impl InnerMap {
    /// The bag policy that this map was made with.
    pub closed spec fn policy(&self) -> Order {
        self.order
    }

    /// Keys ascend strictly, and every bag obeys the map's policy.
    pub closed spec fn wf(&self) -> bool {
        &&& ordered(self.entries@)
        &&& bags_ok(self.entries@, self.order)
    }

    /// The keys in ascending order.
    spec fn key_seq(&self) -> Seq<i64> {
        Seq::new(self.entries@.len(), |i: int| self.entries@[i].key)
    }

    proof fn lemma_key_seq(&self)
        requires
            self.wf(),
        ensures
            is_key_list(self@, self.key_seq()),
            ordered_keys(self@) == self.key_seq(),
            self@.dom().finite(),
            self.key_seq().len() == self@.dom().len(),
    {
        let es = self.entries@;
        let ks = self.key_seq();
        lemma_count(es);
        assert forall|i: int, j: int| 0 <= i < j < ks.len() implies ks[i] < ks[j] by {
            assert(es[i].key < es[j].key);
        }
        assert forall|k: i64| ks.contains(k) <==> self@.dom().contains(k) by {
            if ks.contains(k) {
                let i = choose|i: int| 0 <= i < ks.len() && ks[i] == k;
                lemma_slot(es, i);
            }
            if self@.dom().contains(k) {
                let i = slot(es, k);
                assert(ks[i] == k);
            }
        }
        lemma_ordered_keys(self@, ks);
    }

    /// An empty map whose bags will follow `order`.
    pub fn new(order: Order) -> (map: InnerMap)
        ensures
            map@ == Map::<i64, Seq<i64>>::empty(),
            map.policy() == order,
            map.wf(),
    {
        let map = InnerMap { entries: Vec::new(), order };
        assert(map@ =~= Map::<i64, Seq<i64>>::empty());
        map
    }

    /// The bag policy that this map was made with.
    pub fn order(&self) -> (order: Order)
        ensures
            order == self.policy(),
    {
        self.order
    }

    /// The number of keys, those with an empty bag included.
    pub fn len(&self) -> (n: usize)
        requires
            self.wf(),
        ensures
            n == self@.dom().len(),
    {
        proof {
            lemma_count(self.entries@);
        }
        self.entries.len()
    }

    /// Whether the map has no key.
    pub fn is_empty(&self) -> (empty: bool)
        requires
            self.wf(),
        ensures
            empty == (self@.dom().len() == 0),
    {
        proof {
            lemma_count(self.entries@);
        }
        self.entries.len() == 0
    }

    /// Binary search for `k`: its position if it is present, else the gap
    /// where it belongs.
    fn find(&self, k: i64) -> (r: (bool, usize))
        requires
            self.wf(),
        ensures
            r.0 ==> r.1 < self.entries@.len() && self.entries@[r.1 as int].key == k,
            !r.0 ==> is_gap(self.entries@, k, r.1 as int),
    {
        let mut lo: usize = 0;
        let mut hi: usize = self.entries.len();
        while lo < hi
            invariant
                self.wf(),
                lo <= hi <= self.entries@.len(),
                forall|i: int| 0 <= i < lo ==> (#[trigger] self.entries@[i]).key < k,
                forall|i: int| hi <= i < self.entries@.len() ==> (#[trigger] self.entries@[i]).key > k,
            decreases hi - lo,
        {
            let mid = lo + (hi - lo) / 2;
            let key = self.entries[mid].key;
            if key == k {
                return (true, mid);
            } else if key < k {
                assert forall|i: int| 0 <= i < mid + 1 implies (#[trigger] self.entries@[i]).key
                    < k by {
                    if i < mid {
                        assert(self.entries@[i].key < self.entries@[mid as int].key);
                    }
                }
                lo = mid + 1;
            } else {
                assert forall|i: int| mid <= i < self.entries@.len() implies (
                #[trigger] self.entries@[i]).key > k by {
                    if i > mid {
                        assert(self.entries@[mid as int].key < self.entries@[i].key);
                    }
                }
                hi = mid;
            }
        }
        (false, lo)
    }

    /// Whether `k` is present, be it with an empty bag.
    pub fn contains_key(&self, k: i64) -> (present: bool)
        requires
            self.wf(),
        ensures
            present == self@.dom().contains(k),
    {
        let (found, p) = self.find(k);
        proof {
            if found {
                lemma_slot(self.entries@, p as int);
            } else {
                lemma_gap_absent(self.entries@, k, p as int);
            }
        }
        found
    }

    /// The bag under `k`, if the key is present.
    pub fn get(&self, k: i64) -> (bag: Option<&ValueBag>)
        requires
            self.wf(),
        ensures
            bag is Some == self@.dom().contains(k),
            bag matches Some(b) ==> b@ == self@[k] && b.wf() && b.policy() == self.policy(),
    {
        let (found, p) = self.find(k);
        proof {
            if found {
                lemma_slot(self.entries@, p as int);
            } else {
                lemma_gap_absent(self.entries@, k, p as int);
            }
        }
        if found {
            Some(&self.entries[p].bag)
        } else {
            None
        }
    }

    /// The keys in ascending order.
    pub fn keys(&self) -> (keys: Vec<i64>)
        requires
            self.wf(),
        ensures
            keys@ == ordered_keys(self@),
            is_key_list(self@, keys@),
            keys@.len() == self@.dom().len(),
    {
        proof {
            self.lemma_key_seq();
        }
        let mut keys: Vec<i64> = Vec::new();
        let mut i: usize = 0;
        while i < self.entries.len()
            invariant
                i <= self.entries@.len(),
                keys@.len() == i,
                forall|j: int| 0 <= j < i ==> keys@[j] == self.entries@[j].key,
            decreases self.entries@.len() - i,
        {
            keys.push(self.entries[i].key);
            i += 1;
        }
        assert(keys@ =~= self.key_seq());
        keys
    }

    /// The bags, in ascending order of their keys.
    pub fn values(&self) -> (bags: Vec<Vec<i64>>)
        requires
            self.wf(),
        ensures
            bags@.len() == ordered_keys(self@).len(),
            is_key_list(self@, ordered_keys(self@)),
            forall|i: int|
                0 <= i < bags@.len() ==> (#[trigger] bags@[i])@ == self@[ordered_keys(self@)[i]],
    {
        proof {
            self.lemma_key_seq();
        }
        let mut bags: Vec<Vec<i64>> = Vec::new();
        let mut i: usize = 0;
        while i < self.entries.len()
            invariant
                self.wf(),
                i <= self.entries@.len(),
                bags@.len() == i,
                forall|j: int| 0 <= j < i ==> (#[trigger] bags@[j])@ == self.entries@[j].bag@,
            decreases self.entries@.len() - i,
        {
            bags.push(self.entries[i].bag.to_vec());
            i += 1;
        }
        proof {
            assert forall|j: int| 0 <= j < bags@.len() implies (#[trigger] bags@[j])@
                == self@[self.key_seq()[j]] by {
                lemma_slot(self.entries@, j);
            }
        }
        bags
    }

    /// Adds `v` under `k`. An absent key is created with `v` as its only
    /// value.
    pub fn upsert_insert(&mut self, k: i64, v: i64)
        requires
            old(self).wf(),
        ensures
            final(self)@ == map_insert(old(self)@, k, v, old(self).policy()),
            final(self).policy() == old(self).policy(),
            final(self).wf(),
    {
        let (found, p) = self.find(k);
        if found {
            proof {
                lemma_slot(self.entries@, p as int);
            }
            self.entries[p].bag.insert(v);
            proof {
                let e = self.entries@[p as int];
                lemma_update_entry(old(self).entries@, p as int, e);
                assert(self.entries@ =~= old(self).entries@.update(p as int, e));
            }
        } else {
            let mut bag = ValueBag::new(self.order);
            bag.insert(v);
            let entry = Entry { key: k, bag };
            proof {
                lemma_gap_absent(self.entries@, k, p as int);
                lemma_insert_entry(self.entries@, p as int, entry);
                let t = self.entries@.insert(p as int, entry);
                assert(bags_ok(t, self.order)) by {
                    assert forall|i: int| 0 <= i < t.len() implies (#[trigger] t[i]).bag.wf()
                        && t[i].bag.policy() == self.order by {
                        if i < p {
                            assert(t[i] == self.entries@[i]);
                        } else if i > p {
                            assert(t[i] == self.entries@[i - 1]);
                        }
                    }
                }
                assert(bag_of(self@, k) == Seq::<i64>::empty());
            }
            self.entries.insert(p, entry);
        }
    }
    /// Deletes `k` with its whole bag. An absent key is left absent.
    pub fn remove_entry(&mut self, k: i64)
        requires
            old(self).wf(),
        ensures
            final(self)@ == map_remove_entry(old(self)@, k),
            final(self).policy() == old(self).policy(),
            final(self).wf(),
    {
        let (found, p) = self.find(k);
        if found {
            proof {
                lemma_remove_entry(self.entries@, p as int);
                lemma_bags_remove(self.entries@, p as int, self.order);
            }
            self.entries.remove(p);
        } else {
            proof {
                lemma_gap_absent(self.entries@, k, p as int);
                assert(self@.remove(k) =~= self@);
            }
        }
    }

    /// Takes the first occurrence of `v` out of the bag of `k` and says
    /// whether there was one. The key stays, even if its bag is now empty.
    pub fn remove_value(&mut self, k: i64, v: i64) -> (removed: bool)
        requires
            old(self).wf(),
        ensures
            removed == bag_of(old(self)@, k).contains(v),
            final(self)@ == map_remove_value(old(self)@, k, v),
            final(self).policy() == old(self).policy(),
            final(self).wf(),
    {
        let (found, p) = self.find(k);
        if found {
            proof {
                lemma_slot(self.entries@, p as int);
            }
            let removed = self.entries[p].bag.remove_value(v);
            proof {
                let e = self.entries@[p as int];
                lemma_update_entry(old(self).entries@, p as int, e);
                assert(self.entries@ =~= old(self).entries@.update(p as int, e));
            }
            removed
        } else {
            proof {
                lemma_gap_absent(self.entries@, k, p as int);
            }
            false
        }
    }
    /// Deletes every key between `lo` and `hi`; the other keys keep their
    /// bags.
    pub fn remove_range(&mut self, lo: Bound, hi: Bound)
        requires
            old(self).wf(),
        ensures
            final(self)@ == map_remove_range(old(self)@, lo, hi),
            final(self).policy() == old(self).policy(),
            final(self).wf(),
    {
        let mut i: usize = 0;
        while i < self.entries.len()
            invariant
                self.wf(),
                self.order == old(self).order,
                i <= self.entries@.len(),
                forall|j: int| 0 <= j < i ==> !in_range(lo, hi, (#[trigger] self.entries@[j]).key),
                forall|k: i64|
                    present(self.entries@, k) ==> present(old(self).entries@, k) && contents(
                        self.entries@,
                    )[k] == contents(old(self).entries@)[k],
                forall|k: i64|
                    present(old(self).entries@, k) && !in_range(lo, hi, k) ==> present(
                        self.entries@,
                        k,
                    ),
            decreases self.entries@.len() - i,
        {
            let key = self.entries[i].key;
            if key_in_range(lo, hi, key) {
                proof {
                    lemma_remove_entry(self.entries@, i as int);
                    lemma_bags_remove(self.entries@, i as int, self.order);
                }
                let ghost before = self.entries@;
                self.entries.remove(i);
                proof {
                    assert forall|j: int| 0 <= j < i implies !in_range(
                        lo,
                        hi,
                        (#[trigger] self.entries@[j]).key,
                    ) by {
                        assert(self.entries@[j] == before[j]);
                    }
                    assert forall|k: i64| present(self.entries@, k) implies present(before, k)
                        && contents(self.entries@)[k] == contents(before)[k] by {
                        assert(contents(self.entries@).dom().contains(k));
                    }
                    assert forall|k: i64|
                        present(old(self).entries@, k) && !in_range(lo, hi, k) implies present(
                        self.entries@,
                        k,
                    ) by {
                        assert(contents(before).dom().contains(k));
                        assert(contents(self.entries@).dom().contains(k));
                    }
                }
            } else {
                i += 1;
            }
        }
        proof {
            assert forall|k: i64| present(self.entries@, k) implies !in_range(lo, hi, k) by {
                let j = slot(self.entries@, k);
                assert(self.entries@[j].key == k);
            }
            assert(self@ =~= map_remove_range(old(self)@, lo, hi));
        }
    }

    /// Carries out one recorded operation.
    pub fn apply(&mut self, op: Operation)
        requires
            old(self).wf(),
        ensures
            final(self)@ == apply(old(self)@, op, old(self).policy()),
            final(self).policy() == old(self).policy(),
            final(self).wf(),
    {
        match op {
            Operation::Insert(k, v) => {
                self.upsert_insert(k, v);
            },
            Operation::RemoveEntry(k) => {
                self.remove_entry(k);
            },
            Operation::RemoveValue(k, v) => {
                self.remove_value(k, v);
            },
            Operation::RemoveRange(lo, hi) => {
                self.remove_range(lo, hi);
            },
        }
    }
}

} // verus!
