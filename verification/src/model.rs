//! The mathematical model of the multimap: a map from keys to bags, and what
//! each operation does to it.

use crate::bag::{bag_insert, bag_remove, Order};
use vstd::prelude::*;

verus! {

/// One end of a range of keys.
#[derive(Clone, Copy, Debug, PartialEq, Eq, Structural)]
pub enum Bound {
    /// The range reaches this key and holds it.
    Included(i64),
    /// The range reaches this key without holding it.
    Excluded(i64),
    /// The range has no end on this side.
    Unbounded,
}

/// A change to the multimap, as the writer records it.
#[derive(Clone, Copy, Debug, PartialEq, Eq, Structural)]
pub enum Operation {
    /// Add a value to the bag of a key; the key is created if it is absent.
    Insert(i64, i64),
    /// Delete a key with its whole bag.
    RemoveEntry(i64),
    /// Delete one occurrence of a value under a key; the key stays.
    RemoveValue(i64, i64),
    /// Delete every key between the lower and the upper bound.
    RemoveRange(Bound, Bound),
}

/// `k` is not below the lower bound `lo`.
pub open spec fn above_lower(lo: Bound, k: i64) -> bool {
    match lo {
        Bound::Included(a) => a <= k,
        Bound::Excluded(a) => a < k,
        Bound::Unbounded => true,
    }
}

/// `k` is not above the upper bound `hi`.
pub open spec fn below_upper(hi: Bound, k: i64) -> bool {
    match hi {
        Bound::Included(b) => k <= b,
        Bound::Excluded(b) => k < b,
        Bound::Unbounded => true,
    }
}

/// `k` lies between `lo` and `hi`.
pub open spec fn in_range(lo: Bound, hi: Bound, k: i64) -> bool {
    above_lower(lo, k) && below_upper(hi, k)
}

/// Whether `k` lies between `lo` and `hi`.
pub fn key_in_range(lo: Bound, hi: Bound, k: i64) -> (inside: bool)
    ensures
        inside == in_range(lo, hi, k),
{
    let above = match lo {
        Bound::Included(a) => a <= k,
        Bound::Excluded(a) => a < k,
        Bound::Unbounded => true,
    };
    let below = match hi {
        Bound::Included(b) => k <= b,
        Bound::Excluded(b) => k < b,
        Bound::Unbounded => true,
    };
    above && below
}

/// The bag under `k`: empty where the key is absent.
pub open spec fn bag_of(m: Map<i64, Seq<i64>>, k: i64) -> Seq<i64> {
    if m.dom().contains(k) {
        m[k]
    } else {
        Seq::empty()
    }
}

/// `m` after `v` was added under `k`.
pub open spec fn map_insert(m: Map<i64, Seq<i64>>, k: i64, v: i64, order: Order) -> Map<
    i64,
    Seq<i64>,
> {
    m.insert(k, bag_insert(bag_of(m, k), v, order))
}

/// `m` without the key `k`.
pub open spec fn map_remove_entry(m: Map<i64, Seq<i64>>, k: i64) -> Map<i64, Seq<i64>> {
    m.remove(k)
}

/// `m` after one occurrence of `v` was taken from the bag of `k`. The key
/// stays, even with an empty bag; an absent key stays absent.
pub open spec fn map_remove_value(m: Map<i64, Seq<i64>>, k: i64, v: i64) -> Map<i64, Seq<i64>> {
    if m.dom().contains(k) {
        m.insert(k, bag_remove(m[k], v))
    } else {
        m
    }
}

/// `m` without the keys between `lo` and `hi`.
pub open spec fn map_remove_range(m: Map<i64, Seq<i64>>, lo: Bound, hi: Bound) -> Map<
    i64,
    Seq<i64>,
> {
    Map::new(|k: i64| m.dom().contains(k) && !in_range(lo, hi, k), |k: i64| m[k])
}

/// `m` after the operation `op`.
pub open spec fn apply(m: Map<i64, Seq<i64>>, op: Operation, order: Order) -> Map<i64, Seq<i64>> {
    match op {
        Operation::Insert(k, v) => map_insert(m, k, v, order),
        Operation::RemoveEntry(k) => map_remove_entry(m, k),
        Operation::RemoveValue(k, v) => map_remove_value(m, k, v),
        Operation::RemoveRange(lo, hi) => map_remove_range(m, lo, hi),
    }
}

/// `m` after the operations `ops`, first to last.
pub open spec fn replay(m: Map<i64, Seq<i64>>, ops: Seq<Operation>, order: Order) -> Map<
    i64,
    Seq<i64>,
>
    decreases ops.len(),
{
    if ops.len() == 0 {
        m
    } else {
        apply(replay(m, ops.drop_last(), order), ops.last(), order)
    }
}

/// `ks` lists the keys of `m` in strictly ascending order.
pub open spec fn is_key_list(m: Map<i64, Seq<i64>>, ks: Seq<i64>) -> bool {
    &&& forall|i: int, j: int| 0 <= i < j < ks.len() ==> ks[i] < ks[j]
    &&& forall|k: i64| ks.contains(k) <==> m.dom().contains(k)
}

/// The keys of `m` in ascending order.
pub open spec fn ordered_keys(m: Map<i64, Seq<i64>>) -> Seq<i64> {
    choose|ks: Seq<i64>| is_key_list(m, ks)
}

/// A map has at most one list of its keys in ascending order.
pub proof fn lemma_key_list_unique(m: Map<i64, Seq<i64>>, a: Seq<i64>, b: Seq<i64>)
    requires
        is_key_list(m, a),
        is_key_list(m, b),
    ensures
        a == b,
    decreases a.len(),
{
    if a.len() == 0 {
        if b.len() > 0 {
            assert(b.contains(b[0]));
            assert(a.contains(b[0]));
        }
        assert(a =~= b);
    } else {
        let x = a.last();
        assert(a.contains(x));
        assert(b.contains(x));
        let y = b.last();
        assert(b.contains(y));
        assert(a.contains(y));
        let ix = choose|i: int| 0 <= i < b.len() && b[i] == x;
        let iy = choose|i: int| 0 <= i < a.len() && a[i] == y;
        assert(x == y) by {
            if ix < b.len() - 1 {
                assert(b[ix] < b[b.len() - 1]);
            }
            if iy < a.len() - 1 {
                assert(a[iy] < a[a.len() - 1]);
            }
        }
        let a1 = a.drop_last();
        let b1 = b.drop_last();
        let m1 = m.remove(x);
        assert forall|k: i64| a1.contains(k) <==> m1.dom().contains(k) by {
            if a1.contains(k) {
                let i = choose|i: int| 0 <= i < a1.len() && a1[i] == k;
                assert(a[i] == k);
                assert(a[i] < a[a.len() - 1]);
                assert(a.contains(k));
            }
            if m1.dom().contains(k) {
                assert(a.contains(k));
                let i = choose|i: int| 0 <= i < a.len() && a[i] == k;
                assert(a1[i] == k);
            }
        }
        assert forall|k: i64| b1.contains(k) <==> m1.dom().contains(k) by {
            if b1.contains(k) {
                let i = choose|i: int| 0 <= i < b1.len() && b1[i] == k;
                assert(b[i] == k);
                assert(b[i] < b[b.len() - 1]);
                assert(b.contains(k));
            }
            if m1.dom().contains(k) {
                assert(b.contains(k));
                let i = choose|i: int| 0 <= i < b.len() && b[i] == k;
                assert(b1[i] == k);
            }
        }
        assert(is_key_list(m1, a1)) by {
            assert forall|i: int, j: int| 0 <= i < j < a1.len() implies a1[i] < a1[j] by {
                assert(a[i] < a[j]);
            }
        }
        assert(is_key_list(m1, b1)) by {
            assert forall|i: int, j: int| 0 <= i < j < b1.len() implies b1[i] < b1[j] by {
                assert(b[i] < b[j]);
            }
        }
        lemma_key_list_unique(m1, a1, b1);
        assert(a =~= a1.push(x));
        assert(b =~= b1.push(y));
    }
}

/// A list of the keys of `m` in ascending order is the list of them.
pub proof fn lemma_ordered_keys(m: Map<i64, Seq<i64>>, ks: Seq<i64>)
    requires
        is_key_list(m, ks),
    ensures
        ordered_keys(m) == ks,
{
    lemma_key_list_unique(m, ordered_keys(m), ks);
}

/// Replaying a log with one more operation is replaying the log and then
/// applying that operation.
pub proof fn lemma_replay_push(
    m: Map<i64, Seq<i64>>,
    ops: Seq<Operation>,
    op: Operation,
    order: Order,
)
    ensures
        replay(m, ops.push(op), order) == apply(replay(m, ops, order), op, order),
{
    assert(ops.push(op).drop_last() =~= ops);
    assert(ops.push(op).last() == op);
}

/// Replaying two logs one after the other is replaying their concatenation.
pub proof fn lemma_replay_concat(
    m: Map<i64, Seq<i64>>,
    first: Seq<Operation>,
    second: Seq<Operation>,
    order: Order,
)
    ensures
        replay(m, first + second, order) == replay(replay(m, first, order), second, order),
    decreases second.len(),
{
    if second.len() == 0 {
        assert(first + second =~= first);
    } else {
        lemma_replay_concat(m, first, second.drop_last(), order);
        assert((first + second).drop_last() =~= first + second.drop_last());
        assert((first + second).last() == second.last());
    }
}

} // verus!
