//! What holds of the multimap whatever the keys, values and operations are.

use crate::bag::{
    bag_ok, lemma_bag_insert_counts, lemma_bag_insert_ok, lemma_bag_remove_counts,
    lemma_first_index_unique, lemma_insert_point_exists, insert_point, Order,
};
use crate::handles::{MapView, WriteHandle};
use crate::model::{
    bag_of, in_range, lemma_replay_push, map_insert, map_remove_range, map_remove_value, replay,
    Bound, Operation,
};
use vstd::prelude::*;

verus! {

/// When a publish succeeds, readers see what was published before with the
/// operations issued since then replayed on it, in the order in which the
/// writer issued them. On a map that was never published, that is the
/// replay of every operation on the empty map.
pub proof fn law_publish_shows_replay(before: &WriteHandle, after: &WriteHandle)
    requires
        before.wf(),
        after.published() == before.pending(),
    ensures
        after.published() == replay(before.published(), before.unpublished(), before.policy()),
{
    before.lemma_pending();
}

/// What the writer does, one call at a time.
pub enum Step {
    /// A mutation is issued.
    Issue(Operation),
    /// A publish succeeds.
    Publish,
}

/// What readers see of a map and what they do not see yet.
pub struct Shown {
    pub published: Map<i64, Seq<i64>>,
    pub unpublished: Seq<Operation>,
}

/// What readers see of the map `w` and what they do not see yet.
pub open spec fn shown(w: &WriteHandle) -> Shown {
    Shown { published: w.published(), unpublished: w.unpublished() }
}

/// What one call of the writer makes of what readers see.
pub open spec fn after_step(s: Shown, step: Step, order: Order) -> Shown {
    match step {
        Step::Issue(op) => Shown { published: s.published, unpublished: s.unpublished.push(op) },
        Step::Publish => Shown {
            published: replay(s.published, s.unpublished, order),
            unpublished: Seq::empty(),
        },
    }
}

/// What the calls `steps`, first to last, make of what readers see.
pub open spec fn after_steps(s: Shown, steps: Seq<Step>, order: Order) -> Shown
    decreases steps.len(),
{
    if steps.len() == 0 {
        s
    } else {
        after_step(after_steps(s, steps.drop_last(), order), steps.last(), order)
    }
}

/// The operations that `steps` issue, in their order.
pub open spec fn issued(steps: Seq<Step>) -> Seq<Operation>
    decreases steps.len(),
{
    if steps.len() == 0 {
        Seq::empty()
    } else {
        match steps.last() {
            Step::Issue(op) => issued(steps.drop_last()).push(op),
            Step::Publish => issued(steps.drop_last()),
        }
    }
}

/// The operations that `steps` issue before their last publish, in their
/// order.
pub open spec fn issued_before_publish(steps: Seq<Step>) -> Seq<Operation>
    decreases steps.len(),
{
    if steps.len() == 0 {
        Seq::empty()
    } else {
        match steps.last() {
            Step::Issue(_) => issued_before_publish(steps.drop_last()),
            Step::Publish => issued(steps.drop_last()),
        }
    }
}

/// A mutation and a publish that succeeds change what readers see as
/// `after_step` says: `after` is the map `before` after the call `step`
/// wherever the two are related as the contracts of the write handle say.
pub proof fn law_calls_are_steps(before: &WriteHandle, after: &WriteHandle, step: Step)
    requires
        before.wf(),
        match step {
            Step::Issue(op) => after.published() == before.published() && after.unpublished()
                == before.unpublished().push(op),
            Step::Publish => after.published() == before.pending() && after.unpublished()
                == Seq::<Operation>::empty(),
        },
    ensures
        shown(after) == after_step(shown(before), step, before.policy()),
{
    before.lemma_pending();
}

/// Whatever mutations the writer issues to a new map, and whenever it
/// publishes in between: readers see the operations issued before the last
/// publish, replayed in their order on the empty map, and none of the later
/// ones.
pub proof fn law_readers_see_what_was_published(steps: Seq<Step>, order: Order)
    ensures
        ({
            let fresh = Shown { published: Map::empty(), unpublished: Seq::empty() };
            let now = after_steps(fresh, steps, order);
            &&& now.published == replay(
                Map::<i64, Seq<i64>>::empty(),
                issued_before_publish(steps),
                order,
            )
            &&& replay(now.published, now.unpublished, order) == replay(
                Map::<i64, Seq<i64>>::empty(),
                issued(steps),
                order,
            )
        }),
    decreases steps.len(),
{
    let fresh = Shown { published: Map::<i64, Seq<i64>>::empty(), unpublished: Seq::empty() };
    if steps.len() > 0 {
        let init = steps.drop_last();
        law_readers_see_what_was_published(init, order);
        let before = after_steps(fresh, init, order);
        match steps.last() {
            Step::Issue(op) => {
                lemma_replay_push(before.published, before.unpublished, op, order);
                lemma_replay_push(Map::<i64, Seq<i64>>::empty(), issued(init), op, order);
            },
            Step::Publish => {},
        }
    }
}

/// A read scope keeps the contents that were published when it began,
/// whatever the writer has issued or published since: the writer only ever
/// adds snapshots.
pub proof fn law_scope_keeps_contents(view: &MapView, before: &WriteHandle, after: &WriteHandle)
    requires
        before.wf(),
        view.held_by(before),
        before.snapshots().is_prefix_of(after.snapshots()),
    ensures
        view.contents(after) == view.contents(before),
{
    before.lemma_snapshots();
    assert(before.readers()[view.id() as int] matches crate::epoch::ReaderState::Reading(g) ==> g
        <= before.spec_generation());
}

/// After `v` was inserted twice under `k` and one occurrence was removed,
/// the key is present and its bag holds one `v` more than before: exactly
/// one, if it held none.
pub proof fn law_bag_multiplicity(m: Map<i64, Seq<i64>>, k: i64, v: i64, order: Order)
    requires
        bag_ok(bag_of(m, k), order),
    ensures
        ({
            let twice = map_insert(map_insert(m, k, v, order), k, v, order);
            let after = map_remove_value(twice, k, v);
            &&& after.dom().contains(k)
            &&& after[k].to_multiset() == bag_of(m, k).to_multiset().insert(v)
            &&& after[k].len() == bag_of(m, k).len() + 1
            &&& !bag_of(m, k).contains(v) ==> after[k].to_multiset().count(v) == 1
        }),
{
    broadcast use vstd::seq_lib::group_to_multiset_ensures;

    let b0 = bag_of(m, k);
    let once = map_insert(m, k, v, order);
    let b1 = once[k];
    lemma_bag_insert_counts(b0, v, order);
    if order == Order::Sorted {
        lemma_insert_point_exists(b0, v);
    }
    lemma_bag_insert_ok(b0, v, order, insert_point(b0, v));
    let twice = map_insert(once, k, v, order);
    let b2 = twice[k];
    assert(bag_of(once, k) == b1);
    lemma_bag_insert_counts(b1, v, order);
    let after = map_remove_value(twice, k, v);
    lemma_bag_remove_counts(b2, v);
    assert(after[k].to_multiset() =~= b0.to_multiset().insert(v));
    if !b0.contains(v) {
        assert(b0.to_multiset().count(v) == 0);
    }
}

/// Removing the only value under `k` leaves the key present with an empty
/// bag.
pub proof fn law_present_but_empty(m: Map<i64, Seq<i64>>, k: i64, v: i64)
    requires
        m.dom().contains(k),
        m[k] == seq![v],
    ensures
        map_remove_value(m, k, v).dom().contains(k),
        map_remove_value(m, k, v)[k] == Seq::<i64>::empty(),
{
    assert(m[k][0] == v);
    lemma_first_index_unique(m[k], v, 0);
    assert(m[k].remove(0) =~= Seq::<i64>::empty());
}

/// Removing a range deletes exactly the keys that lie in it; every other key
/// keeps its bag.
pub proof fn law_range_removal(m: Map<i64, Seq<i64>>, lo: Bound, hi: Bound)
    ensures
        forall|k: i64|
            map_remove_range(m, lo, hi).dom().contains(k) <==> m.dom().contains(k) && !in_range(
                lo,
                hi,
                k,
            ),
        forall|k: i64|
            m.dom().contains(k) && !in_range(lo, hi, k) ==> map_remove_range(m, lo, hi)[k] == m[k],
{
}

} // verus!
