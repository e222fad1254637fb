//! The two handles of the multimap and the publish protocol.
//!
//! The write handle owns the map: two copies, a selector that says which of
//! them readers look at, the log of operations and the epoch registry. A read
//! handle is a numbered slot in that registry; every read names the map it
//! reads from.
//!
//! A mutation is recorded in the log and carried out on the write copy.
//! `publish` exchanges the roles of the copies. The copy that readers looked
//! at until then lacks the logged operations; it receives them before the
//! writer's next step, provided that no reader is still inside a scope that
//! began before the exchange. While such a reader stays, operations are only
//! recorded, the log grows, and `publish` reports that nothing was published.

use crate::bag::{Order, ValueBag};
use crate::epoch::{lemma_oldest, none_before, EpochRegistry, ReaderState};
use crate::inner::InnerMap;
use crate::model::{
    apply, is_key_list, lemma_replay_concat, lemma_replay_push, ordered_keys, replay, Bound,
    Operation,
};
use vstd::prelude::*;

verus! {

/// The writer's side of the multimap, and the owner of its contents.
pub struct WriteHandle {
    left: InnerMap,
    right: InnerMap,
    /// The selector: readers look at `left` if set, at `right` otherwise.
    read_left: bool,
    generation: u64,
    epochs: EpochRegistry,
    /// Operations that one of the copies still lacks, oldest first.
    log: Vec<Operation>,
    /// How many operations at the front of the log readers already see.
    visible: usize,
    /// The write copy lacks every operation of the log.
    behind: bool,
    live: bool,
    order: Order,
    /// What was published, by generation.
    history: Ghost<Seq<Map<i64, Seq<i64>>>>,
}

/// A reader's side of the multimap: a slot in the epoch registry.
#[derive(Debug)]
pub struct ReadHandle {
    slot: usize,
}

/// A read scope: the contents that were published when the scope began.
#[derive(Debug)]
pub struct MapView {
    slot: usize,
    generation: u64,
}

impl WriteHandle {
    spec fn read_view(&self) -> Map<i64, Seq<i64>> {
        if self.read_left {
            self.left@
        } else {
            self.right@
        }
    }

    spec fn write_view(&self) -> Map<i64, Seq<i64>> {
        if self.read_left {
            self.right@
        } else {
            self.left@
        }
    }

    /// What a reader that begins a scope now sees.
    pub closed spec fn published(&self) -> Map<i64, Seq<i64>> {
        self.read_view()
    }

    /// What the writer has made of the map, published or not.
    pub closed spec fn pending(&self) -> Map<i64, Seq<i64>> {
        if self.behind {
            replay(self.write_view(), self.log@, self.order)
        } else {
            self.write_view()
        }
    }

    /// The operations issued since the last publish, oldest first.
    pub closed spec fn unpublished(&self) -> Seq<Operation> {
        self.log@.subrange(self.visible as int, self.log@.len() as int)
    }

    /// The number of publishes so far.
    pub closed spec fn spec_generation(&self) -> u64 {
        self.generation
    }

    /// The epoch registry, slot by slot.
    pub closed spec fn readers(&self) -> Seq<ReaderState> {
        self.epochs@
    }

    /// What was published, by generation.
    pub closed spec fn snapshots(&self) -> Seq<Map<i64, Seq<i64>>> {
        self.history@
    }

    /// The bag policy of the map.
    pub closed spec fn policy(&self) -> Order {
        self.order
    }

    /// The map was not torn down.
    pub closed spec fn spec_is_live(&self) -> bool {
        self.live
    }

    /// The copy that the writer works on lacks operations that readers
    /// already see.
    pub closed spec fn lagging(&self) -> bool {
        self.behind
    }

    /// The writer cannot bring its copy up to date: a reader is still inside
    /// a scope that began before the last publish.
    pub open spec fn stalled(&self) -> bool {
        self.lagging() && !none_before(self.readers(), self.spec_generation())
    }

    /// The invariant of the map.
    pub closed spec fn wf(&self) -> bool {
        &&& self.left.wf()
        &&& self.right.wf()
        &&& self.left.policy() == self.order
        &&& self.right.policy() == self.order
        &&& self.visible <= self.log@.len()
        &&& self.history@.len() == self.generation + 1
        &&& self.history@[self.generation as int] == self.read_view()
        &&& !self.behind ==> {
            &&& self.visible == 0
            &&& self.write_view() == replay(self.read_view(), self.log@, self.order)
            &&& none_before(self.epochs@, self.generation)
        }
        &&& self.behind ==> {
            &&& self.generation >= 1
            &&& self.write_view() == self.history@[self.generation - 1]
            &&& self.read_view() == replay(
                self.write_view(),
                self.log@.subrange(0, self.visible as int),
                self.order,
            )
        }
        &&& forall|i: int|
            0 <= i < self.epochs@.len() ==> (#[trigger] self.epochs@[i] matches ReaderState::Reading(
                g,
            ) ==> g <= self.generation <= g + 1)
    }

    /// The writer's state is the published state with the unpublished
    /// operations replayed on it, in the order in which they were issued.
    pub proof fn lemma_pending(&self)
        requires
            self.wf(),
        ensures
            self.pending() == replay(self.published(), self.unpublished(), self.policy()),
    {
        if self.behind {
            let seen = self.log@.subrange(0, self.visible as int);
            lemma_replay_concat(self.write_view(), seen, self.unpublished(), self.order);
            assert(seen + self.unpublished() =~= self.log@);
        } else {
            assert(self.unpublished() =~= self.log@);
        }
    }

    /// There is one snapshot for each generation so far, and the newest is
    /// what is published now.
    pub proof fn lemma_snapshots(&self)
        requires
            self.wf(),
        ensures
            self.snapshots().len() == self.spec_generation() + 1,
            self.snapshots()[self.spec_generation() as int] == self.published(),
            forall|i: int|
                0 <= i < self.readers().len() ==> (
                #[trigger] self.readers()[i] matches ReaderState::Reading(g) ==> g
                    <= self.spec_generation()),
    {
    }

    /// The number of publishes so far.
    #[verifier::when_used_as_spec(spec_generation)]
    pub fn generation(&self) -> (generation: u64)
        ensures
            generation == self.spec_generation(),
    {
        self.generation
    }

    /// Whether the map was not torn down.
    #[verifier::when_used_as_spec(spec_is_live)]
    pub fn is_live(&self) -> (live: bool)
        ensures
            live == self.spec_is_live(),
    {
        self.live
    }

    /// The bag policy of the map.
    pub fn order(&self) -> (order: Order)
        ensures
            order == self.policy(),
    {
        self.order
    }

    /// The number of operations issued since the last publish.
    pub fn unpublished_len(&self) -> (n: usize)
        requires
            self.wf(),
        ensures
            n == self.unpublished().len(),
    {
        self.log.len() - self.visible
    }

    /// Brings the write copy up to date with the log, unless a reader is
    /// still inside a scope that began before the last publish.
    #[verifier::loop_isolation(false)]
    fn catch_up(&mut self)
        requires
            old(self).wf(),
        ensures
            final(self).wf(),
            final(self).lagging() == old(self).stalled(),
            final(self).published() == old(self).published(),
            final(self).pending() == old(self).pending(),
            final(self).unpublished() == old(self).unpublished(),
            final(self).spec_generation() == old(self).spec_generation(),
            final(self).readers() == old(self).readers(),
            final(self).snapshots() == old(self).snapshots(),
            final(self).policy() == old(self).policy(),
            final(self).spec_is_live() == old(self).spec_is_live(),
    {
        if !self.behind {
            return ;
        }
        let mark = self.epochs.watermark(self.generation);
        proof {
            lemma_oldest(self.epochs@, self.generation);
        }
        if mark != self.generation {
            return ;
        }
        let ghost start = self.write_view();
        let mut i: usize = 0;
        while i < self.log.len()
            invariant
                i <= self.log@.len(),
                self.left.wf(),
                self.right.wf(),
                self.left.policy() == self.order,
                self.right.policy() == self.order,
                self.read_left == old(self).read_left,
                self.log == old(self).log,
                self.order == old(self).order,
                self.visible == old(self).visible,
                self.generation == old(self).generation,
                self.epochs == old(self).epochs,
                self.history == old(self).history,
                self.live == old(self).live,
                self.behind,
                self.read_view() == old(self).read_view(),
                self.write_view() == replay(start, self.log@.subrange(0, i as int), self.order),
            decreases self.log@.len() - i,
        {
            let op = self.log[i];
            proof {
                lemma_replay_push(start, self.log@.subrange(0, i as int), op, self.order);
                assert(self.log@.subrange(0, i as int).push(op) =~= self.log@.subrange(
                    0,
                    i + 1,
                ));
            }
            if self.read_left {
                self.right.apply(op);
            } else {
                self.left.apply(op);
            }
            i += 1;
        }
        let mut rest: Vec<Operation> = Vec::new();
        let mut j: usize = self.visible;
        while j < self.log.len()
            invariant
                self.visible <= j <= self.log@.len(),
                rest@ == self.log@.subrange(self.visible as int, j as int),
            decreases self.log@.len() - j,
        {
            rest.push(self.log[j]);
            proof {
                assert(self.log@.subrange(self.visible as int, j as int).push(self.log@[j as int])
                    =~= self.log@.subrange(self.visible as int, j + 1));
            }
            j += 1;
        }
        proof {
            let seen = self.log@.subrange(0, self.visible as int);
            assert(self.log@.subrange(0, self.log@.len() as int) =~= self.log@);
            assert(seen + rest@ =~= self.log@);
            lemma_replay_concat(start, seen, rest@, self.order);
            assert(rest@.subrange(0, rest@.len() as int) =~= rest@);
        }
        self.log = rest;
        self.visible = 0;
        self.behind = false;
    }

    /// Records `op` and carries it out on the write copy.
    fn record(&mut self, op: Operation)
        requires
            old(self).wf(),
        ensures
            final(self).wf(),
            final(self).pending() == apply(old(self).pending(), op, old(self).policy()),
            final(self).unpublished() == old(self).unpublished().push(op),
            final(self).published() == old(self).published(),
            final(self).spec_generation() == old(self).spec_generation(),
            final(self).readers() == old(self).readers(),
            final(self).snapshots() == old(self).snapshots(),
            final(self).policy() == old(self).policy(),
            final(self).spec_is_live() == old(self).spec_is_live(),
            final(self).lagging() == old(self).stalled(),
    {
        self.catch_up();
        proof {
            lemma_replay_push(
                if self.behind {
                    self.write_view()
                } else {
                    self.read_view()
                },
                self.log@,
                op,
                self.order,
            );
            assert(self.log@.push(op).subrange(self.visible as int, self.log@.len() as int + 1)
                =~= self.log@.subrange(self.visible as int, self.log@.len() as int).push(op));
            assert(self.log@.push(op).subrange(0, self.visible as int) =~= self.log@.subrange(
                0,
                self.visible as int,
            ));
        }
        if !self.behind {
            if self.read_left {
                self.right.apply(op);
            } else {
                self.left.apply(op);
            }
        }
        self.log.push(op);
    }

    /// Adds `v` under `k`. Readers do not see it before the next publish.
    pub fn insert(&mut self, k: i64, v: i64)
        requires
            old(self).wf(),
        ensures
            final(self).wf(),
            final(self).pending() == apply(
                old(self).pending(),
                Operation::Insert(k, v),
                old(self).policy(),
            ),
            final(self).unpublished() == old(self).unpublished().push(Operation::Insert(k, v)),
            final(self).published() == old(self).published(),
            final(self).spec_generation() == old(self).spec_generation(),
            final(self).readers() == old(self).readers(),
            final(self).snapshots() == old(self).snapshots(),
            final(self).policy() == old(self).policy(),
            final(self).spec_is_live() == old(self).spec_is_live(),
            final(self).lagging() == old(self).stalled(),
    {
        self.record(Operation::Insert(k, v));
    }

    /// Deletes `k` with its bag. Readers do not see it before the next
    /// publish.
    pub fn remove_entry(&mut self, k: i64)
        requires
            old(self).wf(),
        ensures
            final(self).wf(),
            final(self).pending() == apply(
                old(self).pending(),
                Operation::RemoveEntry(k),
                old(self).policy(),
            ),
            final(self).unpublished() == old(self).unpublished().push(Operation::RemoveEntry(k)),
            final(self).published() == old(self).published(),
            final(self).spec_generation() == old(self).spec_generation(),
            final(self).readers() == old(self).readers(),
            final(self).snapshots() == old(self).snapshots(),
            final(self).policy() == old(self).policy(),
            final(self).spec_is_live() == old(self).spec_is_live(),
            final(self).lagging() == old(self).stalled(),
    {
        self.record(Operation::RemoveEntry(k));
    }

    /// Deletes one occurrence of `v` under `k`; the key stays. Readers do
    /// not see it before the next publish.
    pub fn remove_value(&mut self, k: i64, v: i64)
        requires
            old(self).wf(),
        ensures
            final(self).wf(),
            final(self).pending() == apply(
                old(self).pending(),
                Operation::RemoveValue(k, v),
                old(self).policy(),
            ),
            final(self).unpublished() == old(self).unpublished().push(
                Operation::RemoveValue(k, v),
            ),
            final(self).published() == old(self).published(),
            final(self).spec_generation() == old(self).spec_generation(),
            final(self).readers() == old(self).readers(),
            final(self).snapshots() == old(self).snapshots(),
            final(self).policy() == old(self).policy(),
            final(self).spec_is_live() == old(self).spec_is_live(),
            final(self).lagging() == old(self).stalled(),
    {
        self.record(Operation::RemoveValue(k, v));
    }

    /// Deletes every key between `lo` and `hi`. Readers do not see it before
    /// the next publish.
    pub fn remove_range(&mut self, lo: Bound, hi: Bound)
        requires
            old(self).wf(),
        ensures
            final(self).wf(),
            final(self).pending() == apply(
                old(self).pending(),
                Operation::RemoveRange(lo, hi),
                old(self).policy(),
            ),
            final(self).unpublished() == old(self).unpublished().push(
                Operation::RemoveRange(lo, hi),
            ),
            final(self).published() == old(self).published(),
            final(self).spec_generation() == old(self).spec_generation(),
            final(self).readers() == old(self).readers(),
            final(self).snapshots() == old(self).snapshots(),
            final(self).policy() == old(self).policy(),
            final(self).spec_is_live() == old(self).spec_is_live(),
            final(self).lagging() == old(self).stalled(),
    {
        self.record(Operation::RemoveRange(lo, hi));
    }
    /// Records and carries out `ops`, first to last.
    pub fn extend(&mut self, ops: &Vec<Operation>)
        requires
            old(self).wf(),
        ensures
            final(self).wf(),
            final(self).pending() == replay(old(self).pending(), ops@, old(self).policy()),
            final(self).unpublished() == old(self).unpublished() + ops@,
            final(self).published() == old(self).published(),
            final(self).spec_generation() == old(self).spec_generation(),
            final(self).readers() == old(self).readers(),
            final(self).snapshots() == old(self).snapshots(),
            final(self).policy() == old(self).policy(),
            final(self).spec_is_live() == old(self).spec_is_live(),
            final(self).lagging() == (if ops@.len() == 0 {
                old(self).lagging()
            } else {
                old(self).stalled()
            }),
    {
        let mut i: usize = 0;
        proof {
            assert(old(self).unpublished() + ops@.subrange(0, 0) =~= old(self).unpublished());
        }
        while i < ops.len()
            invariant
                i <= ops@.len(),
                self.wf(),
                self.pending() == replay(
                    old(self).pending(),
                    ops@.subrange(0, i as int),
                    old(self).policy(),
                ),
                self.unpublished() == old(self).unpublished() + ops@.subrange(0, i as int),
                self.lagging() == (if i == 0 {
                    old(self).lagging()
                } else {
                    old(self).stalled()
                }),
                self.published() == old(self).published(),
                self.spec_generation() == old(self).spec_generation(),
                self.readers() == old(self).readers(),
                self.snapshots() == old(self).snapshots(),
                self.policy() == old(self).policy(),
                self.spec_is_live() == old(self).spec_is_live(),
            decreases ops@.len() - i,
        {
            proof {
                lemma_replay_push(
                    old(self).pending(),
                    ops@.subrange(0, i as int),
                    ops@[i as int],
                    old(self).policy(),
                );
                assert(ops@.subrange(0, i as int).push(ops@[i as int]) =~= ops@.subrange(
                    0,
                    i + 1,
                ));
                assert((old(self).unpublished() + ops@.subrange(0, i as int)).push(ops@[i as int])
                    =~= old(self).unpublished() + ops@.subrange(0, i + 1));
            }
            self.record(ops[i]);
            i += 1;
        }
        proof {
            assert(ops@.subrange(0, i as int) =~= ops@);
        }
    }

    /// Makes the writer's state visible to readers that begin a scope from
    /// now on, and says whether it did. Nothing is published while the
    /// writer is stalled, or when the generation counter is exhausted.
    pub fn publish(&mut self) -> (published: bool)
        requires
            old(self).wf(),
        ensures
            final(self).wf(),
            published == (!old(self).stalled() && old(self).spec_generation() < u64::MAX),
            final(self).pending() == old(self).pending(),
            final(self).readers() == old(self).readers(),
            final(self).policy() == old(self).policy(),
            final(self).spec_is_live() == old(self).spec_is_live(),
            final(self).lagging() == (published || old(self).stalled()),
            published ==> {
                &&& final(self).published() == old(self).pending()
                &&& final(self).unpublished() == Seq::<Operation>::empty()
                &&& final(self).spec_generation() == old(self).spec_generation() + 1
                &&& final(self).snapshots() == old(self).snapshots().push(old(self).pending())
            },
            !published ==> {
                &&& final(self).published() == old(self).published()
                &&& final(self).unpublished() == old(self).unpublished()
                &&& final(self).spec_generation() == old(self).spec_generation()
                &&& final(self).snapshots() == old(self).snapshots()
            },
    {
        self.catch_up();
        if self.behind || self.generation == u64::MAX {
            return false;
        }
        proof {
            assert(self.log@.subrange(0, self.log@.len() as int) =~= self.log@);
            assert(self.log@.subrange(self.log@.len() as int, self.log@.len() as int)
                =~= Seq::<Operation>::empty());
        }
        let ghost shown = self.write_view();
        self.read_left = !self.read_left;
        self.generation = self.generation + 1;
        self.visible = self.log.len();
        self.behind = true;
        self.history = Ghost(self.history@.push(shown));
        true
    }

    /// The writer's own view of the map, with every operation that it has
    /// issued, published or not. `None` while the writer is stalled: its
    /// copy then lacks operations and cannot be brought up to date.
    pub fn pending_view(&mut self) -> (view: Option<&InnerMap>)
        requires
            old(self).wf(),
        ensures
            final(self).wf(),
            view is Some == !old(self).stalled(),
            view matches Some(map) ==> map@ == old(self).pending() && map.wf() && map.policy()
                == old(self).policy(),
            final(self).published() == old(self).published(),
            final(self).pending() == old(self).pending(),
            final(self).unpublished() == old(self).unpublished(),
            final(self).spec_generation() == old(self).spec_generation(),
            final(self).readers() == old(self).readers(),
            final(self).snapshots() == old(self).snapshots(),
            final(self).policy() == old(self).policy(),
            final(self).spec_is_live() == old(self).spec_is_live(),
            final(self).lagging() == old(self).stalled(),
    {
        self.catch_up();
        if self.behind {
            None
        } else if self.read_left {
            Some(&self.right)
        } else {
            Some(&self.left)
        }
    }

    /// Tears the map down: from now on readers are told that it is gone.
    pub fn destroy(&mut self)
        requires
            old(self).wf(),
        ensures
            final(self).wf(),
            !final(self).spec_is_live(),
            final(self).published() == old(self).published(),
            final(self).pending() == old(self).pending(),
            final(self).unpublished() == old(self).unpublished(),
            final(self).spec_generation() == old(self).spec_generation(),
            final(self).readers() == old(self).readers(),
            final(self).snapshots() == old(self).snapshots(),
            final(self).policy() == old(self).policy(),
            final(self).lagging() == old(self).lagging(),
    {
        self.live = false;
    }

    /// The copy that holds what was published at `generation`, for a
    /// generation that some reader is still reading.
    fn copy_at(&self, slot: usize, generation: u64) -> (copy: &InnerMap)
        requires
            self.wf(),
            slot < self.readers().len(),
            self.readers()[slot as int] == ReaderState::Reading(generation),
        ensures
            copy.wf(),
            copy.policy() == self.policy(),
            copy@ == self.snapshots()[generation as int],
    {
        assert(self.epochs@[slot as int] matches ReaderState::Reading(g) ==> g <= self.generation
            <= g + 1);
        if (generation == self.generation) == self.read_left {
            &self.left
        } else {
            &self.right
        }
    }
}

/// A new, empty multimap whose bags keep insertion order, with its first
/// reader.
pub fn new() -> (handles: (WriteHandle, ReadHandle))
    ensures
        handles.0.wf(),
        handles.0.policy() == Order::Insertion,
        handles.0.published() == Map::<i64, Seq<i64>>::empty(),
        handles.0.pending() == Map::<i64, Seq<i64>>::empty(),
        handles.0.unpublished() == Seq::<Operation>::empty(),
        handles.0.spec_generation() == 0,
        handles.0.spec_is_live(),
        !handles.0.lagging(),
        handles.0.readers() == seq![ReaderState::Idle],
        handles.0.snapshots() == seq![Map::<i64, Seq<i64>>::empty()],
        handles.1.id() == 0,
{
    with_order(Order::Insertion)
}

/// A new, empty multimap whose bags follow `order`, with its first reader.
pub fn with_order(order: Order) -> (handles: (WriteHandle, ReadHandle))
    ensures
        handles.0.wf(),
        handles.0.policy() == order,
        handles.0.published() == Map::<i64, Seq<i64>>::empty(),
        handles.0.pending() == Map::<i64, Seq<i64>>::empty(),
        handles.0.unpublished() == Seq::<Operation>::empty(),
        handles.0.spec_generation() == 0,
        handles.0.spec_is_live(),
        !handles.0.lagging(),
        handles.0.readers() == seq![ReaderState::Idle],
        handles.0.snapshots() == seq![Map::<i64, Seq<i64>>::empty()],
        handles.1.id() == 0,
{
    let mut epochs = EpochRegistry::new();
    let slot = epochs.register();
    let writer = WriteHandle {
        left: InnerMap::new(order),
        right: InnerMap::new(order),
        read_left: true,
        generation: 0,
        epochs,
        log: Vec::new(),
        visible: 0,
        behind: false,
        live: true,
        order,
        history: Ghost(
            Seq::<Map<i64, Seq<i64>>>::empty().push(Map::<i64, Seq<i64>>::empty()),
        ),
    };
    proof {
        assert(writer.epochs@ =~= seq![ReaderState::Idle]);
        assert(writer.log@.subrange(0, 0) =~= Seq::<Operation>::empty());
        assert(writer.log@ =~= Seq::<Operation>::empty());
        assert(writer.history@ =~= seq![Map::<i64, Seq<i64>>::empty()]);
    }
    (writer, ReadHandle { slot })
}

/// A new multimap on which `ops` were carried out, first to last, and then
/// published.
pub fn from_operations(order: Order, ops: &Vec<Operation>) -> (handles: (WriteHandle, ReadHandle))
    ensures
        handles.0.wf(),
        handles.0.policy() == order,
        handles.0.published() == replay(Map::<i64, Seq<i64>>::empty(), ops@, order),
        handles.0.pending() == handles.0.published(),
        handles.0.unpublished() == Seq::<Operation>::empty(),
        handles.0.spec_generation() == 1,
        handles.0.spec_is_live(),
        handles.0.lagging(),
        handles.0.readers() == seq![ReaderState::Idle],
        handles.1.id() == 0,
{
    let (mut writer, reader) = with_order(order);
    writer.extend(ops);
    assert(none_before(writer.readers(), writer.spec_generation()));
    writer.publish();
    (writer, reader)
}

impl ReadHandle {
    /// The number of this reader's slot in the epoch registry.
    pub closed spec fn id(&self) -> usize {
        self.slot
    }

    /// The handle is registered with `map`.
    pub open spec fn known_to(&self, map: &WriteHandle) -> bool {
        self.id() < map.readers().len() && map.readers()[self.id() as int] != ReaderState::Vacant
    }

    /// Whether the handle can read from `map`: the map is live and the
    /// handle is registered with it.
    pub fn can_read(&self, map: &WriteHandle) -> (usable: bool)
        ensures
            usable == (map.spec_is_live() && self.known_to(map)),
    {
        map.live && map.epochs.state(self.slot) != ReaderState::Vacant
    }

    /// Registers another reader with `map`, with a slot of its own.
    pub fn duplicate(&self, map: &mut WriteHandle) -> (handle: ReadHandle)
        requires
            old(map).wf(),
        ensures
            final(map).wf(),
            handle.id() == old(map).readers().len(),
            final(map).readers() == old(map).readers().push(ReaderState::Idle),
            final(map).published() == old(map).published(),
            final(map).pending() == old(map).pending(),
            final(map).unpublished() == old(map).unpublished(),
            final(map).spec_generation() == old(map).spec_generation(),
            final(map).snapshots() == old(map).snapshots(),
            final(map).policy() == old(map).policy(),
            final(map).spec_is_live() == old(map).spec_is_live(),
            final(map).lagging() == old(map).lagging(),
    {
        let slot = map.epochs.register();
        ReadHandle { slot }
    }

    /// Gives the handle up: its slot becomes vacant, and a scope that it
    /// had open ends.
    pub fn release(self, map: &mut WriteHandle)
        requires
            old(map).wf(),
        ensures
            final(map).wf(),
            final(map).readers() == (if self.id() < old(map).readers().len() {
                old(map).readers().update(self.id() as int, ReaderState::Vacant)
            } else {
                old(map).readers()
            }),
            final(map).published() == old(map).published(),
            final(map).pending() == old(map).pending(),
            final(map).unpublished() == old(map).unpublished(),
            final(map).spec_generation() == old(map).spec_generation(),
            final(map).snapshots() == old(map).snapshots(),
            final(map).policy() == old(map).policy(),
            final(map).spec_is_live() == old(map).spec_is_live(),
            final(map).lagging() == old(map).lagging(),
    {
        map.epochs.deregister(self.slot);
    }

    /// The bag that is published under `k`. The outer `None` says that the
    /// map is gone or the handle was released, the inner one that the key is
    /// absent.
    pub fn get<'a>(&self, map: &'a WriteHandle, k: i64) -> (found: Option<Option<&'a ValueBag>>)
        requires
            map.wf(),
        ensures
            found is Some == (map.spec_is_live() && self.known_to(map)),
            found matches Some(bag) ==> {
                &&& bag is Some == map.published().dom().contains(k)
                &&& bag matches Some(b) ==> b@ == map.published()[k] && b.wf() && b.policy()
                    == map.policy()
            },
    {
        if !self.can_read(map) {
            return None;
        }
        if map.read_left {
            Some(map.left.get(k))
        } else {
            Some(map.right.get(k))
        }
    }

    /// Whether `k` is published, be it with an empty bag. `false` if the map
    /// is gone or the handle was released.
    pub fn contains_key(&self, map: &WriteHandle, k: i64) -> (present: bool)
        requires
            map.wf(),
        ensures
            present == (map.spec_is_live() && self.known_to(map) && map.published().dom().contains(
                k,
            )),
    {
        if !self.can_read(map) {
            return false;
        }
        if map.read_left {
            map.left.contains_key(k)
        } else {
            map.right.contains_key(k)
        }
    }

    /// The number of published keys, those with an empty bag included. Zero
    /// if the map is gone or the handle was released.
    pub fn len(&self, map: &WriteHandle) -> (n: usize)
        requires
            map.wf(),
        ensures
            n == (if map.spec_is_live() && self.known_to(map) {
                map.published().dom().len()
            } else {
                0
            }),
    {
        if !self.can_read(map) {
            return 0;
        }
        if map.read_left {
            map.left.len()
        } else {
            map.right.len()
        }
    }

    /// Begins a read scope over what is published now. `None` if the map is
    /// gone or the handle was released. A scope that this reader still had
    /// open ends.
    pub fn enter(&self, map: &mut WriteHandle) -> (view: Option<MapView>)
        requires
            old(map).wf(),
        ensures
            final(map).wf(),
            view is Some == (old(map).spec_is_live() && self.known_to(old(map))),
            view matches Some(v) ==> {
                &&& v.id() == self.id()
                &&& v.began() == old(map).spec_generation()
                &&& v.held_by(final(map))
                &&& v.contents(final(map)) == old(map).published()
                &&& final(map).readers() == old(map).readers().update(
                    self.id() as int,
                    ReaderState::Reading(old(map).spec_generation()),
                )
            },
            view is None ==> final(map).readers() == old(map).readers(),
            final(map).published() == old(map).published(),
            final(map).pending() == old(map).pending(),
            final(map).unpublished() == old(map).unpublished(),
            final(map).spec_generation() == old(map).spec_generation(),
            final(map).snapshots() == old(map).snapshots(),
            final(map).policy() == old(map).policy(),
            final(map).spec_is_live() == old(map).spec_is_live(),
            final(map).lagging() == old(map).lagging(),
    {
        if !map.live {
            return None;
        }
        let generation = map.generation;
        if map.epochs.enter(self.slot, generation) {
            Some(MapView { slot: self.slot, generation })
        } else {
            None
        }
    }
}

impl MapView {
    /// The slot of the reader that began the scope.
    pub closed spec fn id(&self) -> usize {
        self.slot
    }

    /// The generation at which the scope began.
    pub closed spec fn began(&self) -> u64 {
        self.generation
    }

    /// The scope is still open: the map is live and the registry shows the
    /// reader inside a scope of this generation.
    pub open spec fn held_by(&self, map: &WriteHandle) -> bool {
        &&& map.spec_is_live()
        &&& self.id() < map.readers().len()
        &&& map.readers()[self.id() as int] == ReaderState::Reading(self.began())
    }

    /// What the scope sees: what was published when it began.
    pub open spec fn contents(&self, map: &WriteHandle) -> Map<i64, Seq<i64>> {
        map.snapshots()[self.began() as int]
    }

    /// The generation at which the scope began.
    pub fn generation(&self) -> (generation: u64)
        ensures
            generation == self.began(),
    {
        self.generation
    }

    /// Whether the scope is still open.
    pub fn is_held(&self, map: &WriteHandle) -> (held: bool)
        ensures
            held == self.held_by(map),
    {
        map.live && map.epochs.state(self.slot) == ReaderState::Reading(self.generation)
    }

    /// The bag under `k` in this scope. The outer `None` says that the scope
    /// is no longer open, the inner one that the key is absent.
    pub fn get<'a>(&self, map: &'a WriteHandle, k: i64) -> (found: Option<Option<&'a ValueBag>>)
        requires
            map.wf(),
        ensures
            found is Some == self.held_by(map),
            found matches Some(bag) ==> {
                &&& bag is Some == self.contents(map).dom().contains(k)
                &&& bag matches Some(b) ==> b@ == self.contents(map)[k] && b.wf() && b.policy()
                    == map.policy()
            },
    {
        if !self.is_held(map) {
            return None;
        }
        let copy = map.copy_at(self.slot, self.generation);
        Some(copy.get(k))
    }

    /// Whether `k` is present in this scope; `None` if the scope is no
    /// longer open.
    pub fn contains_key(&self, map: &WriteHandle, k: i64) -> (present: Option<bool>)
        requires
            map.wf(),
        ensures
            present == (if self.held_by(map) {
                Some(self.contents(map).dom().contains(k))
            } else {
                None
            }),
    {
        if !self.is_held(map) {
            return None;
        }
        Some(map.copy_at(self.slot, self.generation).contains_key(k))
    }

    /// The number of keys in this scope; `None` if the scope is no longer
    /// open.
    pub fn len(&self, map: &WriteHandle) -> (n: Option<usize>)
        requires
            map.wf(),
        ensures
            n is Some == self.held_by(map),
            n matches Some(count) ==> count == self.contents(map).dom().len(),
    {
        if !self.is_held(map) {
            return None;
        }
        Some(map.copy_at(self.slot, self.generation).len())
    }

    /// The keys of this scope in ascending order; `None` if the scope is no
    /// longer open.
    pub fn keys(&self, map: &WriteHandle) -> (keys: Option<Vec<i64>>)
        requires
            map.wf(),
        ensures
            keys is Some == self.held_by(map),
            keys matches Some(ks) ==> ks@ == ordered_keys(self.contents(map)) && is_key_list(
                self.contents(map),
                ks@,
            ),
    {
        if !self.is_held(map) {
            return None;
        }
        Some(map.copy_at(self.slot, self.generation).keys())
    }

    /// The bags of this scope, in ascending order of their keys; `None` if
    /// the scope is no longer open.
    pub fn values(&self, map: &WriteHandle) -> (bags: Option<Vec<Vec<i64>>>)
        requires
            map.wf(),
        ensures
            bags is Some == self.held_by(map),
            bags matches Some(bs) ==> {
                &&& is_key_list(self.contents(map), ordered_keys(self.contents(map)))
                &&& bs@.len() == ordered_keys(self.contents(map)).len()
                &&& forall|i: int|
                    0 <= i < bs@.len() ==> (#[trigger] bs@[i])@ == self.contents(
                        map,
                    )[ordered_keys(self.contents(map))[i]]
            },
    {
        if !self.is_held(map) {
            return None;
        }
        Some(map.copy_at(self.slot, self.generation).values())
    }

    /// Ends the scope, if it is still open.
    pub fn leave(self, map: &mut WriteHandle)
        requires
            old(map).wf(),
        ensures
            final(map).wf(),
            final(map).readers() == (if self.held_by(old(map)) {
                old(map).readers().update(self.id() as int, ReaderState::Idle)
            } else {
                old(map).readers()
            }),
            final(map).published() == old(map).published(),
            final(map).pending() == old(map).pending(),
            final(map).unpublished() == old(map).unpublished(),
            final(map).spec_generation() == old(map).spec_generation(),
            final(map).snapshots() == old(map).snapshots(),
            final(map).policy() == old(map).policy(),
            final(map).spec_is_live() == old(map).spec_is_live(),
            final(map).lagging() == old(map).lagging(),
    {
        if self.is_held(map) {
            map.epochs.leave(self.slot);
        }
    }
}

} // verus!
