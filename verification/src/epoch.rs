//! The epoch registry: which reader is inside a read scope, and since which
//! generation.

use vstd::prelude::*;

verus! {

/// What the registry knows of one reader slot.
#[derive(Clone, Copy, Debug, PartialEq, Eq, Structural)]
pub enum ReaderState {
    /// The slot's handle was released.
    Vacant,
    /// The reader is registered and outside any read scope.
    Idle,
    /// The reader is inside a read scope that began at this generation.
    Reading(u64),
}

/// The oldest generation that a reader in `slots` is still reading;
/// `current` if no reader reads an older one.
pub open spec fn oldest(slots: Seq<ReaderState>, current: u64) -> u64
    decreases slots.len(),
{
    if slots.len() == 0 {
        current
    } else {
        let rest = oldest(slots.drop_last(), current);
        match slots.last() {
            ReaderState::Reading(g) => if g < rest {
                g
            } else {
                rest
            },
            _ => rest,
        }
    }
}

/// No reader in `slots` is inside a scope that began before `current`.
pub open spec fn none_before(slots: Seq<ReaderState>, current: u64) -> bool {
    forall|i: int|
        0 <= i < slots.len() ==> (#[trigger] slots[i] matches ReaderState::Reading(g) ==> g
            >= current)
}

/// The oldest generation is never above the current one, and is the current
/// one exactly when no reader is still in an older scope.
pub proof fn lemma_oldest(slots: Seq<ReaderState>, current: u64)
    ensures
        oldest(slots, current) <= current,
        oldest(slots, current) == current <==> none_before(slots, current),
    decreases slots.len(),
{
    if slots.len() > 0 {
        let init = slots.drop_last();
        lemma_oldest(init, current);
        if none_before(slots, current) {
            assert forall|i: int| 0 <= i < init.len() implies (
            #[trigger] init[i] matches ReaderState::Reading(g) ==> g >= current) by {
                assert(init[i] == slots[i]);
            }
            assert(slots[slots.len() - 1] == slots.last());
        }
        if oldest(slots, current) == current {
            assert forall|i: int| 0 <= i < slots.len() implies (
            #[trigger] slots[i] matches ReaderState::Reading(g) ==> g >= current) by {
                if i < init.len() {
                    assert(init[i] == slots[i]);
                }
            }
        }
    }
}

/// One slot per reader handle that was ever registered.
#[derive(Debug)]
pub struct EpochRegistry {
    slots: Vec<ReaderState>,
}

impl View for EpochRegistry {
    type V = Seq<ReaderState>;

    closed spec fn view(&self) -> Seq<ReaderState> {
        self.slots@
    }
}

impl EpochRegistry {
    /// A registry without readers.
    pub fn new() -> (registry: EpochRegistry)
        ensures
            registry@ == Seq::<ReaderState>::empty(),
    {
        EpochRegistry { slots: Vec::new() }
    }

    /// The number of slots, vacant ones included.
    pub fn len(&self) -> (n: usize)
        ensures
            n == self@.len(),
    {
        self.slots.len()
    }

    /// Adds a slot for a new reader, outside any scope, and returns its
    /// number.
    pub fn register(&mut self) -> (slot: usize)
        ensures
            slot == old(self)@.len(),
            final(self)@ == old(self)@.push(ReaderState::Idle),
    {
        let slot = self.slots.len();
        self.slots.push(ReaderState::Idle);
        slot
    }

    /// Gives up a slot. An unknown slot changes nothing.
    pub fn deregister(&mut self, slot: usize)
        ensures
            final(self)@ == (if slot < old(self)@.len() {
                old(self)@.update(slot as int, ReaderState::Vacant)
            } else {
                old(self)@
            }),
    {
        if slot < self.slots.len() {
            self.slots.set(slot, ReaderState::Vacant);
        }
    }

    /// What the registry knows of `slot`; `Vacant` for an unknown slot.
    pub fn state(&self, slot: usize) -> (state: ReaderState)
        ensures
            state == (if slot < self@.len() {
                self@[slot as int]
            } else {
                ReaderState::Vacant
            }),
    {
        if slot < self.slots.len() {
            self.slots[slot]
        } else {
            ReaderState::Vacant
        }
    }

    /// Begins a read scope at `generation` for a registered reader and says
    /// whether the reader was registered. A scope that was still open is
    /// replaced.
    pub fn enter(&mut self, slot: usize, generation: u64) -> (entered: bool)
        ensures
            entered == (slot < old(self)@.len() && old(self)@[slot as int]
                != ReaderState::Vacant),
            final(self)@ == (if entered {
                old(self)@.update(slot as int, ReaderState::Reading(generation))
            } else {
                old(self)@
            }),
    {
        if slot < self.slots.len() {
            match self.slots[slot] {
                ReaderState::Vacant => false,
                _ => {
                    self.slots.set(slot, ReaderState::Reading(generation));
                    true
                },
            }
        } else {
            false
        }
    }

    /// Ends the read scope of `slot`, if it is inside one.
    pub fn leave(&mut self, slot: usize)
        ensures
            final(self)@ == (if slot < old(self)@.len() && old(self)@[slot as int]
                is Reading {
                old(self)@.update(slot as int, ReaderState::Idle)
            } else {
                old(self)@
            }),
    {
        if slot < self.slots.len() {
            match self.slots[slot] {
                ReaderState::Reading(_) => {
                    self.slots.set(slot, ReaderState::Idle);
                },
                _ => {},
            }
        }
    }

    /// The oldest generation that some reader is still reading, `current` if
    /// there is none before it.
    pub fn watermark(&self, current: u64) -> (mark: u64)
        ensures
            mark == oldest(self@, current),
    {
        let mut mark = current;
        let mut i: usize = 0;
        while i < self.slots.len()
            invariant
                i <= self.slots@.len(),
                mark == oldest(self.slots@.subrange(0, i as int), current),
            decreases self.slots@.len() - i,
        {
            proof {
                assert(self.slots@.subrange(0, i + 1).drop_last() =~= self.slots@.subrange(
                    0,
                    i as int,
                ));
                assert(self.slots@.subrange(0, i + 1).last() == self.slots@[i as int]);
            }
            match self.slots[i] {
                ReaderState::Reading(g) => {
                    if g < mark {
                        mark = g;
                    }
                },
                _ => {},
            }
            i += 1;
        }
        assert(self.slots@.subrange(0, i as int) =~= self.slots@);
        mark
    }
}

} // verus!
