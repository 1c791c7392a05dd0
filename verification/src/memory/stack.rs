//! The stack of root slots that the foreign collector scans.

use crate::error::JlrsError;
use vstd::prelude::*;

verus! {

/// A growable stack of root slots.
///
/// A slot holds the address of a foreign object, or zero. The collector treats every nonzero
/// slot as a root, so a slot is zero from the moment it is reserved until an address is written
/// to it.
pub struct RootStack {
    slots: Vec<usize>,
    limit: usize,
}

impl View for RootStack {
    type V = Seq<usize>;

    closed spec fn view(&self) -> Seq<usize> {
        self.slots@
    }
}

impl RootStack {
    /// The largest number of slots the stack may hold.
    pub closed spec fn limit(&self) -> nat {
        self.limit as nat
    }

    /// The stack never holds more slots than its limit.
    pub open spec fn wf(&self) -> bool {
        self@.len() <= self.limit()
    }

    /// The slots after `n` zeroed slots were reserved on top.
    pub open spec fn reserved(slots: Seq<usize>, n: nat) -> Seq<usize> {
        slots + Seq::new(n, |i: int| 0usize)
    }

    /// The slots after every slot from `base` upwards was given up.
    pub open spec fn released(slots: Seq<usize>, base: nat) -> Seq<usize> {
        if base <= slots.len() {
            slots.take(base as int)
        } else {
            slots
        }
    }

    /// Slots that are given up and reserved again come back zeroed: after a release down to
    /// `base`, the next reservation starts at `base`, and every slot it covers is zero
    /// whatever the slot held before. The slots below `base` keep what they held.
    pub proof fn lemma_reserve_after_release(slots: Seq<usize>, base: nat, n: nat)
        requires
            base <= slots.len(),
        ensures
            Self::released(slots, base).len() == base,
            Self::reserved(Self::released(slots, base), n).len() == base + n,
            forall|k: int|
                base <= k < base + n ==> Self::reserved(Self::released(slots, base), n)[k] == 0,
            forall|k: int|
                0 <= k < base ==> Self::reserved(Self::released(slots, base), n)[k] == slots[k],
    {
    }

    /// An empty stack that will hold at most `limit` slots.
    pub fn new(limit: usize) -> (stack: Self)
        ensures
            stack.wf(),
            stack@ == Seq::<usize>::empty(),
            stack.limit() == limit,
    {
        RootStack { slots: Vec::new(), limit }
    }

    /// The number of reserved slots.
    pub fn len(&self) -> (n: usize)
        ensures
            n == self@.len(),
    {
        self.slots.len()
    }

    /// The largest number of slots the stack may hold.
    pub fn capacity(&self) -> (n: usize)
        ensures
            n == self.limit(),
            self.wf() ==> self@.len() <= n,
    {
        self.limit
    }

    /// Reserves `n` zeroed slots on top of the stack and returns the index of the first.
    ///
    /// Fails, leaving the stack as it was, when the stack would grow past its limit.
    pub fn reserve_slots(&mut self, n: usize) -> (base: Result<usize, JlrsError>)
        requires
            old(self).wf(),
        ensures
            final(self).wf(),
            final(self).limit() == old(self).limit(),
            old(self)@.len() + n <= old(self).limit() ==> base == Ok::<usize, JlrsError>(
                old(self)@.len() as usize,
            ) && final(self)@ == Self::reserved(old(self)@, n as nat),
            old(self)@.len() + n > old(self).limit() ==> base == Err::<usize, JlrsError>(
                JlrsError::CapacityExceeded,
            ) && final(self)@ == old(self)@,
    {
        let base = self.slots.len();
        if n > self.limit - base {
            return Err(JlrsError::CapacityExceeded);
        }
        let mut added: usize = 0;
        while added < n
            invariant
                added <= n,
                base + n <= self.limit,
                self.limit == old(self).limit,
                self.slots@ == old(self)@ + Seq::new(added as nat, |i: int| 0usize),
            decreases n - added,
        {
            self.slots.push(0);
            added = added + 1;
        }
        Ok(base)
    }

    /// Gives up every slot from `base` upwards.
    ///
    /// Slots must be released in the reverse of the order in which they were reserved. A `base`
    /// above the top of the stack releases nothing.
    pub fn release_slots(&mut self, base: usize)
        requires
            old(self).wf(),
        ensures
            final(self).wf(),
            final(self).limit() == old(self).limit(),
            final(self)@ == Self::released(old(self)@, base as nat),
    {
        self.slots.truncate(base);
    }

    /// The slot at index `i`, for reading and writing.
    pub fn slot(&mut self, i: usize) -> (slot: &mut usize)
        requires
            i < old(self)@.len(),
            old(self).wf(),
        ensures
            *slot == old(self)@[i as int],
            final(self)@ == old(self)@.update(i as int, *final(slot)),
            final(self).limit() == old(self).limit(),
            final(self).wf(),
    {
        &mut self.slots[i]
    }

    /// The content of the slot at index `i`.
    pub fn get(&self, i: usize) -> (address: usize)
        requires
            i < self@.len(),
        ensures
            address == self@[i as int],
    {
        self.slots[i]
    }
}

} // verus!
