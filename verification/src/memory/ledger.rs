//! The ledger of foreign arrays whose storage the host has borrowed.

use crate::error::JlrsError;
use std::collections::HashMap;
use vstd::prelude::*;

verus! {

broadcast use vstd::std_specs::hash::group_hash_axioms;

/// How the storage of an array is borrowed.
#[derive(Clone, Copy, Debug, PartialEq, Eq, Structural)]
pub enum Borrow {
    /// Read by this many borrowers, at least one.
    Shared(usize),
    /// Borrowed by one borrower that may write to it.
    Exclusive,
}

/// Records, by the address of an array, how its storage is borrowed.
///
/// An array that the ledger does not list is not borrowed.
pub struct Ledger {
    entries: HashMap<usize, Borrow>,
}

impl View for Ledger {
    type V = Map<usize, Borrow>;

    closed spec fn view(&self) -> Map<usize, Borrow> {
        self.entries@
    }
}

impl Ledger {
    /// Whether the borrows record an exclusive borrow of the array at `address`.
    pub open spec fn exclusive(borrows: Map<usize, Borrow>, address: usize) -> bool {
        borrows.contains_key(address) && borrows[address] is Exclusive
    }

    /// The number of shared borrows of the array at `address` that the borrows record.
    pub open spec fn shared(borrows: Map<usize, Borrow>, address: usize) -> nat {
        if borrows.contains_key(address) {
            match borrows[address] {
                Borrow::Shared(n) => n as nat,
                Borrow::Exclusive => 0,
            }
        } else {
            0
        }
    }

    /// The borrows after one more shared borrow of the array at `address`. The count stops at
    /// the largest number it can hold. An exclusive borrow stays as it is.
    pub open spec fn with_shared(borrows: Map<usize, Borrow>, address: usize) -> Map<
        usize,
        Borrow,
    > {
        if Self::exclusive(borrows, address) {
            borrows
        } else if Self::shared(borrows, address) < usize::MAX {
            borrows.insert(address, Borrow::Shared((Self::shared(borrows, address) + 1) as usize))
        } else {
            borrows
        }
    }

    /// The borrows after one shared borrow of the array at `address` has ended.
    pub open spec fn without_shared(borrows: Map<usize, Borrow>, address: usize) -> Map<
        usize,
        Borrow,
    > {
        if Self::shared(borrows, address) > 1 {
            borrows.insert(address, Borrow::Shared((Self::shared(borrows, address) - 1) as usize))
        } else if Self::shared(borrows, address) == 1 {
            borrows.remove(address)
        } else {
            borrows
        }
    }

    /// Whether every shared borrow that the borrows record has at least one borrower.
    pub open spec fn counted(borrows: Map<usize, Borrow>) -> bool {
        forall|address: usize| #[trigger]
            borrows.contains_key(address) ==> borrows[address] != Borrow::Shared(0)
    }

    /// Every shared borrow on record has at least one borrower.
    pub open spec fn wf(&self) -> bool {
        Self::counted(self@)
    }

    /// A ledger without borrows.
    pub fn new() -> (ledger: Ledger)
        ensures
            ledger.wf(),
            ledger@ == Map::<usize, Borrow>::empty(),
    {
        Ledger { entries: HashMap::new() }
    }

    /// Whether the array at `address` is exclusively borrowed.
    pub fn is_exclusive(&self, address: usize) -> (exclusive: bool)
        ensures
            exclusive == Self::exclusive(self@, address),
    {
        match self.entries.get(&address) {
            Some(Borrow::Exclusive) => true,
            _ => false,
        }
    }

    /// The number of shared borrows of the array at `address`.
    pub fn shared_count(&self, address: usize) -> (count: usize)
        ensures
            count == Self::shared(self@, address),
    {
        match self.entries.get(&address) {
            Some(Borrow::Shared(n)) => *n,
            _ => 0,
        }
    }

    /// Records a shared borrow of the array at `address`.
    ///
    /// Fails with `BorrowConflict`, changing nothing, when the array is exclusively borrowed.
    pub fn track_shared(&mut self, address: usize) -> (outcome: Result<(), JlrsError>)
        requires
            old(self).wf(),
        ensures
            final(self).wf(),
            Self::exclusive(old(self)@, address) ==> outcome == Err::<(), JlrsError>(
                JlrsError::BorrowConflict,
            ) && final(self)@ == old(self)@,
            !Self::exclusive(old(self)@, address) ==> outcome == Ok::<(), JlrsError>(())
                && final(self)@ == Self::with_shared(old(self)@, address),
    {
        if self.is_exclusive(address) {
            return Err(JlrsError::BorrowConflict);
        }
        let count = self.shared_count(address);
        if count < usize::MAX {
            self.entries.insert(address, Borrow::Shared(count + 1));
        }
        Ok(())
    }

    /// Records an exclusive borrow of the array at `address`.
    ///
    /// Fails with `BorrowConflict`, changing nothing, when the array is borrowed already.
    pub fn track_exclusive(&mut self, address: usize) -> (outcome: Result<(), JlrsError>)
        requires
            old(self).wf(),
        ensures
            final(self).wf(),
            old(self)@.contains_key(address) ==> outcome == Err::<(), JlrsError>(
                JlrsError::BorrowConflict,
            ) && final(self)@ == old(self)@,
            !old(self)@.contains_key(address) ==> outcome == Ok::<(), JlrsError>(())
                && final(self)@ == old(self)@.insert(address, Borrow::Exclusive),
    {
        if self.entries.contains_key(&address) {
            return Err(JlrsError::BorrowConflict);
        }
        self.entries.insert(address, Borrow::Exclusive);
        Ok(())
    }

    /// Ends one shared borrow of the array at `address`, if there is one.
    pub fn untrack_shared(&mut self, address: usize)
        requires
            old(self).wf(),
        ensures
            final(self).wf(),
            final(self)@ == Self::without_shared(old(self)@, address),
    {
        let count = self.shared_count(address);
        if count > 1 {
            self.entries.insert(address, Borrow::Shared(count - 1));
        } else if count == 1 {
            self.entries.remove(&address);
        }
    }

    /// Ends the exclusive borrow of the array at `address`, if there is one.
    pub fn untrack_exclusive(&mut self, address: usize)
        requires
            old(self).wf(),
        ensures
            final(self).wf(),
            final(self)@ == if Self::exclusive(old(self)@, address) {
                old(self)@.remove(address)
            } else {
                old(self)@
            },
    {
        if self.is_exclusive(address) {
            self.entries.remove(&address);
        }
    }

    /// A shared borrow that is recorded and then ended leaves the borrows as they were, as
    /// long as the count had room for it.
    pub proof fn lemma_shared_then_released(borrows: Map<usize, Borrow>, address: usize)
        requires
            Self::counted(borrows),
            !Self::exclusive(borrows, address),
            Self::shared(borrows, address) < usize::MAX,
        ensures
            Self::without_shared(Self::with_shared(borrows, address), address) == borrows,
    {
        assert(Self::without_shared(Self::with_shared(borrows, address), address) =~= borrows);
    }
}

} // verus!
