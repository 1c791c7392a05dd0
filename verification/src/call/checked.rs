//! Arguments of a checked call, and the borrows that the call records.

use crate::memory::ledger::{Borrow, Ledger};
use crate::wrappers::ptr::value::Value;
use vstd::prelude::*;

verus! {

/// An argument of a checked call.
#[derive(Clone, Copy, Debug)]
pub struct Argument {
    /// The handle passed to the function.
    pub value: Value,
    /// Whether the handle denotes an array. Only arrays are lent and checked for borrows.
    pub is_array: bool,
}

/// The handles of the arguments, in order.
pub open spec fn values(args: Seq<Argument>) -> Seq<Value> {
    Seq::new(args.len(), |i: int| args[i].value)
}

/// Whether one of the arguments is an array that is exclusively borrowed.
pub open spec fn conflict(borrows: Map<usize, Borrow>, args: Seq<Argument>) -> bool {
    exists|i: int|
        0 <= i < args.len() && (#[trigger] args[i]).is_array && Ledger::exclusive(
            borrows,
            args[i].value.address(),
        )
}

/// The borrows after every array among the arguments got one more shared borrow.
pub open spec fn lent(borrows: Map<usize, Borrow>, args: Seq<Argument>) -> Map<usize, Borrow>
    decreases args.len(),
{
    if args.len() == 0 {
        borrows
    } else if args.last().is_array {
        Ledger::with_shared(lent(borrows, args.drop_last()), args.last().value.address())
    } else {
        lent(borrows, args.drop_last())
    }
}

/// The borrows after one shared borrow of every array among the arguments has ended.
pub open spec fn released(borrows: Map<usize, Borrow>, args: Seq<Argument>) -> Map<usize, Borrow>
    decreases args.len(),
{
    if args.len() == 0 {
        borrows
    } else if args.last().is_array {
        Ledger::without_shared(released(borrows, args.drop_last()), args.last().value.address())
    } else {
        released(borrows, args.drop_last())
    }
}

/// How often the array at `address` occurs among the arguments.
pub open spec fn occurrences(args: Seq<Argument>, address: usize) -> nat
    decreases args.len(),
{
    if args.len() == 0 {
        0
    } else if args.last().is_array && args.last().value.address() == address {
        occurrences(args.drop_last(), address) + 1
    } else {
        occurrences(args.drop_last(), address)
    }
}

/// Lending arrays to a call makes no array exclusively borrowed, and frees none that was.
pub proof fn lemma_lent_exclusive(borrows: Map<usize, Borrow>, args: Seq<Argument>, address: usize)
    ensures
        Ledger::exclusive(lent(borrows, args), address) == Ledger::exclusive(borrows, address),
    decreases args.len(),
{
    if args.len() > 0 {
        lemma_lent_exclusive(borrows, args.drop_last(), address);
    }
}

/// Lending arrays to a call adds to the shared borrows of an array as many as the array
/// occurs among the arguments, and leaves every shared borrow on record with a borrower.
pub proof fn lemma_lent_shared(borrows: Map<usize, Borrow>, args: Seq<Argument>, address: usize)
    requires
        Ledger::counted(borrows),
        !conflict(borrows, args),
        Ledger::shared(borrows, address) + occurrences(args, address) <= usize::MAX,
    ensures
        Ledger::counted(lent(borrows, args)),
        Ledger::shared(lent(borrows, args), address) == Ledger::shared(borrows, address)
            + occurrences(args, address),
    decreases args.len(),
{
    if args.len() > 0 {
        let before = args.drop_last();
        assert forall|i: int| 0 <= i < before.len() implies !((#[trigger] before[i]).is_array
            && Ledger::exclusive(borrows, before[i].value.address())) by {
            assert(before[i] == args[i]);
        }
        lemma_lent_shared(borrows, before, address);
        let last = args.last();
        assert(last == args[args.len() - 1]);
        lemma_lent_exclusive(borrows, before, last.value.address());
    }
}

/// Taking back what was lent takes from the shared borrows of an array as many as the array
/// occurs among the arguments, as far as there are that many, changes no exclusive borrow,
/// and leaves every shared borrow on record with a borrower.
pub proof fn lemma_released_shared(
    borrows: Map<usize, Borrow>,
    args: Seq<Argument>,
    address: usize,
)
    requires
        Ledger::counted(borrows),
    ensures
        Ledger::counted(released(borrows, args)),
        Ledger::exclusive(released(borrows, args), address) == Ledger::exclusive(
            borrows,
            address,
        ),
        Ledger::shared(released(borrows, args), address) == if Ledger::shared(borrows, address)
            >= occurrences(args, address) {
            Ledger::shared(borrows, address) - occurrences(args, address)
        } else {
            0
        },
    decreases args.len(),
{
    if args.len() > 0 {
        lemma_released_shared(borrows, args.drop_last(), address);
    }
}

/// A checked call leaves no trace: when the arrays that a call was lent are taken back, the
/// borrows are as they were before the call, as long as the counts had room for the call.
pub proof fn lemma_release_undoes_lend(borrows: Map<usize, Borrow>, args: Seq<Argument>)
    requires
        Ledger::counted(borrows),
        !conflict(borrows, args),
        forall|address: usize|
            Ledger::shared(borrows, address) + #[trigger] occurrences(args, address)
                <= usize::MAX,
    ensures
        released(lent(borrows, args), args) == borrows,
{
    let during = lent(borrows, args);
    let after = released(during, args);
    assert forall|address: usize|
        after.contains_key(address) == borrows.contains_key(address) && (borrows.contains_key(
            address,
        ) ==> after[address] == borrows[address]) by {
        assert(Ledger::shared(borrows, address) + occurrences(args, address) <= usize::MAX);
        lemma_lent_shared(borrows, args, address);
        lemma_lent_exclusive(borrows, args, address);
        lemma_released_shared(during, args, address);
    }
    assert(after =~= borrows);
}

/// Whether one of the arguments is an array that is exclusively borrowed.
pub fn conflicting(ledger: &Ledger, args: &[Argument]) -> (found: bool)
    ensures
        found == conflict(ledger@, args@),
{
    let mut i: usize = 0;
    while i < args.len()
        invariant
            i <= args@.len(),
            forall|j: int|
                0 <= j < i ==> !((#[trigger] args@[j]).is_array && Ledger::exclusive(
                    ledger@,
                    args@[j].value.address(),
                )),
        decreases args@.len() - i,
    {
        let arg = args[i];
        if arg.is_array && ledger.is_exclusive(arg.value.address()) {
            return true;
        }
        i = i + 1;
    }
    false
}

/// Records a shared borrow of every array among the arguments, and returns the handles of
/// the arguments. An array that is exclusively borrowed stays as it is.
pub fn lend(ledger: &mut Ledger, args: &[Argument]) -> (handles: Vec<Value>)
    requires
        old(ledger).wf(),
    ensures
        final(ledger).wf(),
        final(ledger)@ == lent(old(ledger)@, args@),
        handles@ == values(args@),
{
    let mut handles: Vec<Value> = Vec::new();
    let mut i: usize = 0;
    while i < args.len()
        invariant
            i <= args@.len(),
            ledger.wf(),
            ledger@ == lent(old(ledger)@, args@.take(i as int)),
            handles@ == values(args@.take(i as int)),
        decreases args@.len() - i,
    {
        let arg = args[i];
        proof {
            assert(args@.take(i + 1).drop_last() =~= args@.take(i as int));
            assert(values(args@.take(i as int)).push(arg.value) =~= values(args@.take(i + 1)));
        }
        if arg.is_array {
            let _ = ledger.track_shared(arg.value.address());
        }
        handles.push(arg.value);
        i = i + 1;
    }
    proof {
        assert(args@.take(i as int) =~= args@);
    }
    handles
}

/// Ends one shared borrow of every array among the arguments: what a checked call recorded is
/// taken back once the runtime no longer reads the arrays.
pub fn release(ledger: &mut Ledger, args: &[Argument])
    requires
        old(ledger).wf(),
    ensures
        final(ledger).wf(),
        final(ledger)@ == released(old(ledger)@, args@),
{
    let mut i: usize = 0;
    while i < args.len()
        invariant
            i <= args@.len(),
            ledger.wf(),
            ledger@ == released(old(ledger)@, args@.take(i as int)),
        decreases args@.len() - i,
    {
        let arg = args[i];
        proof {
            assert(args@.take(i + 1).drop_last() =~= args@.take(i as int));
        }
        if arg.is_array {
            ledger.untrack_shared(arg.value.address());
        }
        i = i + 1;
    }
    proof {
        assert(args@.take(i as int) =~= args@);
    }
}

} // verus!
