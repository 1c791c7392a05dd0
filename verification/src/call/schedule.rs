//! Scheduling a function as a task of the foreign runtime.

use crate::call::buffer::{buffer_push, buffer_with_capacity, MAX_LENGTH};
use crate::call::{
    addresses, append, lemma_joined_first, marshaled, usable, Call, EntryPoint, PendingCall,
    WithKeywords,
};
use crate::memory::scope::ScopeStack;
use crate::memory::target::Target;
use crate::wrappers::ptr::value::Value;
use vstd::prelude::*;

verus! {

/// Schedule the implementor as a task of the foreign runtime.
///
/// A task is started by a scheduling function of the runtime, which is itself called like any
/// other function: it takes the function to run as its first argument, and the arguments of
/// that function after it. Keyword arguments are passed on to the scheduling function.
pub trait CallAsync: Call {
    /// Marshals the call of `scheduler` that starts a task running `self` with `args`. The
    /// call returns the task.
    fn schedule_async(
        self,
        stack: &ScopeStack,
        scheduler: Value,
        target: Target,
        args: &[Value],
    ) -> (pending: PendingCall)
        requires
            usable(*stack, self.callee(), self.bundle(), args@),
            stack.is_live_spec(scheduler),
            args@.len() + 3 <= MAX_LENGTH,
        ensures
            pending@ == marshaled(
                scheduler,
                self.bundle(),
                seq![self.callee()] + args@,
                false,
                target,
            ),
    ;
}

impl CallAsync for Value {
    fn schedule_async(
        self,
        stack: &ScopeStack,
        scheduler: Value,
        target: Target,
        args: &[Value],
    ) -> (pending: PendingCall) {
        let mut arguments = buffer_with_capacity(1 + args.len());
        buffer_push(&mut arguments, self.address());
        let data = append(&mut arguments, scheduler.data().merge(self.data()), args);
        proof {
            lemma_joined_first(scheduler.data(), self, args@);
            assert(arguments@ =~= addresses(seq![self] + args@));
        }
        PendingCall::new(EntryPoint::CallN, scheduler.address(), arguments, target, data)
    }
}

impl CallAsync for WithKeywords {
    fn schedule_async(
        self,
        stack: &ScopeStack,
        scheduler: Value,
        target: Target,
        args: &[Value],
    ) -> (pending: PendingCall) {
        let mut arguments = buffer_with_capacity(3 + args.len());
        buffer_push(&mut arguments, self.keywords().address());
        buffer_push(&mut arguments, scheduler.address());
        buffer_push(&mut arguments, self.function().address());
        let own = scheduler.data().merge(self.keywords().data());
        let data = append(&mut arguments, own.merge(self.function().data()), args);
        proof {
            lemma_joined_first(own, self.function(), args@);
            assert(arguments@ =~= seq![self.keywords().address(), scheduler.address()] + addresses(
                seq![self.function()] + args@,
            ));
        }
        PendingCall::new(EntryPoint::Keywords, scheduler.address(), arguments, target, data)
    }
}

} // verus!
