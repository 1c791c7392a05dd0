//! Targets: where an operation puts the value it produces.

use crate::error::JlrsError;
use crate::memory::scope::{Scope, ScopeStack};
use crate::memory::tag::{DataTag, ScopeTag};
use crate::wrappers::ptr::value::Value;
use vstd::prelude::*;

verus! {

/// Says where a newly produced value is rooted, if at all.
///
/// Every operation that produces a foreign value takes one target and uses it up. The tag in
/// each case names the scope that bounds the resulting handle.
#[derive(Debug)]
pub enum Target {
    /// Root the value in this scope, in its next free slot.
    Local(ScopeTag),
    /// Root the value in this enclosing scope, in the slot it reserved for a promoted value.
    Ancestor(ScopeTag),
    /// Do not root the value.
    Unrooted(ScopeTag),
}

impl Target {
    /// The scope that bounds the handle this target gives.
    pub open spec fn scope_spec(&self) -> ScopeTag {
        match *self {
            Target::Local(tag) => tag,
            Target::Ancestor(tag) => tag,
            Target::Unrooted(tag) => tag,
        }
    }

    /// The scope that bounds the handle this target gives.
    #[verifier::when_used_as_spec(scope_spec)]
    pub fn scope(&self) -> (tag: ScopeTag)
        ensures
            tag == self.scope_spec(),
    {
        match self {
            Target::Local(tag) => *tag,
            Target::Ancestor(tag) => *tag,
            Target::Unrooted(tag) => *tag,
        }
    }

    /// Placing `address` through this target takes `pre` to `post` and returns `value`.
    pub open spec fn places(
        self,
        pre: ScopeStack,
        post: ScopeStack,
        address: usize,
        data: DataTag,
        value: Result<Value, JlrsError>,
    ) -> bool {
        match self {
            Target::Local(tag) => pre.roots_here(post, tag, address, data, value),
            Target::Ancestor(tag) => pre.promotes(post, tag, address, data, value),
            Target::Unrooted(tag) => post == pre && pre.unroots(tag, address, data, value),
        }
    }

    /// Hands `address` to the target and returns the handle.
    ///
    /// A local target roots the address in its scope, an ancestor target promotes it into the
    /// enclosing scope, and an unrooted target writes nothing. Whatever the target, no handle
    /// is made for a scope that is not open.
    pub fn place(self, stack: &mut ScopeStack, address: usize, data: DataTag) -> (value: Result<
        Value,
        JlrsError,
    >)
        requires
            old(stack).wf(),
            address != 0,
        ensures
            final(stack).wf(),
            self.places(*old(stack), *final(stack), address, data, value),
    {
        match self {
            Target::Local(tag) => stack.root_here(tag, address, data),
            Target::Ancestor(tag) => stack.root_in_ancestor(tag, address, data),
            Target::Unrooted(tag) => stack.unrooted(tag, address, data),
        }
    }
}

impl Scope {
    /// A target that roots a value in this scope.
    pub fn target(&self) -> (target: Target)
        ensures
            target == Target::Local(self.tag()),
    {
        Target::Local(self.tag())
    }

    /// A target that promotes a value into this scope from a scope opened inside it.
    pub fn output(&self) -> (target: Target)
        ensures
            target == Target::Ancestor(self.tag()),
    {
        Target::Ancestor(self.tag())
    }

    /// A target that leaves a value unrooted, for use while this scope is open.
    pub fn unrooted(&self) -> (target: Target)
        ensures
            target == Target::Unrooted(self.tag()),
    {
        Target::Unrooted(self.tag())
    }
}

} // verus!
