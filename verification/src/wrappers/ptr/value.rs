//! The handle to an arbitrary foreign value.

use crate::convert::unbox::Unbox;
use crate::error::{JlrsError, JlrsResult};
use crate::memory::scope::ScopeStack;
use crate::memory::tag::{DataTag, ScopeTag};
use crate::memory::target::Target;
use vstd::prelude::*;
use vstd::std_specs::cmp::{PartialEqSpec, PartialEqSpecImpl};

verus! {

/// A handle to one value on the foreign heap.
///
/// A handle denotes the value and does not own it, so it is freely copied. It carries the
/// address of the value, which is never null, and two tags: the scope during which the handle
/// may be used, and the host memory that the value may alias. Two handles are equal when they
/// hold the same address.
#[derive(Clone, Copy, Debug)]
pub struct Value {
    address: usize,
    scope: ScopeTag,
    data: DataTag,
}

impl PartialEq for Value {
    fn eq(&self, other: &Value) -> (equal: bool) {
        self.address == other.address
    }
}

impl PartialEqSpecImpl for Value {
    open spec fn obeys_eq_spec() -> bool {
        true
    }

    open spec fn eq_spec(&self, other: &Value) -> bool {
        self.address_spec() == other.address_spec()
    }
}

impl Eq for Value {}

impl Value {
    #[verifier::type_invariant]
    spec fn non_null(self) -> bool {
        self.address != 0
    }

    /// The address of the foreign value.
    pub closed spec fn address_spec(&self) -> usize {
        self.address
    }

    /// The scope during which the handle may be used.
    pub closed spec fn scope_spec(&self) -> ScopeTag {
        self.scope
    }

    /// The host memory that the value may alias.
    pub closed spec fn data_spec(&self) -> DataTag {
        self.data
    }

    /// Whether this is the handle with this address and these tags.
    pub open spec fn denotes(&self, address: usize, scope: ScopeTag, data: DataTag) -> bool {
        self.address_spec() == address && self.scope_spec() == scope && self.data_spec() == data
    }

    /// Wraps an address that is known not to be null. The caller vouches for the tags: that
    /// the value is not reclaimed while the scope is open, and aliases no other host memory.
    pub fn wrap(address: usize, scope: ScopeTag, data: DataTag) -> (value: Value)
        requires
            address != 0,
        ensures
            value.denotes(address, scope, data),
    {
        Value { address, scope, data }
    }

    /// The address of the foreign value.
    #[verifier::when_used_as_spec(address_spec)]
    pub fn address(&self) -> (address: usize)
        ensures
            address == self.address_spec(),
            address != 0,
    {
        proof {
            use_type_invariant(self);
        }
        self.address
    }

    /// The scope during which the handle may be used.
    #[verifier::when_used_as_spec(scope_spec)]
    pub fn scope(&self) -> (scope: ScopeTag)
        ensures
            scope == self.scope_spec(),
    {
        self.scope
    }

    /// The host memory that the value may alias.
    #[verifier::when_used_as_spec(data_spec)]
    pub fn data(&self) -> (data: DataTag)
        ensures
            data == self.data_spec(),
    {
        self.data
    }

    /// Create a new value from the address of a foreign object that was just allocated, and
    /// place it through `target`. The value aliases no host memory.
    pub fn new(stack: &mut ScopeStack, target: Target, address: usize) -> (value: JlrsResult<
        Value,
    >)
        requires
            old(stack).wf(),
            address != 0,
        ensures
            final(stack).wf(),
            target.places(*old(stack), *final(stack), address, DataTag::Owned, value),
    {
        target.place(stack, address, DataTag::Owned)
    }

    /// Create a new value from the address of a foreign object that was just allocated.
    /// Unlike [`Value::new`] this method doesn't root the allocated value.
    pub fn new_unrooted(stack: &ScopeStack, scope: ScopeTag, address: usize) -> (value:
        JlrsResult<Value>)
        requires
            stack.wf(),
            address != 0,
        ensures
            stack.unroots(scope, address, DataTag::Owned, value),
    {
        stack.unrooted(scope, address, DataTag::Owned)
    }

    /// If you call a function with one or more borrowed arrays as arguments, its result can
    /// only be used while all the borrows are active. If this result doesn't contain any
    /// borrowed data this function can be used to relax its data tag.
    ///
    /// The value must not contain any data borrowed from the host.
    pub fn assume_owned(self) -> (value: Value)
        ensures
            value.denotes(self.address(), self.scope(), DataTag::Owned),
    {
        proof {
            use_type_invariant(self);
        }
        Value::wrap(self.address, self.scope, DataTag::Owned)
    }

    /// Root the value through some `target`.
    pub fn root(self, stack: &mut ScopeStack, target: Target) -> (value: JlrsResult<Value>)
        requires
            old(stack).wf(),
            old(stack).is_live_spec(self),
        ensures
            final(stack).wf(),
            target.places(*old(stack), *final(stack), self.address(), self.data(), value),
    {
        proof {
            use_type_invariant(self);
        }
        target.place(stack, self.address, self.data)
    }

    /// Cast the value to the kind of handle that stands for values of some type. Returns an
    /// error if the conversion is invalid: `is_t` says whether the runtime found the value to
    /// be of that type. The handle that is returned has the address and the tags of `self`.
    pub fn cast(self, is_t: bool) -> (cast: JlrsResult<Value>)
        ensures
            is_t ==> cast == Ok::<Value, JlrsError>(self),
            !is_t ==> cast == Err::<Value, JlrsError>(JlrsError::WrongType),
    {
        if is_t {
            Ok(self)
        } else {
            Err(JlrsError::WrongType)
        }
    }

    /// Unbox the contents of the value as the output type associated with `T`. Returns an
    /// error if the layout of `T::Output` is incompatible with the layout of the type of the
    /// value: `is_t` says whether the runtime found the value to be of a type that `T` stands
    /// for.
    pub fn unbox<T: Unbox>(self, is_t: bool) -> (contents: JlrsResult<T::Output>)
        ensures
            contents is Ok == is_t,
            is_t ==> T::unboxes(self, contents->Ok_0),
            !is_t ==> contents->Err_0 == JlrsError::WrongType,
    {
        if !is_t {
            return Err(JlrsError::WrongType);
        }
        Ok(T::unbox(self))
    }

    /// Unbox the contents of the value as the output type associated with `T` without checking
    /// if the layout of `T::Output` is compatible with the layout of the type of the value.
    /// The contents are what `T` reads from the data that the value points to.
    pub fn unbox_unchecked<T: Unbox>(self) -> (contents: T::Output)
        ensures
            T::unboxes(self, contents),
    {
        T::unbox(self)
    }

    /// A handle is no more than its address and its tags: handles that agree on all three are
    /// the same handle.
    pub proof fn lemma_same(self, other: Value)
        requires
            self.denotes(other.address_spec(), other.scope_spec(), other.data_spec()),
        ensures
            self == other,
    {
    }

    /// Handles to the same address compare equal, whatever their tags: a foreign value that
    /// is wrapped twice gives two equal handles.
    pub proof fn lemma_equal_by_address(self, other: Value)
        requires
            self.address_spec() == other.address_spec(),
        ensures
            PartialEqSpec::eq_spec(&self, &other),
    {
    }

    /// Unrooted access can be repeated: asking twice for an unrooted handle to one address,
    /// with nothing done to the scope stack in between, gives the same answer twice, and
    /// where it is a handle, the two handles compare equal.
    pub proof fn lemma_unrooted_twice(
        stack: ScopeStack,
        tag: ScopeTag,
        address: usize,
        data: DataTag,
        first: JlrsResult<Value>,
        second: JlrsResult<Value>,
    )
        requires
            stack.unroots(tag, address, data, first),
            stack.unroots(tag, address, data, second),
        ensures
            first == second,
            first is Ok ==> PartialEqSpec::eq_spec(&first->Ok_0, &second->Ok_0),
    {
        if first is Ok {
            first->Ok_0.lemma_same(second->Ok_0);
        }
    }
}

/// A value that is used outside the scope that produced it.
///
/// Some foreign values are never reclaimed: symbols, modules, and globals defined in modules.
/// Such a value can be leaked, and turned into a [`Value`] again inside any scope.
#[derive(Clone, Copy, Debug)]
pub struct LeakedValue {
    value: Value,
}

impl LeakedValue {
    /// The address of the foreign value.
    pub closed spec fn address(&self) -> usize {
        self.value.address_spec()
    }

    /// Leaks the value at an address that is known not to be null.
    pub fn wrap(address: usize) -> (leaked: LeakedValue)
        requires
            address != 0,
        ensures
            leaked.address() == address,
    {
        LeakedValue { value: Value::wrap(address, ScopeTag::permanent(), DataTag::Owned) }
    }

    /// Convert this [`LeakedValue`] back to a [`Value`] that is bound to `scope`, which must
    /// be open.
    ///
    /// The value must not have been freed by the garbage collector. While symbols are never
    /// garbage collected, modules and their contents can be redefined.
    pub fn as_value(self, stack: &ScopeStack, scope: ScopeTag) -> (value: JlrsResult<Value>)
        requires
            stack.wf(),
        ensures
            stack.unroots(scope, self.address(), DataTag::Owned, value),
    {
        stack.unrooted(scope, self.value.address(), DataTag::Owned)
    }
}

} // verus!
