//! Operations that make new foreign values: applying types, evaluating commands, and
//! building named tuples.

use crate::call::buffer::{buffer_with_capacity, MAX_LENGTH};
use crate::call::{addresses, append, marshaled, usable, CallView, EntryPoint, PendingCall};
use crate::error::{JlrsError, JlrsResult};
use crate::memory::scope::ScopeStack;
use crate::memory::tag::DataTag;
use crate::memory::target::Target;
use crate::wrappers::ptr::value::Value;
use vstd::prelude::*;
use vstd::string::StringSliceAdditionalSpecFns;

verus! {

/// The index of the first zero byte, if there is one.
pub open spec fn first_nul(bytes: Seq<u8>) -> Option<int> {
    if exists|i: int| 0 <= i < bytes.len() && bytes[i] == 0 {
        Some(
            choose|i: int|
                0 <= i < bytes.len() && bytes[i] == 0 && forall|j: int|
                    0 <= j < i ==> bytes[j] != 0,
        )
    } else {
        None
    }
}

/// The first zero byte is the one that no zero byte precedes.
pub proof fn lemma_first_nul(bytes: Seq<u8>, i: int)
    requires
        0 <= i < bytes.len(),
        bytes[i] == 0,
        forall|j: int| 0 <= j < i ==> bytes[j] != 0,
    ensures
        first_nul(bytes) == Some(i),
{
    let k = choose|k: int|
        0 <= k < bytes.len() && bytes[k] == 0 && forall|j: int| 0 <= j < k ==> bytes[j] != 0;
    if k < i {
        assert(bytes[k] != 0);
    } else if i < k {
        assert(bytes[i] != 0);
    }
}

/// The names and the values of a named tuple, marshaled.
#[derive(Debug)]
pub struct NamedTuple {
    /// The addresses of the symbols that name the fields.
    pub names: Vec<usize>,
    /// The addresses of the values of the fields.
    pub values: Vec<usize>,
}

impl Value {
    /// Apply the given types to `self`.
    ///
    /// If `self` is the type of all tuples, the result is a tuple type with the given types as
    /// its field types. If the value has free type parameters, the given types are applied
    /// and the resulting type is returned. If the types cannot be applied to `self` the
    /// runtime aborts: the operation is completed without an exception.
    pub fn apply_type(self, stack: &ScopeStack, target: Target, types: &[Value]) -> (pending:
        PendingCall)
        requires
            usable(*stack, self, None, types@),
            types@.len() + 2 <= MAX_LENGTH,
        ensures
            pending@ == (CallView {
                entry: EntryPoint::ApplyType,
                ..marshaled(self, None, types@, false, target)
            }),
    {
        let mut arguments = buffer_with_capacity(types.len());
        let data = append(&mut arguments, self.data(), types);
        proof {
            assert(arguments@ =~= addresses(types@));
        }
        PendingCall::new(EntryPoint::ApplyType, self.address(), arguments, target, data)
    }

    /// Execute a command `cmd`, for example `sqrt(2)`.
    ///
    /// The command is handed to the runtime as text that ends at the first zero byte, so a
    /// command that holds a zero byte is refused with `InteriorNul` and the index of that
    /// byte. The result aliases no host memory.
    pub fn eval_string(target: Target, cmd: &str) -> (pending: JlrsResult<PendingCall>)
        ensures
            match first_nul(cmd.spec_bytes()) {
                Some(i) => pending is Err && pending->Err_0 == JlrsError::InteriorNul(i as usize),
                None => pending is Ok && pending->Ok_0@ == (CallView {
                    entry: EntryPoint::EvalString,
                    function: 0,
                    arguments: Seq::empty(),
                    target,
                    data: DataTag::Owned,
                }),
            },
    {
        let bytes = cmd.as_bytes();
        let mut i: usize = 0;
        while i < bytes.len()
            invariant
                i <= bytes@.len(),
                bytes@ == cmd.spec_bytes(),
                forall|j: int| 0 <= j < i ==> bytes@[j] != 0,
            decreases bytes@.len() - i,
        {
            if bytes[i] == 0 {
                proof {
                    lemma_first_nul(bytes@, i as int);
                }
                return Err(JlrsError::InteriorNul(i));
            }
            i = i + 1;
        }
        Ok(Value::eval_cstring(target))
    }

    /// Execute a command that is known to hold no zero byte but the one that ends it. This is
    /// equivalent to [`Value::eval_string`] without the check.
    pub fn eval_cstring(target: Target) -> (pending: PendingCall)
        ensures
            pending@ == (CallView {
                entry: EntryPoint::EvalString,
                function: 0,
                arguments: Seq::empty(),
                target,
                data: DataTag::Owned,
            }),
    {
        PendingCall::new(
            EntryPoint::EvalString,
            0,
            buffer_with_capacity(0),
            target,
            DataTag::Owned,
        )
    }

    /// Marshals the parts of a new named tuple: the addresses of the symbols that name its
    /// fields, and the addresses of the values. Fails with `NamedTupleSizeMismatch` when
    /// there are not as many names as values.
    pub fn new_named_tuple(field_names: &[usize], values: &[Value]) -> (parts: JlrsResult<
        NamedTuple,
    >)
        ensures
            field_names@.len() != values@.len() ==> parts is Err && parts->Err_0
                == JlrsError::NamedTupleSizeMismatch(
                field_names@.len() as usize,
                values@.len() as usize,
            ),
            field_names@.len() == values@.len() ==> {
                &&& parts is Ok
                &&& parts->Ok_0.names@ == field_names@
                &&& parts->Ok_0.values@ == addresses(values@)
            },
    {
        let n = field_names.len();
        if n != values.len() {
            return Err(JlrsError::NamedTupleSizeMismatch(n, values.len()));
        }
        let mut names: Vec<usize> = Vec::new();
        let mut addrs: Vec<usize> = Vec::new();
        let mut i: usize = 0;
        while i < n
            invariant
                i <= n,
                n == field_names@.len(),
                n == values@.len(),
                names@ == field_names@.take(i as int),
                addrs@ == addresses(values@.take(i as int)),
            decreases n - i,
        {
            proof {
                assert(field_names@.take(i as int).push(field_names@[i as int])
                    =~= field_names@.take(i + 1));
                assert(addresses(values@.take(i as int)).push(values@[i as int].address())
                    =~= addresses(values@.take(i + 1)));
            }
            names.push(field_names[i]);
            addrs.push(values[i].address());
            i = i + 1;
        }
        proof {
            assert(field_names@.take(n as int) =~= field_names@);
            assert(values@.take(n as int) =~= values@);
        }
        Ok(NamedTuple { names, values: addrs })
    }
}

} // verus!
