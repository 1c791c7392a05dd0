//! Errors reported to the caller.

use vstd::prelude::*;

verus! {

/// What can go wrong on the host side of the bridge.
///
/// An exception raised by foreign code is not among them: it is a value, returned in the
/// failure branch of a call result.
#[derive(Clone, Copy, Debug, PartialEq, Eq, Structural)]
pub enum JlrsError {
    /// A scope or the root stack cannot take another root.
    CapacityExceeded,
    /// An argument of a checked call is exclusively borrowed by the host.
    BorrowConflict,
    /// The scope named is not open.
    ScopeClosed,
    /// The value offered as a keyword bundle is not a named tuple.
    NotANamedTuple,
    /// The value does not have the type it was taken for.
    WrongType,
    /// The field index, given first, is not below the number of fields, given second.
    OutOfBounds(usize, usize),
    /// The value has no field with the name at this address.
    NoSuchField(usize),
    /// The field holds no value yet.
    UndefRef,
    /// The field at this index is stored inline, so no handle can refer to it.
    NotAPointerField(usize),
    /// The value is immutable.
    Immutable,
    /// The type of the value to store is no subtype of the type of the field.
    NotSubtype,
    /// The host type does not have the layout of the field.
    InvalidLayout,
    /// A named tuple needs as many names, given first, as values, given second.
    NamedTupleSizeMismatch(usize, usize),
    /// The command holds a zero byte at this index.
    InteriorNul(usize),
}

/// The result of an operation that may fail on the host side.
pub type JlrsResult<T> = Result<T, JlrsError>;

} // verus!
