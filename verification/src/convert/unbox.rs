//! Unbox the contents of a foreign value.
//!
//! A [`Value`] holds the address of data owned by the foreign runtime. The layout of this data
//! depends on its type. It's often possible to provide a host type that matches the layout of
//! the foreign data. Extracting the contents of a `Value` as such a type is called unboxing.

use crate::wrappers::ptr::value::Value;
use vstd::prelude::*;

verus! {

/// A trait implemented by types that can be extracted from a foreign value in combination
/// with [`Value::unbox`] and [`Value::unbox_unchecked`].
///
/// An implementation reads the data that the value points to as `Self::Output`. It may assume
/// that `Self::Output` is the correct layout for that data.
pub trait Unbox {
    /// The type that the data is read as.
    type Output: Sized + Clone;

    /// Whether `output` is what the implementor reads from the data that `value` points to.
    ///
    /// The data is owned by the foreign runtime and may change between two readings, so this
    /// relates a value to every output that a reading of it may give. An implementor that
    /// states nothing of its readings leaves every output possible.
    open spec fn unboxes(value: Value, output: Self::Output) -> bool {
        true
    }

    /// Unbox the value as `Self::Output`.
    fn unbox(value: Value) -> (output: Self::Output)
        ensures
            Self::unboxes(value, output),
    ;
}

} // verus!
