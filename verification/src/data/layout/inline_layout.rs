//! Marker trait automatically implemented by types that provide a matching layout for foreign
//! data.

use crate::convert::unbox::Unbox;
use crate::data::layout::valid_layout::ValidLayout;
use vstd::prelude::*;

verus! {

/// Marker trait automatically implemented by types that provide a matching layout for foreign
/// data.
pub trait InlineLayout: ValidLayout + Unbox<Output = Self> {

}

impl<T: ValidLayout + Unbox<Output = T>> InlineLayout for T {

}

} // verus!
