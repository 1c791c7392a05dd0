//! Checking that a host type has the layout of a foreign type.

use crate::wrappers::ptr::value::Value;
use vstd::prelude::*;

verus! {

/// What the runtime tells about a foreign type, as far as layouts depend on it.
#[derive(Clone, Copy, Debug, PartialEq, Eq, Structural)]
pub enum TypeKind {
    /// A concrete type. Instances are stored inline in a containing value when `inline_alloc`
    /// holds, and behind a pointer otherwise.
    DataType { inline_alloc: bool },
    /// A type with free type parameters.
    UnionAll,
    /// A union of types. A bits union is stored inline, with a flag that names the variant.
    Union { bits_union: bool },
    /// Anything else: not a type.
    Other,
}

/// Implemented by host types that can stand for the data of some foreign types.
pub trait ValidLayout {
    /// Whether the implementor has the layout of data of the type `ty`.
    spec fn valid_layout_spec(ty: TypeKind) -> bool;

    /// Whether the implementor has the layout of data of the type `ty`.
    fn valid_layout(ty: TypeKind) -> (valid: bool)
        ensures
            valid == Self::valid_layout_spec(ty),
    ;
}

impl ValidLayout for Value {
    /// A handle stands for data that is stored behind a pointer: instances of a concrete type
    /// that is not stored inline, of a type with free parameters, or of a union that is not
    /// a bits union.
    open spec fn valid_layout_spec(ty: TypeKind) -> bool {
        match ty {
            TypeKind::DataType { inline_alloc } => !inline_alloc,
            TypeKind::UnionAll => true,
            TypeKind::Union { bits_union } => !bits_union,
            TypeKind::Other => false,
        }
    }

    fn valid_layout(ty: TypeKind) -> (valid: bool) {
        match ty {
            TypeKind::DataType { inline_alloc } => !inline_alloc,
            TypeKind::UnionAll => true,
            TypeKind::Union { bits_union } => !bits_union,
            TypeKind::Other => false,
        }
    }
}

} // verus!
