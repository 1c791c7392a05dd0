//! Rooting and call bridging for values that live in a garbage-collected foreign runtime.
//!
//! The foreign collector may reclaim any object that no root slot names. The library keeps
//! track of which foreign values are protected and for how long, and of what a call into the
//! runtime is handed and what its outcome means. It makes no call into the runtime itself:
//! the embedding program does, at the points that the library names.
//!
//! - [`memory`] holds the root stack, the scopes that own ranges of it, the targets that say
//!   where a new value is rooted, and the ledger of arrays that the host has borrowed.
//! - [`wrappers`] holds the handle to a foreign value, and access to the fields of a value.
//! - [`call`] marshals calls and turns what comes back into a result.
//! - [`convert`] and [`data`] hold the traits of host types that stand for foreign data.

pub mod call;
pub mod convert;
pub mod data;
pub mod error;
pub mod memory;
pub mod wrappers;
