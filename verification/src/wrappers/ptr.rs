//! Handles that hold the address of a foreign object.

pub mod field;
pub mod produce;
pub mod value;
