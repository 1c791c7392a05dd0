//! Root slots, scopes and rooting targets.

pub mod discipline;
pub mod ledger;
pub mod scope;
pub mod stack;
pub mod tag;
pub mod target;
