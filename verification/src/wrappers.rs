//! Handles to foreign data.

pub mod ptr;
