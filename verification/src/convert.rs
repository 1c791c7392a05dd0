//! Conversions between foreign data and host data.

pub mod unbox;
