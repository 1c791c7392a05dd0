//! Foreign data as the host sees it.

pub mod layout;
