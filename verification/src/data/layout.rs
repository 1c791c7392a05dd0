//! Host types whose layout matches foreign data.

pub mod inline_layout;
pub mod valid_layout;
