//! The feed list and its reconciliation.

pub mod category_row;
pub mod feed_list;
pub mod feed_row;
pub mod models;
