//! The discovery of feeds.

pub mod search_item_row;
