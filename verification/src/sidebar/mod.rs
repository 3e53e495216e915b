//! The sidebar: the tree of categories and feeds.

pub mod feed_list;

pub use feed_list::models::FeedListTree;
