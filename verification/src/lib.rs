//! Snapshot reconciliation for a feed reader.
//!
//! The article list and the tree of categories and feeds are value
//! snapshots: each refresh builds a new one, and the difference to the
//! one on display is an ordered sequence of edits that the view applies
//! to its rows. What the view alone knows, such as which categories the
//! user has collapsed, is carried over from the old snapshot.
//!
//! * [`article_list`]: the flat list of articles, its stable sort by
//!   date, and its difference.
//! * [`sidebar`]: the tree of categories and feeds in display order, its
//!   difference, and what collapsing a category hides.
//! * [`models`]: identities and the records that the backend supplies.
//! * [`responsive`], [`content_page`], [`article_view`], [`discover`],
//!   [`login_screen`], [`welcome_screen`], [`util`]: the decisions of the
//!   views, free of widgets.

pub mod article_list;
pub mod article_view;
pub mod content_page;
pub mod discover;
pub mod login_screen;
pub mod models;
pub mod responsive;
pub mod sidebar;
pub mod util;
pub mod welcome_screen;
