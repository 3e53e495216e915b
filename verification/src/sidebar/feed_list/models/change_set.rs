//! The edits that turn one feed list into another.

use super::category::{FeedListCategoryModel, FeedListCategoryModelView};
use super::feed::{FeedListFeedModel, FeedListFeedModelView};
use crate::models::{CategoryID, FeedID};
use vstd::prelude::*;

verus! {

/// One edit of the displayed feed list.
#[derive(Debug)]
pub enum FeedListChangeSet {
    /// Remove the row of the feed.
    RemoveFeed(FeedID),
    /// Remove the row of the category.
    RemoveCategory(CategoryID),
    /// Insert a row for the feed at the position, shown or hidden.
    AddFeed(FeedListFeedModel, usize, bool),
    /// Insert a row for the category at the position, shown or hidden.
    AddCategory(FeedListCategoryModel, usize, bool),
    /// Show the feed's row with the count.
    FeedUpdateItemCount(FeedID, i64),
    /// Show the category's row with the count.
    CategoryUpdateItemCount(CategoryID, i64),
    /// Show the feed's row with the label.
    FeedUpdateLabel(FeedID, String),
    /// Show the category's row with the label.
    CategoryUpdateLabel(CategoryID, String),
}

/// The mathematical value of a [`FeedListChangeSet`].
pub enum FeedListChangeSetView {
    RemoveFeed(Seq<char>),
    RemoveCategory(Seq<char>),
    AddFeed(FeedListFeedModelView, int, bool),
    AddCategory(FeedListCategoryModelView, int, bool),
    FeedUpdateItemCount(Seq<char>, i64),
    CategoryUpdateItemCount(Seq<char>, i64),
    FeedUpdateLabel(Seq<char>, Seq<char>),
    CategoryUpdateLabel(Seq<char>, Seq<char>),
}

impl View for FeedListChangeSet {
    type V = FeedListChangeSetView;

    open spec fn view(&self) -> FeedListChangeSetView {
        match self {
            FeedListChangeSet::RemoveFeed(id) => FeedListChangeSetView::RemoveFeed(id@),
            FeedListChangeSet::RemoveCategory(id) => FeedListChangeSetView::RemoveCategory(id@),
            FeedListChangeSet::AddFeed(model, pos, visible) => FeedListChangeSetView::AddFeed(
                model@,
                *pos as int,
                *visible,
            ),
            FeedListChangeSet::AddCategory(model, pos, visible) => FeedListChangeSetView::AddCategory(
                model@,
                *pos as int,
                *visible,
            ),
            FeedListChangeSet::FeedUpdateItemCount(id, count) => {
                FeedListChangeSetView::FeedUpdateItemCount(id@, *count)
            },
            FeedListChangeSet::CategoryUpdateItemCount(id, count) => {
                FeedListChangeSetView::CategoryUpdateItemCount(id@, *count)
            },
            FeedListChangeSet::FeedUpdateLabel(id, label) => FeedListChangeSetView::FeedUpdateLabel(
                id@,
                label@,
            ),
            FeedListChangeSet::CategoryUpdateLabel(id, label) => {
                FeedListChangeSetView::CategoryUpdateLabel(id@, label@)
            },
        }
    }
}

} // verus!
