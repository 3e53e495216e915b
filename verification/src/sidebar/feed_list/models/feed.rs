//! A feed node of the feed list.

use crate::models::{
    clone_icon, icon_of, sort_index_of, sort_index_or_last, CategoryID, FavIcon, FavIconView, Feed,
    FeedID, FeedMapping,
};
use vstd::prelude::*;

verus! {

/// A feed as the tree shows it, below its parent category.
#[derive(Debug)]
pub struct FeedListFeedModel {
    pub id: FeedID,
    pub parent_id: CategoryID,
    pub label: String,
    pub sort_index: i32,
    pub icon: Option<FavIcon>,
    pub item_count: i64,
    pub level: usize,
}

/// The mathematical value of a [`FeedListFeedModel`].
pub struct FeedListFeedModelView {
    pub id: Seq<char>,
    pub parent_id: Seq<char>,
    pub label: Seq<char>,
    pub sort_index: i32,
    pub icon: Option<FavIconView>,
    pub item_count: i64,
    pub level: int,
}

impl View for FeedListFeedModel {
    type V = FeedListFeedModelView;

    open spec fn view(&self) -> FeedListFeedModelView {
        FeedListFeedModelView {
            id: self.id@,
            parent_id: self.parent_id@,
            label: self.label@,
            sort_index: self.sort_index,
            icon: icon_of(self.icon),
            item_count: self.item_count,
            level: self.level as int,
        }
    }
}

impl FeedListFeedModel {
    /// The node of a feed at the given depth, below the category that the
    /// mapping names.
    pub fn new(
        feed: &Feed,
        mapping: &FeedMapping,
        item_count: i64,
        level: usize,
        icon: Option<FavIcon>,
    ) -> (model: Self)
        ensures
            model@ == (FeedListFeedModelView {
                id: feed.feed_id@,
                parent_id: mapping.category_id@,
                label: feed.label@,
                sort_index: sort_index_of(feed.sort_index),
                icon: icon_of(icon),
                item_count,
                level: level as int,
            }),
    {
        FeedListFeedModel {
            id: feed.feed_id.clone(),
            parent_id: mapping.category_id.clone(),
            label: feed.label.clone(),
            sort_index: sort_index_or_last(feed.sort_index),
            icon,
            item_count,
            level,
        }
    }
}

impl Clone for FeedListFeedModel {
    fn clone(&self) -> (model: Self)
        ensures
            model@ == self@,
    {
        FeedListFeedModel {
            id: self.id.clone(),
            parent_id: self.parent_id.clone(),
            label: self.label.clone(),
            sort_index: self.sort_index,
            icon: clone_icon(&self.icon),
            item_count: self.item_count,
            level: self.level,
        }
    }
}

} // verus!
