//! A node of the feed list: a category or a feed.

use super::category::{FeedListCategoryModel, FeedListCategoryModelView};
use super::feed::{FeedListFeedModel, FeedListFeedModelView};
use vstd::prelude::*;

verus! {

/// A node of the tree.
#[derive(Debug)]
pub enum FeedListItem {
    Category(FeedListCategoryModel),
    Feed(FeedListFeedModel),
}

/// The identity of a node: categories and feeds are named apart.
pub enum NodeKey {
    Category(Seq<char>),
    Feed(Seq<char>),
}

/// The mathematical value of a [`FeedListItem`].
pub enum FeedListItemView {
    Category(FeedListCategoryModelView),
    Feed(FeedListFeedModelView),
}

impl FeedListItemView {
    /// The node's identity.
    pub open spec fn key(self) -> NodeKey {
        match self {
            FeedListItemView::Category(c) => NodeKey::Category(c.id),
            FeedListItemView::Feed(f) => NodeKey::Feed(f.id),
        }
    }

    /// The text of the node's identity.
    pub open spec fn id(self) -> Seq<char> {
        match self {
            FeedListItemView::Category(c) => c.id,
            FeedListItemView::Feed(f) => f.id,
        }
    }

    /// The node's depth below the root.
    pub open spec fn level(self) -> int {
        match self {
            FeedListItemView::Category(c) => c.level,
            FeedListItemView::Feed(f) => f.level,
        }
    }

    /// The node's place among its siblings.
    pub open spec fn sort_index(self) -> i32 {
        match self {
            FeedListItemView::Category(c) => c.sort_index,
            FeedListItemView::Feed(f) => f.sort_index,
        }
    }

    /// The category that the node declares as its parent.
    pub open spec fn parent(self) -> Option<Seq<char>> {
        match self {
            FeedListItemView::Category(c) => c.parent_id,
            FeedListItemView::Feed(f) => Some(f.parent_id),
        }
    }

    /// The node's count of items.
    pub open spec fn item_count(self) -> i64 {
        match self {
            FeedListItemView::Category(c) => c.item_count,
            FeedListItemView::Feed(f) => f.item_count,
        }
    }

    /// The node's label.
    pub open spec fn label(self) -> Seq<char> {
        match self {
            FeedListItemView::Category(c) => c.label,
            FeedListItemView::Feed(f) => f.label,
        }
    }

    /// Whether the node lets its children show: a category does when it is
    /// expanded; a feed has none to hide.
    pub open spec fn is_open(self) -> bool {
        match self {
            FeedListItemView::Category(c) => c.expanded,
            FeedListItemView::Feed(_) => true,
        }
    }
}

impl View for FeedListItem {
    type V = FeedListItemView;

    open spec fn view(&self) -> FeedListItemView {
        match self {
            FeedListItem::Category(c) => FeedListItemView::Category(c@),
            FeedListItem::Feed(f) => FeedListItemView::Feed(f@),
        }
    }
}

impl FeedListItem {
    pub fn level(&self) -> (level: usize)
        ensures
            level == self@.level(),
    {
        match self {
            FeedListItem::Category(c) => c.level,
            FeedListItem::Feed(f) => f.level,
        }
    }

    pub fn sort_index(&self) -> (sort_index: i32)
        ensures
            sort_index == self@.sort_index(),
    {
        match self {
            FeedListItem::Category(c) => c.sort_index,
            FeedListItem::Feed(f) => f.sort_index,
        }
    }

    pub fn item_count(&self) -> (item_count: i64)
        ensures
            item_count == self@.item_count(),
    {
        match self {
            FeedListItem::Category(c) => c.item_count,
            FeedListItem::Feed(f) => f.item_count,
        }
    }

    pub fn label(&self) -> (label: &str)
        ensures
            label@ == self@.label(),
    {
        match self {
            FeedListItem::Category(c) => c.label.as_str(),
            FeedListItem::Feed(f) => f.label.as_str(),
        }
    }
}

impl Clone for FeedListItem {
    fn clone(&self) -> (item: Self)
        ensures
            item@ == self@,
    {
        match self {
            FeedListItem::Category(c) => FeedListItem::Category(c.clone()),
            FeedListItem::Feed(f) => FeedListItem::Feed(f.clone()),
        }
    }
}

} // verus!
