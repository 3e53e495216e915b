//! A category node of the feed list.

use crate::models::{sort_index_of, sort_index_or_last, Category, CategoryID};
use vstd::prelude::*;

verus! {

/// The text of an optional category identity.
pub open spec fn category_of(id: Option<CategoryID>) -> Option<Seq<char>> {
    match id {
        Some(i) => Some(i@),
        None => None,
    }
}

/// A category as the tree shows it. `expanded` is the user's choice and
/// unknown to the backend; `level` is the depth below the root.
#[derive(Debug)]
pub struct FeedListCategoryModel {
    pub id: CategoryID,
    pub parent_id: Option<CategoryID>,
    pub label: String,
    pub sort_index: i32,
    pub item_count: i64,
    pub level: usize,
    pub expanded: bool,
}

/// The mathematical value of a [`FeedListCategoryModel`].
pub struct FeedListCategoryModelView {
    pub id: Seq<char>,
    pub parent_id: Option<Seq<char>>,
    pub label: Seq<char>,
    pub sort_index: i32,
    pub item_count: i64,
    pub level: int,
    pub expanded: bool,
}

impl View for FeedListCategoryModel {
    type V = FeedListCategoryModelView;

    open spec fn view(&self) -> FeedListCategoryModelView {
        FeedListCategoryModelView {
            id: self.id@,
            parent_id: category_of(self.parent_id),
            label: self.label@,
            sort_index: self.sort_index,
            item_count: self.item_count,
            level: self.level as int,
            expanded: self.expanded,
        }
    }
}

impl FeedListCategoryModel {
    /// The node of a category at the given depth. It starts out expanded.
    pub fn new(category: &Category, item_count: i64, level: usize) -> (model: Self)
        ensures
            model@ == (FeedListCategoryModelView {
                id: category.category_id@,
                parent_id: category_of(category.parent_id),
                label: category.label@,
                sort_index: sort_index_of(category.sort_index),
                item_count,
                level: level as int,
                expanded: true,
            }),
    {
        let parent_id = match &category.parent_id {
            Some(id) => Some(id.clone()),
            None => None,
        };
        FeedListCategoryModel {
            id: category.category_id.clone(),
            parent_id,
            label: category.label.clone(),
            sort_index: sort_index_or_last(category.sort_index),
            item_count,
            level,
            expanded: true,
        }
    }
}

impl Clone for FeedListCategoryModel {
    fn clone(&self) -> (model: Self)
        ensures
            model@ == self@,
    {
        let parent_id = match &self.parent_id {
            Some(id) => Some(id.clone()),
            None => None,
        };
        FeedListCategoryModel {
            id: self.id.clone(),
            parent_id,
            label: self.label.clone(),
            sort_index: self.sort_index,
            item_count: self.item_count,
            level: self.level,
            expanded: self.expanded,
        }
    }
}

} // verus!
