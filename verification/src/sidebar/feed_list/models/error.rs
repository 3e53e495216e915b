//! Errors of the feed list tree.

use vstd::prelude::*;

verus! {

/// What went wrong in an operation on the tree.
#[derive(Clone, Copy, Debug, PartialEq, Eq, Structural)]
pub enum FeedListModelErrorKind {
    /// The tree already holds a category of that identity.
    DuplicateCategory,
    /// The tree already holds a feed of that identity.
    DuplicateFeed,
    /// The declared parent category is not in the tree.
    DanglingParent,
}

/// An error of the tree, carrying its kind.
#[derive(Clone, Copy, Debug, PartialEq, Eq, Structural)]
pub struct FeedListModelError {
    pub kind: FeedListModelErrorKind,
}

impl FeedListModelError {
    pub fn new(kind: FeedListModelErrorKind) -> (error: Self)
        ensures
            error.kind == kind,
    {
        FeedListModelError { kind }
    }

    pub fn kind(&self) -> (kind: FeedListModelErrorKind)
        ensures
            kind == self.kind,
    {
        self.kind
    }

    /// A line of text for the user or the log.
    pub fn message(&self) -> (text: String)
        ensures
            text@ == match self.kind {
                FeedListModelErrorKind::DuplicateCategory => "Category already exists in the tree"@,
                FeedListModelErrorKind::DuplicateFeed => "Feed already exists in the tree"@,
                FeedListModelErrorKind::DanglingParent => "Parent category is not in the tree"@,
            },
    {
        match self.kind {
            FeedListModelErrorKind::DuplicateCategory => {
                "Category already exists in the tree".to_owned()
            },
            FeedListModelErrorKind::DuplicateFeed => "Feed already exists in the tree".to_owned(),
            FeedListModelErrorKind::DanglingParent => {
                "Parent category is not in the tree".to_owned()
            },
        }
    }
}

} // verus!
