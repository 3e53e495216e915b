//! The edits that turn one article list into another.

use super::article::{ArticleListArticleModel, ArticleListArticleModelView};
use crate::models::{ArticleID, Marked, Read};
use vstd::prelude::*;

verus! {

/// One edit of the displayed article list.
#[derive(Debug, PartialEq)]
pub enum ArticleListChangeSet {
    /// Insert a row for the entry at the position.
    Add(ArticleListArticleModel, usize),
    /// Remove the row of the identity.
    Remove(ArticleID),
    /// Show the row of the identity with the read state.
    UpdateRead(ArticleID, Read),
    /// Show the row of the identity with the marked state.
    UpdateMarked(ArticleID, Marked),
}

/// The mathematical value of an [`ArticleListChangeSet`].
pub enum ArticleListChangeSetView {
    Add(ArticleListArticleModelView, int),
    Remove(Seq<char>),
    UpdateRead(Seq<char>, Read),
    UpdateMarked(Seq<char>, Marked),
}

impl View for ArticleListChangeSet {
    type V = ArticleListChangeSetView;

    open spec fn view(&self) -> ArticleListChangeSetView {
        match self {
            ArticleListChangeSet::Add(model, pos) => ArticleListChangeSetView::Add(
                model@,
                *pos as int,
            ),
            ArticleListChangeSet::Remove(id) => ArticleListChangeSetView::Remove(id@),
            ArticleListChangeSet::UpdateRead(id, read) => ArticleListChangeSetView::UpdateRead(
                id@,
                *read,
            ),
            ArticleListChangeSet::UpdateMarked(id, marked) => ArticleListChangeSetView::UpdateMarked(
                id@,
                *marked,
            ),
        }
    }
}

} // verus!
