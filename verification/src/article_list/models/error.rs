//! Errors of the article list model.

use vstd::prelude::*;

verus! {

/// What went wrong in an operation on the list model.
#[derive(Clone, Copy, Debug, PartialEq, Eq, Structural)]
pub enum ArticleListModelErrorKind {
    /// The list already holds an article of that identity.
    AlreadyContainsArticle,
}

/// An error of the list model, carrying its kind.
#[derive(Clone, Copy, Debug, PartialEq, Eq, Structural)]
pub struct ArticleListModelError {
    pub kind: ArticleListModelErrorKind,
}

impl ArticleListModelError {
    pub fn new(kind: ArticleListModelErrorKind) -> (error: Self)
        ensures
            error.kind == kind,
    {
        ArticleListModelError { kind }
    }

    pub fn kind(&self) -> (kind: ArticleListModelErrorKind)
        ensures
            kind == self.kind,
    {
        self.kind
    }

    /// A line of text for the user or the log.
    pub fn message(&self) -> (text: String)
        ensures
            self.kind == ArticleListModelErrorKind::AlreadyContainsArticle ==> text@
                == "Article already exists in the list"@,
    {
        match self.kind {
            ArticleListModelErrorKind::AlreadyContainsArticle => {
                "Article already exists in the list".to_owned()
            },
        }
    }
}

} // verus!
