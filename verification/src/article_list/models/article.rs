//! One entry of the article list.

use crate::models::{
    clone_icon, clone_text, icon_of, same_icon, same_text, text_of, Article, ArticleID, FavIcon,
    FavIconView, FeedID, Marked, Read,
};
use vstd::prelude::*;
use vstd::std_specs::cmp::PartialEqSpecImpl;

verus! {

/// An article as the list shows it: its identity, what is displayed of it,
/// and its read and marked state.
#[derive(Debug)]
pub struct ArticleListArticleModel {
    pub id: ArticleID,
    pub title: Option<String>,
    pub feed_id: FeedID,
    pub feed_title: String,
    pub date: i64,
    pub unread: Read,
    pub marked: Marked,
    pub favicon: Option<FavIcon>,
}

/// The mathematical value of an [`ArticleListArticleModel`].
pub struct ArticleListArticleModelView {
    pub id: Seq<char>,
    pub title: Option<Seq<char>>,
    pub feed_id: Seq<char>,
    pub feed_title: Seq<char>,
    pub date: i64,
    pub unread: Read,
    pub marked: Marked,
    pub favicon: Option<FavIconView>,
}

impl ArticleListArticleModelView {
    /// Content equality: the same identity and the same displayed fields.
    /// The read and marked state take no part in it.
    pub open spec fn same_content(self, other: Self) -> bool {
        &&& self.id == other.id
        &&& self.title == other.title
        &&& self.feed_id == other.feed_id
        &&& self.feed_title == other.feed_title
        &&& self.date == other.date
        &&& self.favicon == other.favicon
    }

    /// This entry with the given read state.
    pub open spec fn with_unread(self, unread: Read) -> Self {
        ArticleListArticleModelView { unread, ..self }
    }

    /// This entry with the given marked state.
    pub open spec fn with_marked(self, marked: Marked) -> Self {
        ArticleListArticleModelView { marked, ..self }
    }
}

impl View for ArticleListArticleModel {
    type V = ArticleListArticleModelView;

    open spec fn view(&self) -> ArticleListArticleModelView {
        ArticleListArticleModelView {
            id: self.id@,
            title: text_of(self.title),
            feed_id: self.feed_id@,
            feed_title: self.feed_title@,
            date: self.date,
            unread: self.unread,
            marked: self.marked,
            favicon: icon_of(self.favicon),
        }
    }
}

/// The value of the list entry for an article, shown with the name and
/// the icon of its feed.
pub open spec fn entry_of(
    article: Article,
    feed_title: Seq<char>,
    favicon: Option<FavIconView>,
) -> ArticleListArticleModelView {
    ArticleListArticleModelView {
        id: article.article_id@,
        title: text_of(article.title),
        feed_id: article.feed_id@,
        feed_title,
        date: article.date,
        unread: article.unread,
        marked: article.marked,
        favicon,
    }
}

impl ArticleListArticleModel {
    /// The list entry of an article, shown with the name and the icon of
    /// its feed.
    pub fn new(article: Article, feed_title: String, favicon: Option<FavIcon>) -> (model: Self)
        ensures
            model@ == entry_of(article, feed_title@, icon_of(favicon)),
    {
        ArticleListArticleModel {
            id: article.article_id,
            title: article.title,
            feed_id: article.feed_id,
            feed_title,
            date: article.date,
            unread: article.unread,
            marked: article.marked,
            favicon,
        }
    }
}

impl Clone for ArticleListArticleModel {
    fn clone(&self) -> (model: Self)
        ensures
            model@ == self@,
    {
        ArticleListArticleModel {
            id: self.id.clone(),
            title: clone_text(&self.title),
            feed_id: self.feed_id.clone(),
            feed_title: self.feed_title.clone(),
            date: self.date,
            unread: self.unread,
            marked: self.marked,
            favicon: clone_icon(&self.favicon),
        }
    }
}

/// `==` on entries is content equality.
impl PartialEq for ArticleListArticleModel {
    fn eq(&self, other: &Self) -> (equal: bool) {
        self.id == other.id && same_text(&self.title, &other.title) && self.feed_id
            == other.feed_id && self.feed_title == other.feed_title && self.date == other.date
            && same_icon(&self.favicon, &other.favicon)
    }
}

impl PartialEqSpecImpl for ArticleListArticleModel {
    open spec fn obeys_eq_spec() -> bool {
        true
    }

    open spec fn eq_spec(&self, other: &Self) -> bool {
        self@.same_content(other@)
    }
}

} // verus!
