//! What the content page asks of the backend: which articles to load for
//! the current selection, how many, and which count a sidebar row shows.

use crate::models::{CategoryID, FeedID, Marked, Read, TagID};
use vstd::prelude::*;

verus! {

/// What the header bar restricts the article list to.
#[derive(Clone, Copy, Debug, PartialEq, Eq, Structural)]
pub enum HeaderSelection {
    All,
    Unread,
    Marked,
}

/// What the sidebar restricts the article list to.
#[derive(Debug)]
pub enum SidebarSelection {
    All,
    Cateogry(CategoryID),
    Feed(FeedID),
    Tag(TagID),
}

impl Clone for SidebarSelection {
    fn clone(&self) -> (selection: Self)
        ensures
            match (*self, selection) {
                (SidebarSelection::All, SidebarSelection::All) => true,
                (SidebarSelection::Cateogry(a), SidebarSelection::Cateogry(b)) => a@ == b@,
                (SidebarSelection::Feed(a), SidebarSelection::Feed(b)) => a@ == b@,
                (SidebarSelection::Tag(a), SidebarSelection::Tag(b)) => a@ == b@,
                _ => false,
            },
    {
        match self {
            SidebarSelection::All => SidebarSelection::All,
            SidebarSelection::Cateogry(id) => SidebarSelection::Cateogry(id.clone()),
            SidebarSelection::Feed(id) => SidebarSelection::Feed(id.clone()),
            SidebarSelection::Tag(id) => SidebarSelection::Tag(id.clone()),
        }
    }
}

/// The count that a sidebar row shows.
#[derive(Clone, Copy, Debug, PartialEq, Eq, Structural)]
pub enum CountKind {
    Unread,
    Marked,
}

/// A request for a page of articles.
#[derive(Debug)]
pub struct ArticleQuery {
    pub limit: i64,
    pub offset: Option<i64>,
    pub unread: Option<Read>,
    pub marked: Option<Marked>,
    pub feed: Option<FeedID>,
    pub category: Option<CategoryID>,
    pub tag: Option<TagID>,
}

/// The mathematical value of an [`ArticleQuery`].
pub struct ArticleQueryView {
    pub limit: i64,
    pub offset: Option<i64>,
    pub unread: Option<Read>,
    pub marked: Option<Marked>,
    pub feed: Option<Seq<char>>,
    pub category: Option<Seq<char>>,
    pub tag: Option<Seq<char>>,
}

impl View for ArticleQuery {
    type V = ArticleQueryView;

    open spec fn view(&self) -> ArticleQueryView {
        ArticleQueryView {
            limit: self.limit,
            offset: self.offset,
            unread: self.unread,
            marked: self.marked,
            feed: match self.feed {
                Some(id) => Some(id@),
                None => None,
            },
            category: match self.category {
                Some(id) => Some(id@),
                None => None,
            },
            tag: match self.tag {
                Some(id) => Some(id@),
                None => None,
            },
        }
    }
}

/// The read state that the header asks for: unread articles only under
/// "unread", any otherwise.
pub open spec fn unread_filter(header: HeaderSelection) -> Option<Read> {
    match header {
        HeaderSelection::Unread => Some(Read::Unread),
        _ => None,
    }
}

/// The marked state that the header asks for: marked articles only under
/// "marked", any otherwise.
pub open spec fn marked_filter(header: HeaderSelection) -> Option<Marked> {
    match header {
        HeaderSelection::Marked => Some(Marked::Marked),
        _ => None,
    }
}

/// The query for a selection: the header decides on the read and marked
/// state, the sidebar on at most one of feed, category and tag.
pub open spec fn query_for(
    header: HeaderSelection,
    sidebar: SidebarSelection,
    limit: i64,
    offset: Option<i64>,
) -> ArticleQueryView {
    ArticleQueryView {
        limit,
        offset,
        unread: unread_filter(header),
        marked: marked_filter(header),
        feed: match sidebar {
            SidebarSelection::Feed(id) => Some(id@),
            _ => None,
        },
        category: match sidebar {
            SidebarSelection::Cateogry(id) => Some(id@),
            _ => None,
        },
        tag: match sidebar {
            SidebarSelection::Tag(id) => Some(id@),
            _ => None,
        },
    }
}

impl ArticleQuery {
    /// The query that loads a page of articles for the selection.
    pub fn new(
        header: HeaderSelection,
        sidebar: &SidebarSelection,
        limit: i64,
        offset: Option<i64>,
    ) -> (query: Self)
        ensures
            query@ == query_for(header, *sidebar, limit, offset),
    {
        let unread = match header {
            HeaderSelection::All | HeaderSelection::Marked => None,
            HeaderSelection::Unread => Some(Read::Unread),
        };
        let marked = match header {
            HeaderSelection::All | HeaderSelection::Unread => None,
            HeaderSelection::Marked => Some(Marked::Marked),
        };
        let feed = match sidebar {
            SidebarSelection::All | SidebarSelection::Cateogry(_) | SidebarSelection::Tag(_) => None,
            SidebarSelection::Feed(id) => Some(id.clone()),
        };
        let category = match sidebar {
            SidebarSelection::All | SidebarSelection::Feed(_) | SidebarSelection::Tag(_) => None,
            SidebarSelection::Cateogry(id) => Some(id.clone()),
        };
        let tag = match sidebar {
            SidebarSelection::All | SidebarSelection::Feed(_) | SidebarSelection::Cateogry(_) => None,
            SidebarSelection::Tag(id) => Some(id.clone()),
        };
        ArticleQuery { limit, offset, unread, marked, feed, category, tag }
    }
}

/// How many articles a refresh loads: one page after a reset of the list;
/// else as many as the list shows now, and at least one page.
pub fn article_limit(reset: bool, loaded: i64, page_size: i64) -> (limit: i64)
    ensures
        limit == if reset || loaded < page_size {
            page_size
        } else {
            loaded
        },
        limit >= page_size,
{
    if reset {
        page_size
    } else if loaded >= page_size {
        loaded
    } else {
        page_size
    }
}

/// Which count the sidebar shows under the header selection: the marked
/// articles under "marked", the unread ones otherwise.
pub fn count_kind(header: HeaderSelection) -> (kind: CountKind)
    ensures
        kind == if header == HeaderSelection::Marked {
            CountKind::Marked
        } else {
            CountKind::Unread
        },
{
    match header {
        HeaderSelection::Marked => CountKind::Marked,
        HeaderSelection::All | HeaderSelection::Unread => CountKind::Unread,
    }
}

/// A query restricts the articles to at most one of feed, category and
/// tag, and to at most one of unread and marked.
pub proof fn lemma_query_is_exclusive(
    header: HeaderSelection,
    sidebar: SidebarSelection,
    limit: i64,
    offset: Option<i64>,
)
    ensures
        ({
            let q = query_for(header, sidebar, limit, offset);
            &&& !(q.feed is Some && q.category is Some)
            &&& !(q.feed is Some && q.tag is Some)
            &&& !(q.category is Some && q.tag is Some)
            &&& !(q.unread is Some && q.marked is Some)
        }),
{
}

} // verus!
