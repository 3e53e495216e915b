//! The flat list of articles and its reconciliation.

pub mod models;

pub use models::ArticleListArticleModel;
pub use models::ArticleListChangeSet;
pub use models::ArticleListModel;
