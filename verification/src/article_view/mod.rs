//! The article view.

pub mod models;
pub mod url_overlay;
