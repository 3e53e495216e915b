//! The welcome screen: the choice of a backend.

pub mod welcome_page;
