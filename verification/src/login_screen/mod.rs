//! The login screen.

pub mod password_login;
