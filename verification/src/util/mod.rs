//! Small helpers.

pub mod gtk_util;
