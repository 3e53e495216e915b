//! What choosing a backend on the welcome page leads to.

use vstd::prelude::*;

verus! {

/// How a backend wants its user to log in.
#[derive(Clone, Copy, Debug, PartialEq, Eq, Structural)]
pub enum LoginKind {
    /// In a browser, at the service.
    OAuth,
    /// With a name and a password.
    Password,
    /// Not at all.
    Direct,
}

/// The page that the welcome page hands over to.
#[derive(Clone, Copy, Debug, PartialEq, Eq, Structural)]
pub enum LoginPage {
    OAuth,
    Password,
}

/// The login page for a backend; none for a backend without login.
pub fn login_page(kind: LoginKind) -> (page: Option<LoginPage>)
    ensures
        page == match kind {
            LoginKind::OAuth => Some(LoginPage::OAuth),
            LoginKind::Password => Some(LoginPage::Password),
            LoginKind::Direct => None::<LoginPage>,
        },
{
    match kind {
        LoginKind::OAuth => Some(LoginPage::OAuth),
        LoginKind::Password => Some(LoginPage::Password),
        LoginKind::Direct => None,
    }
}

} // verus!
