//! What the password login page shows for a service.

use vstd::prelude::*;
use vstd::string::StringExecFns;

verus! {

/// Which fields a service asks for besides name and password.
#[derive(Clone, Copy, Debug, PartialEq, Eq, Structural)]
pub struct PasswordLoginFields {
    /// The address of the server.
    pub url: bool,
    /// A second name and password, for the web server.
    pub http_auth: bool,
}

/// The headline for a service of the given name.
pub open spec fn headline_text(name: Seq<char>) -> Seq<char> {
    "Please log into "@ + name + " and enjoy using NewsFlash"@
}

/// The headline of the page for a service of the given name.
pub fn headline(name: &str) -> (text: String)
    ensures
        text@ == headline_text(name@),
{
    String::from_str("Please log into ").concat(name).concat(" and enjoy using NewsFlash")
}

} // verus!
