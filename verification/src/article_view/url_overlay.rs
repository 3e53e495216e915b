//! The text of the overlay that shows the address under the pointer.

use vstd::prelude::*;
use vstd::string::StringExecFns;
use vstd::string::StrSliceExecFns;

verus! {

/// The longest address that the overlay shows in full, in characters.
pub const MAX_URL_LENGTH: usize = 45;

/// What the overlay shows for an address: the address itself if it has at
/// most [`MAX_URL_LENGTH`] characters, else its first [`MAX_URL_LENGTH`]
/// characters and an ellipsis of three dots.
pub open spec fn overlay_text(uri: Seq<char>) -> Seq<char> {
    if uri.len() > MAX_URL_LENGTH {
        uri.take(MAX_URL_LENGTH as int) + "..."@
    } else {
        uri
    }
}

/// The label text for an address.
pub fn shortened_url(uri: &str) -> (text: String)
    ensures
        text@ == overlay_text(uri@),
{
    let length = uri.unicode_len();
    if length > MAX_URL_LENGTH {
        let head = uri.substring_char(0, MAX_URL_LENGTH);
        let text = String::from_str(head).concat("...");
        assert(uri@.subrange(0, MAX_URL_LENGTH as int) =~= uri@.take(MAX_URL_LENGTH as int));
        text
    } else {
        String::from_str(uri)
    }
}

/// The width that the label asks for, in characters: five less than the
/// text that the overlay shows for the address.
pub fn label_width(uri: &str) -> (width: i32)
    ensures
        width == overlay_text(uri@).len() - 5,
{
    proof {
        reveal_strlit("...");
    }
    let length = uri.unicode_len();
    if length > MAX_URL_LENGTH {
        43
    } else {
        length as i32 - 5
    }
}

} // verus!
