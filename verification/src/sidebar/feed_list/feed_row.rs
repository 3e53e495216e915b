//! What a row of the feed list shows for its node.

use crate::models::{clone_bytes, text_of, FavIcon, FeedID};
use vstd::prelude::*;
use vstd::string::StringExecFns;

verus! {

/// The JSON text of a string value; none where the value cannot be
/// written as JSON.
pub uninterp spec fn json_of_text(text: Seq<char>) -> Option<Seq<char>>;

/// Calls `serde_json::to_string` on a string value. The contract claims
/// that the outcome is determined by the value alone, both whether a text
/// comes back and which: it is what [`json_of_text`] names. It does not
/// claim that the call succeeds.
#[verifier::external_body]
fn to_json(text: &str) -> (json: Option<String>)
    ensures
        text_of(json) == json_of_text(text@),
{
    match serde_json::to_string(text) {
        Ok(json) => Some(json),
        Err(_) => None,
    }
}

/// How far a row moves to the right for each level of depth.
pub const LEVEL_INDENT: i32 = 24;

/// The left margin of a row at the given depth: [`LEVEL_INDENT`] for each
/// level, and no more than an `i32` holds.
pub fn level_margin(level: usize) -> (margin: i32)
    ensures
        margin == if level * LEVEL_INDENT <= i32::MAX {
            level * LEVEL_INDENT
        } else {
            i32::MAX as int
        },
{
    if level <= 89_478_485 {
        level as i32 * LEVEL_INDENT
    } else {
        i32::MAX
    }
}

/// The character of a decimal digit.
pub open spec fn digit_char(digit: int) -> char {
    if digit == 0 {
        '0'
    } else if digit == 1 {
        '1'
    } else if digit == 2 {
        '2'
    } else if digit == 3 {
        '3'
    } else if digit == 4 {
        '4'
    } else if digit == 5 {
        '5'
    } else if digit == 6 {
        '6'
    } else if digit == 7 {
        '7'
    } else if digit == 8 {
        '8'
    } else {
        '9'
    }
}

/// The decimal digits of a number that is not negative, without leading
/// zeros.
pub open spec fn decimal(n: int) -> Seq<char>
    decreases n,
{
    if n < 10 {
        seq![digit_char(n)]
    } else {
        decimal(n / 10).push(digit_char(n % 10))
    }
}

/// The text of a decimal digit.
fn digit_text(digit: u64) -> (text: &'static str)
    requires
        digit < 10,
    ensures
        text@ == seq![digit_char(digit as int)],
{
    proof {
        reveal_strlit("0");
        reveal_strlit("1");
        reveal_strlit("2");
        reveal_strlit("3");
        reveal_strlit("4");
        reveal_strlit("5");
        reveal_strlit("6");
        reveal_strlit("7");
        reveal_strlit("8");
        reveal_strlit("9");
    }
    let text = if digit == 0 {
        "0"
    } else if digit == 1 {
        "1"
    } else if digit == 2 {
        "2"
    } else if digit == 3 {
        "3"
    } else if digit == 4 {
        "4"
    } else if digit == 5 {
        "5"
    } else if digit == 6 {
        "6"
    } else if digit == 7 {
        "7"
    } else if digit == 8 {
        "8"
    } else {
        "9"
    };
    assert(text@ =~= seq![digit_char(digit as int)]);
    text
}

/// A number in decimal digits.
pub fn decimal_text(n: u64) -> (text: String)
    ensures
        text@ == decimal(n as int),
{
    let mut text = String::from_str(digit_text(n % 10));
    let mut rest = n / 10;
    assert(n >= 10 ==> decimal(n as int) =~= decimal(rest as int) + text@);
    while rest > 0
        invariant
            rest > 0 ==> decimal(n as int) == decimal(rest as int) + text@,
            rest == 0 ==> decimal(n as int) == text@,
        decreases rest,
    {
        let digit = digit_text(rest % 10);
        let ghost tail = text@;
        text = String::from_str(digit).concat(text.as_str());
        proof {
            if rest >= 10 {
                assert(decimal(rest as int) + tail =~= decimal(rest as int / 10) + text@);
            }
        }
        rest = rest / 10;
    }
    text
}

/// What the badge of a row shows for a count: the number, and nothing
/// where the count is zero or less.
pub open spec fn badge(count: i64) -> Option<Seq<char>> {
    if count > 0 {
        Some(decimal(count as int))
    } else {
        None
    }
}

/// The text of the badge for a count; none where the badge is hidden.
pub fn item_count_label(count: i64) -> (label: Option<String>)
    ensures
        text_of(label) == badge(count),
{
    if count > 0 {
        Some(decimal_text(count as u64))
    } else {
        None
    }
}

/// What a dragged feed row carries: the word `FeedID`, a space, and the
/// identity as JSON.
pub open spec fn drag_payload(json: Seq<char>) -> Seq<char> {
    "FeedID "@ + json
}

/// The text that a dragged row carries, given the JSON of its identity.
pub fn drag_text(json: &str) -> (data: String)
    ensures
        data@ == drag_payload(json@),
{
    String::from_str("FeedID ").concat(json)
}

/// What a dragged row carries, given what writing its identity as JSON
/// came to: the payload of the JSON text, and nothing where there is no
/// such text.
pub open spec fn dragged(json: Option<Seq<char>>) -> Option<Seq<char>> {
    match json {
        Some(j) => Some(drag_payload(j)),
        None => None,
    }
}

/// The text that a dragged row of the feed carries: the payload of the
/// identity's JSON text; none exactly where the identity cannot be
/// written as JSON.
pub fn drag_data(id: &FeedID) -> (data: Option<String>)
    ensures
        text_of(data) == dragged(json_of_text(id@)),
{
    match to_json(id.as_str()) {
        Some(json) => Some(drag_text(json.as_str())),
        None => None,
    }
}

/// A picture as rows of pixels.
#[derive(Debug)]
pub struct PixelIcon {
    pub data: Vec<u8>,
    pub width: i32,
    pub height: i32,
    pub has_alpha: bool,
    pub bits_per_sample: i32,
    pub row_stride: i32,
}

/// The side of a feed's icon, in pixels.
pub const FAVICON_SIZE: i32 = 16;

/// The bits of one colour of a pixel.
pub const FAVICON_BITS_PER_SAMPLE: i32 = 8;

/// The bytes of one row of a feed's icon.
pub const FAVICON_ROW_STRIDE: i32 = 512;

/// The picture that a row shows for a feed: the bytes of its icon as
/// [`FAVICON_SIZE`] rows of as many pixels with alpha; none where the
/// feed has no icon or the icon no bytes.
pub fn favicon_pixels(icon: &Option<FavIcon>) -> (pixels: Option<PixelIcon>)
    ensures
        match pixels {
            Some(p) => {
                &&& *icon matches Some(i)
                &&& i.data matches Some(d)
                &&& p.data@ == d@
                &&& p.width == FAVICON_SIZE
                &&& p.height == FAVICON_SIZE
                &&& p.has_alpha
                &&& p.bits_per_sample == FAVICON_BITS_PER_SAMPLE
                &&& p.row_stride == FAVICON_ROW_STRIDE
            },
            None => !(*icon matches Some(i) && i.data is Some),
        },
{
    match icon {
        Some(icon) => match &icon.data {
            Some(data) => Some(
                PixelIcon {
                    data: clone_bytes(data),
                    width: FAVICON_SIZE,
                    height: FAVICON_SIZE,
                    has_alpha: true,
                    bits_per_sample: FAVICON_BITS_PER_SAMPLE,
                    row_stride: FAVICON_ROW_STRIDE,
                },
            ),
            None => None,
        },
        None => None,
    }
}

} // verus!
