//! What a row of the feed search shows for a result, and the address
//! under which a found feed is subscribed to.

use crate::models::{clone_text, text_of};
use vstd::prelude::*;
use vstd::string::StrSliceExecFns;

verus! {

/// The address that a text parses to, in its normal form; none where the
/// text is no absolute address.
pub uninterp spec fn parsed_url(input: Seq<char>) -> Option<Seq<char>>;

/// `text` with every `from` replaced by `to`.
pub open spec fn replaced(text: Seq<char>, from: char, to: Seq<char>) -> Seq<char>
    decreases text.len(),
{
    if text.len() == 0 {
        Seq::empty()
    } else {
        replaced(text.drop_last(), from, to) + if text.last() == from {
            to
        } else {
            seq![text.last()]
        }
    }
}

/// The address of a feed, parsed and in its normal form. Its view is the
/// text of the address.
#[derive(Debug)]
pub struct Url {
    text: String,
}

impl View for Url {
    type V = Seq<char>;

    closed spec fn view(&self) -> Seq<char> {
        self.text@
    }
}

impl Url {
    pub fn as_str(&self) -> (text: &str)
        ensures
            text@ == self@,
    {
        self.text.as_str()
    }
}

/// The address of an optional [`Url`].
pub open spec fn url_of(url: Option<Url>) -> Option<Seq<char>> {
    match url {
        Some(u) => Some(u@),
        None => None,
    }
}

/// Calls `url::Url::parse` and hands out the serialization of the
/// address that it returns. The contract claims that the outcome is
/// determined by the input alone: it is what [`parsed_url`] names.
#[verifier::external_body]
fn parse_url(input: &str) -> (text: Option<String>)
    ensures
        text_of(text) == parsed_url(input@),
{
    match url::Url::parse(input) {
        Ok(url) => Some(String::from(url)),
        Err(_) => None,
    }
}

/// Calls `str::replace` with a character as the pattern. The contract
/// claims that every occurrence of the character is replaced and nothing
/// else is changed.
#[verifier::external_body]
fn replace_char(text: &str, from: char, to: &str) -> (result: String)
    ensures
        result@ == replaced(text@, from, to@),
{
    text.replace(from, to)
}

/// The number of characters in front of the address in an identifier of
/// the search service: the word `feed` and a slash.
pub const FEED_PREFIX_LENGTH: usize = 5;

/// What is left of an identifier without its first
/// [`FEED_PREFIX_LENGTH`] characters.
pub open spec fn without_prefix(id: Seq<char>) -> Seq<char> {
    if id.len() > FEED_PREFIX_LENGTH {
        id.skip(FEED_PREFIX_LENGTH as int)
    } else {
        Seq::empty()
    }
}

/// The text behind the prefix of an identifier of the search service.
pub fn feedly_id_to_url_text(feedly_id: &str) -> (text: &str)
    ensures
        text@ == without_prefix(feedly_id@),
{
    let length = feedly_id.unicode_len();
    if length > FEED_PREFIX_LENGTH {
        let text = feedly_id.substring_char(FEED_PREFIX_LENGTH, length);
        assert(feedly_id@.subrange(FEED_PREFIX_LENGTH as int, length as int) =~= feedly_id@.skip(
            FEED_PREFIX_LENGTH as int,
        ));
        text
    } else {
        let text = feedly_id.substring_char(0, 0);
        assert(feedly_id@.subrange(0, 0) =~= Seq::empty());
        text
    }
}

/// The address of the feed that an identifier of the search service
/// names: what its text behind the prefix parses to, if it is an address.
pub fn feedly_id_to_rss_url(feedly_id: &str) -> (url: Option<Url>)
    ensures
        url_of(url) == parsed_url(without_prefix(feedly_id@)),
{
    match parse_url(feedly_id_to_url_text(feedly_id)) {
        Some(text) => Some(Url { text }),
        None => None,
    }
}

/// A description on one line: line feeds, carriage returns and
/// underscores become spaces.
pub open spec fn on_one_line(description: Seq<char>) -> Seq<char> {
    replaced(replaced(replaced(description, '\n', " "@), '\r', " "@), '_', " "@)
}

/// What the row shows as the description of a result.
pub open spec fn shown_description(description: Option<Seq<char>>) -> Seq<char> {
    match description {
        Some(text) => on_one_line(text),
        None => "No description"@,
    }
}

/// The description that the row shows: the result's own on one line, or a
/// note that there is none.
pub fn display_description(description: &Option<String>) -> (text: String)
    ensures
        text@ == shown_description(text_of(*description)),
{
    match description {
        Some(description) => {
            let text = replace_char(description.as_str(), '\n', " ");
            let text = replace_char(text.as_str(), '\r', " ");
            replace_char(text.as_str(), '_', " ")
        },
        None => "No description".to_owned(),
    }
}

/// The first of the three that is there.
pub open spec fn first_of(
    first: Option<Seq<char>>,
    second: Option<Seq<char>>,
    third: Option<Seq<char>>,
) -> Option<Seq<char>> {
    if first is Some {
        first
    } else if second is Some {
        second
    } else {
        third
    }
}

/// The address of the picture for a result: its visual if it has one,
/// else its logo, else its icon.
pub fn icon_url(visual_url: &Option<String>, logo: &Option<String>, icon: &Option<String>) -> (url:
    Option<String>)
    ensures
        text_of(url) == first_of(text_of(*visual_url), text_of(*logo), text_of(*icon)),
{
    if visual_url.is_some() {
        clone_text(visual_url)
    } else if logo.is_some() {
        clone_text(logo)
    } else {
        clone_text(icon)
    }
}

/// Replacing a character that does not occur changes nothing.
pub proof fn lemma_replaced_absent(text: Seq<char>, from: char, to: Seq<char>)
    requires
        !text.contains(from),
    ensures
        replaced(text, from, to) == text,
    decreases text.len(),
{
    if text.len() > 0 {
        let rest = text.drop_last();
        assert forall|k: int| 0 <= k < rest.len() implies rest[k] != from by {
            assert(text[k] == rest[k]);
            assert(text.contains(text[k]));
        }
        if rest.contains(from) {
            let k = choose|k: int| 0 <= k < rest.len() && rest[k] == from;
            assert(false);
        }
        lemma_replaced_absent(rest, from, to);
        assert(text.contains(text.last()));
        assert(rest + seq![text.last()] =~= text);
    } else {
        assert(text =~= Seq::empty());
    }
}

/// Replacing a character by one other character keeps the length, and
/// the character no longer occurs.
pub proof fn lemma_replaced_by_one(text: Seq<char>, from: char, to: char)
    requires
        from != to,
    ensures
        replaced(text, from, seq![to]).len() == text.len(),
        !replaced(text, from, seq![to]).contains(from),
        forall|k: int|
            0 <= k < text.len() ==> #[trigger] replaced(text, from, seq![to])[k] == if text[k]
                == from {
                to
            } else {
                text[k]
            },
    decreases text.len(),
{
    if text.len() > 0 {
        let rest = text.drop_last();
        lemma_replaced_by_one(rest, from, to);
        let head = replaced(rest, from, seq![to]);
        let whole = replaced(text, from, seq![to]);
        assert forall|k: int| 0 <= k < text.len() implies #[trigger] whole[k] == if text[k] == from {
            to
        } else {
            text[k]
        } by {
            if k < rest.len() {
                assert(whole[k] == head[k]);
                assert(rest[k] == text[k]);
            }
        }
        if whole.contains(from) {
            let k = choose|k: int| 0 <= k < whole.len() && whole[k] == from;
            assert(whole[k] == if text[k] == from { to } else { text[k] });
            assert(false);
        }
    }
}

} // verus!
