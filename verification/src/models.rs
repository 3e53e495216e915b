//! Entity values as supplied by the backend: identities, article state,
//! and the raw article, category and feed records that the list and tree
//! models are built from.

use vstd::prelude::*;
use vstd::std_specs::cmp::PartialEqSpecImpl;

verus! {

/// Identity of an article. Its view is the identifier's text.
#[derive(Debug, Hash)]
pub struct ArticleID {
    raw: String,
}

impl View for ArticleID {
    type V = Seq<char>;

    closed spec fn view(&self) -> Seq<char> {
        self.raw@
    }
}

impl ArticleID {
    pub fn new(raw: &str) -> (id: Self)
        ensures
            id@ == raw@,
    {
        ArticleID { raw: raw.to_owned() }
    }

    pub fn as_str(&self) -> (raw: &str)
        ensures
            raw@ == self@,
    {
        self.raw.as_str()
    }
}

impl Clone for ArticleID {
    fn clone(&self) -> (id: Self)
        ensures
            id@ == self@,
    {
        ArticleID { raw: self.raw.clone() }
    }
}

impl PartialEq for ArticleID {
    fn eq(&self, other: &Self) -> (equal: bool) {
        self.raw == other.raw
    }
}

impl Eq for ArticleID {

}

impl PartialEqSpecImpl for ArticleID {
    open spec fn obeys_eq_spec() -> bool {
        true
    }

    open spec fn eq_spec(&self, other: &Self) -> bool {
        self@ == other@
    }
}

/// Identity of a feed. Its view is the identifier's text.
#[derive(Debug, Hash)]
pub struct FeedID {
    raw: String,
}

impl View for FeedID {
    type V = Seq<char>;

    closed spec fn view(&self) -> Seq<char> {
        self.raw@
    }
}

impl FeedID {
    pub fn new(raw: &str) -> (id: Self)
        ensures
            id@ == raw@,
    {
        FeedID { raw: raw.to_owned() }
    }

    pub fn as_str(&self) -> (raw: &str)
        ensures
            raw@ == self@,
    {
        self.raw.as_str()
    }
}

impl Clone for FeedID {
    fn clone(&self) -> (id: Self)
        ensures
            id@ == self@,
    {
        FeedID { raw: self.raw.clone() }
    }
}

impl PartialEq for FeedID {
    fn eq(&self, other: &Self) -> (equal: bool) {
        self.raw == other.raw
    }
}

impl Eq for FeedID {

}

impl PartialEqSpecImpl for FeedID {
    open spec fn obeys_eq_spec() -> bool {
        true
    }

    open spec fn eq_spec(&self, other: &Self) -> bool {
        self@ == other@
    }
}

/// Identity of a category. Its view is the identifier's text.
#[derive(Debug, Hash)]
pub struct CategoryID {
    raw: String,
}

impl View for CategoryID {
    type V = Seq<char>;

    closed spec fn view(&self) -> Seq<char> {
        self.raw@
    }
}

impl CategoryID {
    pub fn new(raw: &str) -> (id: Self)
        ensures
            id@ == raw@,
    {
        CategoryID { raw: raw.to_owned() }
    }

    pub fn as_str(&self) -> (raw: &str)
        ensures
            raw@ == self@,
    {
        self.raw.as_str()
    }
}

impl Clone for CategoryID {
    fn clone(&self) -> (id: Self)
        ensures
            id@ == self@,
    {
        CategoryID { raw: self.raw.clone() }
    }
}

impl PartialEq for CategoryID {
    fn eq(&self, other: &Self) -> (equal: bool) {
        self.raw == other.raw
    }
}

impl Eq for CategoryID {

}

impl PartialEqSpecImpl for CategoryID {
    open spec fn obeys_eq_spec() -> bool {
        true
    }

    open spec fn eq_spec(&self, other: &Self) -> bool {
        self@ == other@
    }
}

/// Identity of a tag. Its view is the identifier's text.
#[derive(Debug, Hash)]
pub struct TagID {
    raw: String,
}

impl View for TagID {
    type V = Seq<char>;

    closed spec fn view(&self) -> Seq<char> {
        self.raw@
    }
}

impl TagID {
    pub fn new(raw: &str) -> (id: Self)
        ensures
            id@ == raw@,
    {
        TagID { raw: raw.to_owned() }
    }

    pub fn as_str(&self) -> (raw: &str)
        ensures
            raw@ == self@,
    {
        self.raw.as_str()
    }
}

impl Clone for TagID {
    fn clone(&self) -> (id: Self)
        ensures
            id@ == self@,
    {
        TagID { raw: self.raw.clone() }
    }
}

impl PartialEq for TagID {
    fn eq(&self, other: &Self) -> (equal: bool) {
        self.raw == other.raw
    }
}

impl Eq for TagID {

}

impl PartialEqSpecImpl for TagID {
    open spec fn obeys_eq_spec() -> bool {
        true
    }

    open spec fn eq_spec(&self, other: &Self) -> bool {
        self@ == other@
    }
}

/// Whether an article has been read.
#[derive(Clone, Copy, Debug, PartialEq, Eq, Structural)]
pub enum Read {
    Read,
    Unread,
}

/// Whether an article is marked.
#[derive(Clone, Copy, Debug, PartialEq, Eq, Structural)]
pub enum Marked {
    Marked,
    Unmarked,
}

/// The order in which a list shows its articles.
#[derive(Clone, Copy, Debug, PartialEq, Eq, Structural)]
pub enum ArticleOrder {
    NewestFirst,
    OldestFirst,
}

/// The text of an optional string.
pub open spec fn text_of(text: Option<String>) -> Option<Seq<char>> {
    match text {
        Some(t) => Some(t@),
        None => None,
    }
}

/// The bytes of an optional byte vector.
pub open spec fn bytes_of(bytes: Option<Vec<u8>>) -> Option<Seq<u8>> {
    match bytes {
        Some(b) => Some(b@),
        None => None,
    }
}

/// Copies an optional string.
pub fn clone_text(text: &Option<String>) -> (copy: Option<String>)
    ensures
        text_of(copy) == text_of(*text),
{
    match text {
        Some(t) => Some(t.clone()),
        None => None,
    }
}

/// Whether two optional strings hold the same text.
pub fn same_text(a: &Option<String>, b: &Option<String>) -> (same: bool)
    ensures
        same == (text_of(*a) == text_of(*b)),
{
    match (a, b) {
        (Some(x), Some(y)) => *x == *y,
        (None, None) => true,
        _ => false,
    }
}

/// Whether two byte vectors hold the same bytes.
pub fn same_bytes(a: &Vec<u8>, b: &Vec<u8>) -> (same: bool)
    ensures
        same == (a@ == b@),
{
    if a.len() != b.len() {
        return false;
    }
    let mut i: usize = 0;
    while i < a.len()
        invariant
            a.len() == b.len(),
            i <= a.len(),
            forall|k: int| 0 <= k < i ==> a@[k] == b@[k],
        decreases a.len() - i,
    {
        if a[i] != b[i] {
            return false;
        }
        i += 1;
    }
    assert(a@ =~= b@);
    true
}

/// Copies a byte vector.
pub fn clone_bytes(bytes: &Vec<u8>) -> (copy: Vec<u8>)
    ensures
        copy@ == bytes@,
{
    let mut copy: Vec<u8> = Vec::new();
    let mut i: usize = 0;
    while i < bytes.len()
        invariant
            i <= bytes.len(),
            copy@ == bytes@.take(i as int),
        decreases bytes.len() - i,
    {
        copy.push(bytes[i]);
        assert(bytes@.take(i as int + 1) =~= bytes@.take(i as int).push(bytes@[i as int]));
        i += 1;
    }
    assert(bytes@.take(bytes.len() as int) =~= bytes@);
    copy
}

/// The icon of a feed: the feed it belongs to and the image bytes, if the
/// backend has any.
#[derive(Debug)]
pub struct FavIcon {
    pub feed_id: FeedID,
    pub data: Option<Vec<u8>>,
}

/// The mathematical value of a [`FavIcon`].
pub struct FavIconView {
    pub feed_id: Seq<char>,
    pub data: Option<Seq<u8>>,
}

impl View for FavIcon {
    type V = FavIconView;

    open spec fn view(&self) -> FavIconView {
        FavIconView { feed_id: self.feed_id@, data: bytes_of(self.data) }
    }
}

impl Clone for FavIcon {
    fn clone(&self) -> (icon: Self)
        ensures
            icon@ == self@,
    {
        let data = match &self.data {
            Some(d) => Some(clone_bytes(d)),
            None => None,
        };
        FavIcon { feed_id: self.feed_id.clone(), data }
    }
}

impl PartialEq for FavIcon {
    fn eq(&self, other: &Self) -> (equal: bool) {
        let same_data = match (&self.data, &other.data) {
            (Some(x), Some(y)) => same_bytes(x, y),
            (None, None) => true,
            _ => false,
        };
        self.feed_id == other.feed_id && same_data
    }
}

impl Eq for FavIcon {

}

impl PartialEqSpecImpl for FavIcon {
    open spec fn obeys_eq_spec() -> bool {
        true
    }

    open spec fn eq_spec(&self, other: &Self) -> bool {
        self@ == other@
    }
}

/// The value of an optional icon.
pub open spec fn icon_of(icon: Option<FavIcon>) -> Option<FavIconView> {
    match icon {
        Some(i) => Some(i@),
        None => None,
    }
}

/// Copies an optional icon.
pub fn clone_icon(icon: &Option<FavIcon>) -> (copy: Option<FavIcon>)
    ensures
        icon_of(copy) == icon_of(*icon),
{
    match icon {
        Some(i) => Some(i.clone()),
        None => None,
    }
}

/// Whether two optional icons have the same value.
pub fn same_icon(a: &Option<FavIcon>, b: &Option<FavIcon>) -> (same: bool)
    ensures
        same == (icon_of(*a) == icon_of(*b)),
{
    match (a, b) {
        (Some(x), Some(y)) => *x == *y,
        (None, None) => true,
        _ => false,
    }
}

/// An article as the backend supplies it. `date` is the publication time
/// as a timestamp; a later article has a greater one.
#[derive(Debug)]
pub struct Article {
    pub article_id: ArticleID,
    pub title: Option<String>,
    pub feed_id: FeedID,
    pub date: i64,
    pub unread: Read,
    pub marked: Marked,
}

/// A category as the backend supplies it. A root category has no parent.
#[derive(Debug)]
pub struct Category {
    pub category_id: CategoryID,
    pub label: String,
    pub sort_index: Option<i32>,
    pub parent_id: Option<CategoryID>,
}

/// A feed as the backend supplies it.
#[derive(Debug)]
pub struct Feed {
    pub feed_id: FeedID,
    pub label: String,
    pub sort_index: Option<i32>,
}

/// The place among its siblings of a node with the given sort index: a
/// node without one sorts last.
pub open spec fn sort_index_of(sort_index: Option<i32>) -> i32 {
    match sort_index {
        Some(index) => index,
        None => i32::MAX,
    }
}

/// The place among its siblings of a node with the given sort index.
pub fn sort_index_or_last(sort_index: Option<i32>) -> (index: i32)
    ensures
        index == sort_index_of(sort_index),
{
    match sort_index {
        Some(index) => index,
        None => i32::MAX,
    }
}

/// Places a feed below a category.
#[derive(Debug)]
pub struct FeedMapping {
    pub feed_id: FeedID,
    pub category_id: CategoryID,
}

} // verus!
