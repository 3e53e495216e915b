//! The model behind the feed list: categories and feeds in display order.

pub mod category;
pub mod change_set;
pub mod diff;
pub mod error;
pub mod feed;
pub mod item;
pub mod placement;
pub mod structure;
pub mod visibility;

pub use category::FeedListCategoryModel;
pub use category::FeedListCategoryModelView;
pub use change_set::FeedListChangeSet;
pub use change_set::FeedListChangeSetView;
pub use error::FeedListModelError;
pub use error::FeedListModelErrorKind;
pub use feed::FeedListFeedModel;
pub use feed::FeedListFeedModelView;
pub use item::FeedListItem;
pub use item::FeedListItemView;
pub use item::NodeKey;

use crate::models::{
    icon_of, sort_index_of, sort_index_or_last, Category, CategoryID, FavIcon, Feed, FeedID,
    FeedMapping,
};
use category::category_of;
use diff::{
    addition_of, additions, carried, carry_expanded, change_views, count_update_of,
    label_update_of, removal_of, removals, tree_diff, updates_of,
};
use structure::{
    fits, has_key, index_of_key, lemma_insert_keeps_wf, lemma_key_index, lemma_level_bound,
    lemma_slot, level_below, parent_present, slot, slot_below, tree_wf,
};
use visibility::{
    categories_below, children_below, feeds_below, in_subtree, lemma_child_is_one_deeper,
    lemma_descends_is_subtree, lemma_no_children_after, lemma_no_children_before,
    lemma_none_below_after, lemma_none_below_before, lemma_scan_step, lemma_shape_keeps_wf,
    lemma_shape_keys, same_shape, scan_state, toggled, visible,
};
use vstd::hash_map::StringHashMap;
use vstd::hash_set::StringHashSet;
use vstd::prelude::*;

verus! {

/// The map holds the index of each category of `s` under its identity.
pub open spec fn indexes_categories(map: Map<Seq<char>, usize>, s: Seq<FeedListItemView>) -> bool {
    &&& forall|id: Seq<char>| #[trigger]
        map.contains_key(id) <==> has_key(s, NodeKey::Category(id))
    &&& forall|id: Seq<char>| #[trigger]
        map.contains_key(id) ==> map[id] == index_of_key(s, NodeKey::Category(id))
}

/// The map holds the index of each feed of `s` under its identity.
pub open spec fn indexes_feeds(map: Map<Seq<char>, usize>, s: Seq<FeedListItemView>) -> bool {
    &&& forall|id: Seq<char>| #[trigger] map.contains_key(id) <==> has_key(s, NodeKey::Feed(id))
    &&& forall|id: Seq<char>| #[trigger]
        map.contains_key(id) ==> map[id] == index_of_key(s, NodeKey::Feed(id))
}

/// The edit that removes the row of a node.
fn removal(item: &FeedListItem) -> (change: FeedListChangeSet)
    ensures
        change@ == removal_of(item@),
{
    match item {
        FeedListItem::Category(c) => FeedListChangeSet::RemoveCategory(c.id.clone()),
        FeedListItem::Feed(f) => FeedListChangeSet::RemoveFeed(f.id.clone()),
    }
}

/// The edit that inserts a row for a node.
fn addition(item: &FeedListItem, pos: usize, shown: bool) -> (change: FeedListChangeSet)
    ensures
        change@ == addition_of(item@, pos as int, shown),
{
    match item {
        FeedListItem::Category(c) => FeedListChangeSet::AddCategory(c.clone(), pos, shown),
        FeedListItem::Feed(f) => FeedListChangeSet::AddFeed(f.clone(), pos, shown),
    }
}

/// The edit that shows a node's row with the node's count.
fn count_update(item: &FeedListItem) -> (change: FeedListChangeSet)
    ensures
        change@ == count_update_of(item@),
{
    match item {
        FeedListItem::Category(c) => FeedListChangeSet::CategoryUpdateItemCount(
            c.id.clone(),
            c.item_count,
        ),
        FeedListItem::Feed(f) => FeedListChangeSet::FeedUpdateItemCount(f.id.clone(), f.item_count),
    }
}

/// The edit that shows a node's row with the node's label.
fn label_update(item: &FeedListItem) -> (change: FeedListChangeSet)
    ensures
        change@ == label_update_of(item@),
{
    match item {
        FeedListItem::Category(c) => FeedListChangeSet::CategoryUpdateLabel(
            c.id.clone(),
            c.label.clone(),
        ),
        FeedListItem::Feed(f) => FeedListChangeSet::FeedUpdateLabel(f.id.clone(), f.label.clone()),
    }
}

/// Whether two nodes carry the same label.
fn same_label(a: &FeedListItem, b: &FeedListItem) -> (same: bool)
    ensures
        same == (a@.label() == b@.label()),
{
    let x = match a {
        FeedListItem::Category(c) => &c.label,
        FeedListItem::Feed(f) => &f.label,
    };
    let y = match b {
        FeedListItem::Category(c) => &c.label,
        FeedListItem::Feed(f) => &f.label,
    };
    *x == *y
}

/// The texts of a sequence of feed identities.
pub open spec fn feed_id_views(s: Seq<FeedID>) -> Seq<Seq<char>> {
    s.map_values(|i: FeedID| i@)
}

/// The texts of a sequence of category identities.
pub open spec fn category_id_views(s: Seq<CategoryID>) -> Seq<Seq<char>> {
    s.map_values(|i: CategoryID| i@)
}

/// The values of a sequence of nodes.
pub open spec fn item_views(s: Seq<FeedListItem>) -> Seq<FeedListItemView> {
    s.map_values(|i: FeedListItem| i@)
}

/// A snapshot of the feed list. Its view is the sequence of its nodes in
/// display order: a category stands before its children, and the children
/// of one parent stand in the order of their sort index.
pub struct FeedListTree {
    items: Vec<FeedListItem>,
    category_ids: StringHashSet,
    feed_ids: StringHashSet,
}

impl View for FeedListTree {
    type V = Seq<FeedListItemView>;

    closed spec fn view(&self) -> Seq<FeedListItemView> {
        item_views(self.items@)
    }
}

impl FeedListTree {
    /// The invariant of the tree: the display order is well formed, and
    /// the indexes hold exactly the identities of the nodes.
    pub closed spec fn wf(&self) -> bool {
        &&& tree_wf(self@)
        &&& forall|id: Seq<char>|
            self.category_ids@.contains(id) <==> has_key(self@, NodeKey::Category(id))
        &&& forall|id: Seq<char>| self.feed_ids@.contains(id) <==> has_key(self@, NodeKey::Feed(id))
    }

    /// The display order of a well-formed tree is well formed.
    pub proof fn lemma_shape(&self)
        requires
            self.wf(),
        ensures
            tree_wf(self@),
    {
    }

    /// An empty tree.
    pub fn new() -> (tree: Self)
        ensures
            tree.wf(),
            tree@ == Seq::<FeedListItemView>::empty(),
    {
        let tree = FeedListTree {
            items: Vec::new(),
            category_ids: StringHashSet::new(),
            feed_ids: StringHashSet::new(),
        };
        assert(tree@ =~= Seq::empty());
        tree
    }

    /// The nodes in display order.
    pub fn items(&self) -> (items: &Vec<FeedListItem>)
        ensures
            item_views(items@) == self@,
    {
        &self.items
    }

    /// The index of the category of the identity, if the tree holds it.
    fn find_category(&self, id: &CategoryID) -> (found: Option<usize>)
        requires
            self.wf(),
        ensures
            match found {
                Some(k) => k < self@.len() && self@[k as int].key() == NodeKey::Category(id@)
                    && index_of_key(self@, NodeKey::Category(id@)) == k,
                None => !has_key(self@, NodeKey::Category(id@)),
            },
            found is Some <==> has_key(self@, NodeKey::Category(id@)),
    {
        let mut k: usize = 0;
        while k < self.items.len()
            invariant
                self.wf(),
                k <= self.items.len(),
                forall|m: int| 0 <= m < k ==> (#[trigger] self@[m]).key() != NodeKey::Category(id@),
            decreases self.items.len() - k,
        {
            let is_it = match &self.items[k] {
                FeedListItem::Category(c) => c.id == *id,
                FeedListItem::Feed(_) => false,
            };
            if is_it {
                proof {
                    lemma_key_index(self@, k as int);
                }
                return Some(k);
            }
            k += 1;
        }
        None
    }

    /// Where a node of the given depth and sort index goes, searching
    /// from `start`.
    fn find_slot(&self, start: usize, level: usize, sort_index: i32) -> (at: usize)
        requires
            start <= self@.len(),
        ensures
            at == slot(self@, start as int, level as int, sort_index),
            start <= at <= self@.len(),
    {
        let mut at: usize = start;
        while at < self.items.len() && !(self.items[at].level() < level || (self.items[at].level()
            == level && self.items[at].sort_index() > sort_index))
            invariant
                start <= at <= self.items.len(),
                slot(self@, start as int, level as int, sort_index) == slot(
                    self@,
                    at as int,
                    level as int,
                    sort_index,
                ),
            decreases self.items.len() - at,
        {
            at += 1;
        }
        at
    }

    /// The children of the category: the display indices of the nodes
    /// directly below it, in display order. Returns nothing where the
    /// tree holds no such category.
    pub fn children_of(&self, category_id: &CategoryID) -> (result: Option<Vec<usize>>)
        requires
            self.wf(),
        ensures
            match result {
                None => !has_key(self@, NodeKey::Category(category_id@)),
                Some(children) => {
                    &&& has_key(self@, NodeKey::Category(category_id@))
                    &&& children@ == children_below(
                        self@,
                        index_of_key(self@, NodeKey::Category(category_id@)),
                        self@.len() as int,
                    )
                },
            },
    {
        let c = match self.find_category(category_id) {
            None => {
                return None;
            },
            Some(c) => c,
        };
        let ghost s = self@;
        assert(c < self.items.len());
        let top = self.items[c].level();
        let mut children: Vec<usize> = Vec::new();
        let mut k: usize = c + 1;
        proof {
            lemma_no_children_before(s, c as int, c as int + 1);
        }
        while k < self.items.len() && self.items[k].level() > top
            invariant
                self.wf(),
                self@ == s,
                c < k <= self.items.len(),
                self.items.len() == s.len(),
                s[c as int] is Category,
                top == s[c as int].level(),
                forall|m: int| c < m < k ==> (#[trigger] s[m]).level() > top,
                children@ == children_below(s, c as int, k as int),
            decreases self.items.len() - k,
        {
            proof {
                lemma_child_is_one_deeper(s, c as int, k as int);
                assert(in_subtree(s, c as int, k as int));
            }
            if self.items[k].level() - 1 == top {
                children.push(k);
            }
            k += 1;
        }
        proof {
            lemma_no_children_after(s, c as int, k as int, s.len() as int);
        }
        Some(children)
    }

    /// Toggles the category between expanded and collapsed and returns
    /// the feeds and the categories that descend from it, each in display
    /// order, with the category's new state: `true` for expanded. Returns
    /// nothing, and changes nothing, where the tree holds no such
    /// category.
    pub fn collapse_expand_ids(&mut self, category_id: &CategoryID) -> (result: Option<
        (Vec<FeedID>, Vec<CategoryID>, bool),
    >)
        requires
            old(self).wf(),
        ensures
            final(self).wf(),
            match result {
                None => !has_key(old(self)@, NodeKey::Category(category_id@)) && final(self)@
                    == old(self)@,
                Some((feeds, categories, expanded)) => {
                    let c = index_of_key(old(self)@, NodeKey::Category(category_id@));
                    &&& has_key(old(self)@, NodeKey::Category(category_id@))
                    &&& expanded == !old(self)@[c].is_open()
                    &&& final(self)@ == old(self)@.update(c, toggled(old(self)@[c]))
                    &&& feed_id_views(feeds@) == feeds_below(old(self)@, c, old(self)@.len() as int)
                    &&& category_id_views(categories@) == categories_below(
                        old(self)@,
                        c,
                        old(self)@.len() as int,
                    )
                },
            },
    {
        let c = match self.find_category(category_id) {
            None => {
                return None;
            },
            Some(c) => c,
        };
        let ghost s = self@;
        assert(c < self.items.len());
        let top = self.items[c].level();
        let mut feeds: Vec<FeedID> = Vec::new();
        let mut categories: Vec<CategoryID> = Vec::new();
        let mut k: usize = c + 1;
        proof {
            lemma_none_below_before(s, c as int, c as int + 1);
            assert(feed_id_views(feeds@) =~= Seq::empty());
            assert(category_id_views(categories@) =~= Seq::empty());
        }
        while k < self.items.len() && self.items[k].level() > top
            invariant
                self.wf(),
                self@ == s,
                c < k <= self.items.len(),
                self.items.len() == s.len(),
                top == s[c as int].level(),
                forall|m: int| c < m < k ==> (#[trigger] s[m]).level() > top,
                feed_id_views(feeds@) == feeds_below(s, c as int, k as int),
                category_id_views(categories@) == categories_below(s, c as int, k as int),
            decreases self.items.len() - k,
        {
            proof {
                lemma_descends_is_subtree(s, c as int, k as int);
                assert(in_subtree(s, c as int, k as int));
            }
            let ghost feeds_before = feed_id_views(feeds@);
            let ghost categories_before = category_id_views(categories@);
            match &self.items[k] {
                FeedListItem::Feed(f) => {
                    feeds.push(f.id.clone());
                    assert(feed_id_views(feeds@) =~= feeds_before.push(f.id@));
                },
                FeedListItem::Category(cat) => {
                    categories.push(cat.id.clone());
                    assert(category_id_views(categories@) =~= categories_before.push(cat.id@));
                },
            }
            k += 1;
        }
        proof {
            lemma_none_below_after(s, c as int, k as int, s.len() as int);
        }
        let expanded = match &mut self.items[c] {
            FeedListItem::Category(cat) => {
                cat.expanded = !cat.expanded;
                cat.expanded
            },
            FeedListItem::Feed(_) => true,
        };
        proof {
            assert(self@ =~= s.update(c as int, toggled(s[c as int])));
            lemma_shape_keeps_wf(s, self@);
            lemma_shape_keys(s, self@);
        }
        Some((feeds, categories, expanded))
    }

    /// Whether the tree holds a node of the identity of `item`.
    fn has_node(&self, item: &FeedListItem) -> (found: bool)
        requires
            self.wf(),
        ensures
            found == has_key(self@, item@.key()),
    {
        match item {
            FeedListItem::Category(c) => self.category_ids.contains(c.id.as_str()),
            FeedListItem::Feed(f) => self.feed_ids.contains(f.id.as_str()),
        }
    }

    /// The index of each node under its identity: one map for the
    /// categories, one for the feeds.
    fn index_nodes(&self) -> (maps: (StringHashMap<usize>, StringHashMap<usize>))
        requires
            self.wf(),
        ensures
            indexes_categories(maps.0@, self@),
            indexes_feeds(maps.1@, self@),
    {
        let mut categories: StringHashMap<usize> = StringHashMap::new();
        let mut feeds: StringHashMap<usize> = StringHashMap::new();
        let ghost s = self@;
        let mut k: usize = 0;
        while k < self.items.len()
            invariant
                self.wf(),
                self@ == s,
                k <= self.items.len(),
                self.items.len() == s.len(),
                forall|id: Seq<char>| #[trigger]
                    categories@.contains_key(id) ==> categories@[id] < k && s[categories@[id] as int].key()
                        == NodeKey::Category(id),
                forall|id: Seq<char>| #[trigger]
                    feeds@.contains_key(id) ==> feeds@[id] < k && s[feeds@[id] as int].key()
                        == NodeKey::Feed(id),
                forall|m: int|
                    0 <= m < k ==> match #[trigger] s[m] {
                        FeedListItemView::Category(c) => categories@.contains_key(c.id),
                        FeedListItemView::Feed(f) => feeds@.contains_key(f.id),
                    },
            decreases self.items.len() - k,
        {
            match &self.items[k] {
                FeedListItem::Category(c) => {
                    categories.insert(c.id.as_str().to_owned(), k);
                },
                FeedListItem::Feed(f) => {
                    feeds.insert(f.id.as_str().to_owned(), k);
                },
            }
            k += 1;
        }
        proof {
            assert forall|id: Seq<char>| #[trigger]
                categories@.contains_key(id) <==> has_key(s, NodeKey::Category(id)) by {
                if has_key(s, NodeKey::Category(id)) {
                    let m = index_of_key(s, NodeKey::Category(id));
                    assert(s[m].key() == NodeKey::Category(id));
                }
                if categories@.contains_key(id) {
                    assert(s[categories@[id] as int].key() == NodeKey::Category(id));
                }
            }
            assert forall|id: Seq<char>| #[trigger] categories@.contains_key(id) implies categories@[id]
                == index_of_key(s, NodeKey::Category(id)) by {
                lemma_key_index(s, categories@[id] as int);
            }
            assert forall|id: Seq<char>| #[trigger]
                feeds@.contains_key(id) <==> has_key(s, NodeKey::Feed(id)) by {
                if has_key(s, NodeKey::Feed(id)) {
                    let m = index_of_key(s, NodeKey::Feed(id));
                    assert(s[m].key() == NodeKey::Feed(id));
                }
                if feeds@.contains_key(id) {
                    assert(s[feeds@[id] as int].key() == NodeKey::Feed(id));
                }
            }
            assert forall|id: Seq<char>| #[trigger] feeds@.contains_key(id) implies feeds@[id]
                == index_of_key(s, NodeKey::Feed(id)) by {
                lemma_key_index(s, feeds@[id] as int);
            }
        }
        (categories, feeds)
    }

    /// Takes over from `old_tree` whether each category is expanded, for the
    /// categories that both trees hold.
    fn carry_expanded_from(&mut self, old_tree: &FeedListTree, old_categories: &StringHashMap<usize>)
        requires
            old(self).wf(),
            old_tree.wf(),
            indexes_categories(old_categories@, old_tree@),
        ensures
            final(self).wf(),
            final(self)@ == carry_expanded(old_tree@, old(self)@),
    {
        let ghost before = self@;
        let ghost o = old_tree@;
        let ghost category_index = self.category_ids@;
        let ghost feed_index = self.feed_ids@;
        let n = self.items.len();
        let mut k: usize = 0;
        while k < n
            invariant
                old_tree.wf(),
                old_tree@ == o,
                indexes_categories(old_categories@, o),
                n == self.items.len(),
                n == before.len(),
                k <= n,
                self.category_ids@ == category_index,
                self.feed_ids@ == feed_index,
                forall|m: int| 0 <= m < k ==> #[trigger] self@[m] == carried(o, before[m]),
                forall|m: int| k <= m < n ==> #[trigger] self@[m] == before[m],
            decreases n - k,
        {
            let ghost cur = self@;
            assert(cur[k as int] == before[k as int]);
            let flag: Option<bool> = match &self.items[k] {
                FeedListItem::Category(c) => {
                    match old_categories.get(c.id.as_str()) {
                        Some(found) => {
                            assert(*found == index_of_key(o, NodeKey::Category(c.id@)));
                            assert(has_key(o, NodeKey::Category(c.id@)));
                            assert(*found < old_tree.items.len());
                            assert(old_tree.items[*found as int]@ == o[*found as int]);
                            match &old_tree.items[*found] {
                                FeedListItem::Category(oc) => Some(oc.expanded),
                                FeedListItem::Feed(_) => Some(true),
                            }
                        },
                        None => None,
                    }
                },
                FeedListItem::Feed(_) => None,
            };
            match flag {
                Some(expanded) => {
                    match &mut self.items[k] {
                        FeedListItem::Category(c) => {
                            c.expanded = expanded;
                        },
                        FeedListItem::Feed(_) => {},
                    }
                },
                None => {},
            }
            proof {
                assert(self@ =~= cur.update(k as int, carried(o, before[k as int])));
            }
            k += 1;
        }
        proof {
            assert(self@ =~= carry_expanded(o, before));
            assert(same_shape(before, self@));
            lemma_shape_keeps_wf(before, self@);
            lemma_shape_keys(before, self@);
        }
    }

    /// The removals that lead from this tree to `new_tree`.
    fn removed_nodes(&self, new_tree: &FeedListTree) -> (diff: Vec<FeedListChangeSet>)
        requires
            self.wf(),
            new_tree.wf(),
        ensures
            change_views(diff@) == removals(self@, new_tree@, self@.len() as int),
    {
        let mut diff: Vec<FeedListChangeSet> = Vec::new();
        let n = self.items.len();
        let mut k: usize = 0;
        assert(change_views(diff@) =~= Seq::empty());
        while k < n
            invariant
                self.wf(),
                new_tree.wf(),
                n == self.items.len(),
                n == self@.len(),
                k <= n,
                change_views(diff@) == removals(self@, new_tree@, k as int),
            decreases n - k,
        {
            let item = &self.items[k];
            assert(item@ == self@[k as int]);
            if !new_tree.has_node(item) {
                let ghost done = change_views(diff@);
                diff.push(removal(item));
                assert(change_views(diff@) =~= done.push(removal_of(item@)));
            }
            k += 1;
        }
        diff
    }

    /// The additions and updates that lead from `old_tree` to this tree.
    fn added_nodes(
        &self,
        old_tree: &FeedListTree,
        old_categories: &StringHashMap<usize>,
        old_feeds: &StringHashMap<usize>,
    ) -> (diff: Vec<FeedListChangeSet>)
        requires
            self.wf(),
            old_tree.wf(),
            indexes_categories(old_categories@, old_tree@),
            indexes_feeds(old_feeds@, old_tree@),
        ensures
            change_views(diff@) == additions(old_tree@, self@, self@.len() as int),
    {
        let mut diff: Vec<FeedListChangeSet> = Vec::new();
        let ghost s = self@;
        let ghost o = old_tree@;
        let n = self.items.len();
        let mut k: usize = 0;
        let mut hidden: Option<usize> = None;
        let ghost mut q: int = 0;
        assert(change_views(diff@) =~= Seq::empty());
        while k < n
            invariant
                self.wf(),
                old_tree.wf(),
                self@ == s,
                old_tree@ == o,
                indexes_categories(old_categories@, o),
                indexes_feeds(old_feeds@, o),
                n == self.items.len(),
                n == s.len(),
                k <= n,
                scan_state(s, k as int, hidden, q),
                change_views(diff@) == additions(o, s, k as int),
            decreases n - k,
        {
            let item = &self.items[k];
            assert(item@ == s[k as int]);
            let level = item.level();
            let shown = match hidden {
                None => true,
                Some(top) => level <= top,
            };
            proof {
                lemma_scan_step(s, k as int, hidden, q);
                if shown && !s[k as int].is_open() {
                    q = k as int;
                }
            }
            if shown {
                let open = match item {
                    FeedListItem::Category(c) => c.expanded,
                    FeedListItem::Feed(_) => true,
                };
                hidden = if open { None } else { Some(level) };
            }
            let found = match item {
                FeedListItem::Category(c) => old_categories.get(c.id.as_str()),
                FeedListItem::Feed(f) => old_feeds.get(f.id.as_str()),
            };
            let ghost done = change_views(diff@);
            match found {
                Some(index) => {
                    assert(has_key(o, s[k as int].key()));
                    assert(*index == index_of_key(o, s[k as int].key()));
                    assert(*index < old_tree.items.len());
                    let old_item = &old_tree.items[*index];
                    assert(old_item@ == o[*index as int]);
                    if item.item_count() != old_item.item_count() {
                        diff.push(count_update(item));
                    }
                    if !same_label(item, old_item) {
                        diff.push(label_update(item));
                    }
                    assert(change_views(diff@) =~= done + updates_of(old_item@, item@));
                },
                None => {
                    assert(!has_key(o, s[k as int].key()));
                    diff.push(addition(item, k, shown));
                    assert(change_views(diff@) =~= done.push(
                        addition_of(item@, k as int, visible(s, k as int)),
                    ));
                },
            }
            k += 1;
        }
        diff
    }

    /// Carries over from this tree into `new_tree` whether each surviving
    /// category is expanded, and returns the edits that turn the rows of
    /// this tree into those of `new_tree`: a removal for each node that
    /// `new_tree` does not hold, then for each node of `new_tree`, in
    /// display order, its addition or the updates of its count and label.
    pub fn generate_diff(&self, new_tree: &mut FeedListTree) -> (diff: Vec<FeedListChangeSet>)
        requires
            self.wf(),
            old(new_tree).wf(),
        ensures
            final(new_tree).wf(),
            final(new_tree)@ == carry_expanded(self@, old(new_tree)@),
            change_views(diff@) == tree_diff(self@, final(new_tree)@),
    {
        let (categories, feeds) = self.index_nodes();
        new_tree.carry_expanded_from(self, &categories);
        let mut diff = self.removed_nodes(new_tree);
        let mut added = new_tree.added_nodes(self, &categories, &feeds);
        let ghost first = change_views(diff@);
        let ghost second = change_views(added@);
        diff.append(&mut added);
        assert(change_views(diff@) =~= first + second);
        diff
    }

    /// Adds a category below its declared parent, or at the root if it
    /// declares none, behind its siblings of the same or a smaller sort
    /// index. The category starts out expanded.
    pub fn add_category(&mut self, category: &Category, item_count: i64) -> (result: Result<
        (),
        FeedListModelError,
    >)
        requires
            old(self).wf(),
        ensures
            final(self).wf(),
            has_key(old(self)@, NodeKey::Category(category.category_id@)) ==> {
                &&& result == Err::<(), FeedListModelError>(
                    FeedListModelError { kind: FeedListModelErrorKind::DuplicateCategory },
                )
                &&& final(self)@ == old(self)@
            },
            !has_key(old(self)@, NodeKey::Category(category.category_id@)) && !parent_present(
                old(self)@,
                category_of(category.parent_id),
            ) ==> {
                &&& result == Err::<(), FeedListModelError>(
                    FeedListModelError { kind: FeedListModelErrorKind::DanglingParent },
                )
                &&& final(self)@ == old(self)@
            },
            !has_key(old(self)@, NodeKey::Category(category.category_id@)) && parent_present(
                old(self)@,
                category_of(category.parent_id),
            ) ==> {
                &&& result is Ok
                &&& final(self)@ == old(self)@.insert(
                    slot_below(
                        old(self)@,
                        category_of(category.parent_id),
                        sort_index_of(category.sort_index),
                    ),
                    FeedListItemView::Category(
                        FeedListCategoryModelView {
                            id: category.category_id@,
                            parent_id: category_of(category.parent_id),
                            label: category.label@,
                            sort_index: sort_index_of(category.sort_index),
                            item_count,
                            level: level_below(old(self)@, category_of(category.parent_id)),
                            expanded: true,
                        },
                    ),
                )
            },
    {
        if self.category_ids.contains(category.category_id.as_str()) {
            return Err(FeedListModelError::new(FeedListModelErrorKind::DuplicateCategory));
        }
        let (start, level) = match &category.parent_id {
            None => (0usize, 0usize),
            Some(parent_id) => match self.find_category(parent_id) {
                None => {
                    return Err(FeedListModelError::new(FeedListModelErrorKind::DanglingParent));
                },
                Some(p) => {
                    proof {
                        lemma_level_bound(self@, p as int);
                    }
                    assert(p < self.items.len());
                    (p + 1, self.items[p].level() + 1)
                },
            },
        };
        let at = self.find_slot(start, level, sort_index_or_last(category.sort_index));
        let model = FeedListCategoryModel::new(category, item_count, level);
        let ghost before = self@;
        let ghost node = FeedListItemView::Category(model@);
        proof {
            lemma_slot(before, start as int, level as int, sort_index_of(category.sort_index));
            assert(fits(before, start as int, at as int, node));
            lemma_insert_keeps_wf(before, start as int, at as int, node);
        }
        self.category_ids.insert(category.category_id.as_str().to_owned());
        self.items.insert(at, FeedListItem::Category(model));
        proof {
            assert(self@ =~= before.insert(at as int, node));
            lemma_index_after_insert(before, at as int, node);
        }
        Ok(())
    }

    /// Adds a feed below the category that the mapping names, behind its
    /// siblings of the same or a smaller sort index.
    pub fn add_feed(
        &mut self,
        feed: &Feed,
        mapping: &FeedMapping,
        item_count: i64,
        icon: Option<FavIcon>,
    ) -> (result: Result<(), FeedListModelError>)
        requires
            old(self).wf(),
        ensures
            final(self).wf(),
            has_key(old(self)@, NodeKey::Feed(feed.feed_id@)) ==> {
                &&& result == Err::<(), FeedListModelError>(
                    FeedListModelError { kind: FeedListModelErrorKind::DuplicateFeed },
                )
                &&& final(self)@ == old(self)@
            },
            !has_key(old(self)@, NodeKey::Feed(feed.feed_id@)) && !has_key(
                old(self)@,
                NodeKey::Category(mapping.category_id@),
            ) ==> {
                &&& result == Err::<(), FeedListModelError>(
                    FeedListModelError { kind: FeedListModelErrorKind::DanglingParent },
                )
                &&& final(self)@ == old(self)@
            },
            !has_key(old(self)@, NodeKey::Feed(feed.feed_id@)) && has_key(
                old(self)@,
                NodeKey::Category(mapping.category_id@),
            ) ==> {
                &&& result is Ok
                &&& final(self)@ == old(self)@.insert(
                    slot_below(
                        old(self)@,
                        Some(mapping.category_id@),
                        sort_index_of(feed.sort_index),
                    ),
                    FeedListItemView::Feed(
                        FeedListFeedModelView {
                            id: feed.feed_id@,
                            parent_id: mapping.category_id@,
                            label: feed.label@,
                            sort_index: sort_index_of(feed.sort_index),
                            icon: icon_of(icon),
                            item_count,
                            level: level_below(old(self)@, Some(mapping.category_id@)),
                        },
                    ),
                )
            },
    {
        if self.feed_ids.contains(feed.feed_id.as_str()) {
            return Err(FeedListModelError::new(FeedListModelErrorKind::DuplicateFeed));
        }
        let p = match self.find_category(&mapping.category_id) {
            None => {
                return Err(FeedListModelError::new(FeedListModelErrorKind::DanglingParent));
            },
            Some(p) => p,
        };
        proof {
            lemma_level_bound(self@, p as int);
        }
        assert(p < self.items.len());
        let start = p + 1;
        let level = self.items[p].level() + 1;
        let at = self.find_slot(start, level, sort_index_or_last(feed.sort_index));
        let model = FeedListFeedModel::new(feed, mapping, item_count, level, icon);
        let ghost before = self@;
        let ghost node = FeedListItemView::Feed(model@);
        proof {
            lemma_slot(before, start as int, level as int, sort_index_of(feed.sort_index));
            assert(fits(before, start as int, at as int, node));
            lemma_insert_keeps_wf(before, start as int, at as int, node);
        }
        self.feed_ids.insert(feed.feed_id.as_str().to_owned());
        self.items.insert(at, FeedListItem::Feed(model));
        proof {
            assert(self@ =~= before.insert(at as int, node));
            lemma_index_after_insert(before, at as int, node);
        }
        Ok(())
    }
}

/// After an insertion the identities are those from before and the new
/// one.
proof fn lemma_index_after_insert(s: Seq<FeedListItemView>, at: int, x: FeedListItemView)
    requires
        0 <= at <= s.len(),
    ensures
        forall|key: NodeKey| has_key(s.insert(at, x), key) <==> (has_key(s, key) || key == x.key()),
{
    let t = s.insert(at, x);
    assert forall|key: NodeKey| has_key(t, key) <==> (has_key(s, key) || key == x.key()) by {
        if has_key(t, key) {
            let k = choose|k: int| 0 <= k < t.len() && (#[trigger] t[k]).key() == key;
            if k < at {
                assert(s[k].key() == key);
            } else if k > at {
                assert(s[k - 1].key() == key);
            }
        }
        if has_key(s, key) {
            let k = choose|k: int| 0 <= k < s.len() && (#[trigger] s[k]).key() == key;
            let tk = if k < at { k } else { k + 1 };
            assert(t[tk].key() == key);
        }
        if key == x.key() {
            assert(t[at].key() == key);
        }
    }
}

} // verus!
