//! Ancestors and descendants in the display order, and what is visible:
//! a node shows only while every category above it is expanded.

use super::item::{FeedListItemView, NodeKey};
use super::structure::{
    distinct_keys, has_key, index_of_key, lemma_key_index, lemma_level_bound, parent_at, placed,
    siblings, tree_wf,
};
use vstd::prelude::*;

verus! {

/// Node `k` descends from node `c`: following the declared parents from
/// `k` upwards leads to `c`.
pub open spec fn descends(s: Seq<FeedListItemView>, k: int, c: int) -> bool
    decreases k,
{
    if 0 <= k < s.len() {
        match s[k].parent() {
            Some(id) => has_key(s, NodeKey::Category(id)) && {
                let p = index_of_key(s, NodeKey::Category(id));
                p == c || (p < k && descends(s, p, c))
            },
            None => false,
        }
    } else {
        false
    }
}

/// Node `k` stands in the run of deeper nodes that follows node `c`.
pub open spec fn in_subtree(s: Seq<FeedListItemView>, c: int, k: int) -> bool {
    &&& 0 <= c < k < s.len()
    &&& forall|m: int| c < m <= k ==> (#[trigger] s[m]).level() > s[c].level()
}

/// Node `k` is visible: every category that it descends from is expanded.
pub open spec fn visible(s: Seq<FeedListItemView>, k: int) -> bool {
    forall|c: int| 0 <= c < s.len() && #[trigger] descends(s, k, c) ==> s[c].is_open()
}

/// The identities of the feeds among the first `n` nodes that descend
/// from node `c`, in display order.
pub open spec fn feeds_below(s: Seq<FeedListItemView>, c: int, n: int) -> Seq<Seq<char>>
    decreases n,
{
    if n <= 0 {
        Seq::empty()
    } else {
        let rest = feeds_below(s, c, n - 1);
        if s[n - 1] is Feed && descends(s, n - 1, c) {
            rest.push(s[n - 1].id())
        } else {
            rest
        }
    }
}

/// The identities of the categories among the first `n` nodes that
/// descend from node `c`, in display order.
pub open spec fn categories_below(s: Seq<FeedListItemView>, c: int, n: int) -> Seq<Seq<char>>
    decreases n,
{
    if n <= 0 {
        Seq::empty()
    } else {
        let rest = categories_below(s, c, n - 1);
        if s[n - 1] is Category && descends(s, n - 1, c) {
            rest.push(s[n - 1].id())
        } else {
            rest
        }
    }
}

/// The display indices of the children of node `c` among the first `n`
/// nodes: the nodes that declare the category at `c` as their parent.
pub open spec fn children_below(s: Seq<FeedListItemView>, c: int, n: int) -> Seq<usize>
    decreases n,
{
    if n <= 0 {
        Seq::empty()
    } else {
        let rest = children_below(s, c, n - 1);
        if s[c] is Category && s[n - 1].parent() == Some(s[c].id()) {
            rest.push((n - 1) as usize)
        } else {
            rest
        }
    }
}

/// A category with the other choice of expanded or collapsed; a feed as
/// it is.
pub open spec fn toggled(item: FeedListItemView) -> FeedListItemView {
    match item {
        FeedListItemView::Category(c) => FeedListItemView::Category(
            super::category::FeedListCategoryModelView { expanded: !c.expanded, ..c },
        ),
        FeedListItemView::Feed(_) => item,
    }
}

/// The two sequences hold the same nodes in the same places; only what is
/// displayed of a node or whether it is expanded may differ.
pub open spec fn same_shape(s: Seq<FeedListItemView>, t: Seq<FeedListItemView>) -> bool {
    &&& s.len() == t.len()
    &&& forall|k: int|
        0 <= k < s.len() ==> {
            &&& (#[trigger] s[k]).key() == (#[trigger] t[k]).key()
            &&& s[k].level() == t[k].level()
            &&& s[k].sort_index() == t[k].sort_index()
            &&& s[k].parent() == t[k].parent()
        }
}

/// In a well-formed display order the descendants of a node are exactly
/// the run of deeper nodes that follows it.
pub proof fn lemma_descends_is_subtree(s: Seq<FeedListItemView>, c: int, k: int)
    requires
        tree_wf(s),
        0 <= c < s.len(),
        0 <= k < s.len(),
    ensures
        descends(s, k, c) <==> in_subtree(s, c, k),
    decreases k,
{
    assert(placed(s, k));
    lemma_level_bound(s, c);
    if s[k].level() != 0 {
        let p = choose|p: int| parent_at(s, k, p);
        lemma_key_index(s, p);
        assert(s[p].key() == NodeKey::Category(s[p].id()));
        assert(index_of_key(s, NodeKey::Category(s[p].id())) == p);
        lemma_descends_is_subtree(s, c, p);
        if descends(s, k, c) {
            if p == c {
                assert forall|m: int| c < m <= k implies (#[trigger] s[m]).level()
                    > s[c].level() by {}
            } else {
                assert(in_subtree(s, c, p));
                assert forall|m: int| c < m <= k implies (#[trigger] s[m]).level()
                    > s[c].level() by {
                    assert(s[p].level() > s[c].level());
                }
            }
        }
        if in_subtree(s, c, k) {
            if p < c {
                assert(s[c].level() >= s[k].level());
                assert(s[k].level() > s[c].level());
            }
            if p > c {
                assert(in_subtree(s, c, p));
            }
        }
    } else {
        if in_subtree(s, c, k) {
            assert(s[k].level() > s[c].level());
        }
    }
}

/// In a well-formed display order a node is visible exactly if every node
/// in whose run it stands is open.
pub proof fn lemma_visible_is_open_path(s: Seq<FeedListItemView>, k: int)
    requires
        tree_wf(s),
        0 <= k < s.len(),
    ensures
        visible(s, k) <==> (forall|c: int| #[trigger] in_subtree(s, c, k) ==> s[c].is_open()),
{
    assert forall|c: int| 0 <= c < s.len() implies (descends(s, k, c) <==> in_subtree(s, c, k)) by {
        lemma_descends_is_subtree(s, c, k);
    }
    if visible(s, k) {
        assert forall|c: int| #[trigger] in_subtree(s, c, k) implies s[c].is_open() by {
            assert(descends(s, k, c));
        }
    }
    if forall|c: int| #[trigger] in_subtree(s, c, k) ==> s[c].is_open() {
        assert forall|c: int| 0 <= c < s.len() && #[trigger] descends(s, k, c) implies s[c].is_open() by {
            assert(in_subtree(s, c, k));
        }
    }
}

/// Nodes of the same shape have the same identities.
pub proof fn lemma_shape_keys(s: Seq<FeedListItemView>, t: Seq<FeedListItemView>)
    requires
        same_shape(s, t),
    ensures
        forall|key: NodeKey| has_key(s, key) <==> has_key(t, key),
        distinct_keys(s) ==> forall|key: NodeKey|
            has_key(s, key) ==> index_of_key(s, key) == index_of_key(t, key),
        distinct_keys(s) ==> distinct_keys(t),
{
    assert forall|key: NodeKey| has_key(s, key) <==> has_key(t, key) by {
        if has_key(s, key) {
            let k = index_of_key(s, key);
            assert(t[k].key() == key);
        }
        if has_key(t, key) {
            let k = index_of_key(t, key);
            assert(s[k].key() == key);
        }
    }
    if distinct_keys(s) {
        assert forall|a: int, b: int| 0 <= a < b < t.len() implies (#[trigger] t[a]).key() != (
        #[trigger] t[b]).key() by {
            assert(s[a].key() != s[b].key());
        }
        assert forall|key: NodeKey| has_key(s, key) implies index_of_key(s, key) == index_of_key(
            t,
            key,
        ) by {
            let k = index_of_key(s, key);
            assert(t[k].key() == key);
            lemma_key_index(t, k);
        }
    }
}

/// A display order of the same shape as a well-formed one is well formed.
pub proof fn lemma_shape_keeps_wf(s: Seq<FeedListItemView>, t: Seq<FeedListItemView>)
    requires
        tree_wf(s),
        same_shape(s, t),
    ensures
        tree_wf(t),
{
    lemma_shape_keys(s, t);
    assert forall|k: int| 0 <= k < t.len() implies #[trigger] placed(t, k) by {
        assert(placed(s, k));
        assert(s[k].key() == t[k].key());
        if s[k].level() != 0 {
            let p = choose|p: int| parent_at(s, k, p);
            assert(s[p].key() == t[p].key());
            assert forall|m: int| p < m < k implies (#[trigger] t[m]).level() >= t[k].level() by {
                assert(s[m].level() == t[m].level());
            }
            assert(parent_at(t, k, p));
        }
    }
    assert forall|a: int, b: int| #[trigger] siblings(t, a, b) implies t[a].sort_index()
        <= t[b].sort_index() by {
        assert(s[a].key() == t[a].key() && s[b].key() == t[b].key());
        assert forall|m: int| a < m < b implies (#[trigger] s[m]).level() >= s[a].level() by {
            assert(s[m].level() == t[m].level());
        }
        assert(siblings(s, a, b));
    }
}

/// Nodes of the same shape descend from the same nodes.
pub proof fn lemma_shape_descends(
    s: Seq<FeedListItemView>,
    t: Seq<FeedListItemView>,
    k: int,
    c: int,
)
    requires
        distinct_keys(s),
        same_shape(s, t),
    ensures
        descends(s, k, c) == descends(t, k, c),
    decreases k,
{
    lemma_shape_keys(s, t);
    if 0 <= k < s.len() {
        assert(s[k].parent() == t[k].parent());
        match s[k].parent() {
            Some(id) => {
                if has_key(s, NodeKey::Category(id)) {
                    let p = index_of_key(s, NodeKey::Category(id));
                    if p != c && p < k {
                        lemma_shape_descends(s, t, p, c);
                    }
                }
            },
            None => {},
        }
    }
}

/// In a well-formed display order the children of a category are the
/// nodes of its run that are one level deeper.
pub proof fn lemma_child_is_one_deeper(s: Seq<FeedListItemView>, c: int, k: int)
    requires
        tree_wf(s),
        0 <= c < s.len(),
        0 <= k < s.len(),
        s[c] is Category,
    ensures
        s[k].parent() == Some(s[c].id()) <==> in_subtree(s, c, k) && s[k].level() == s[c].level()
            + 1,
{
    assert(placed(s, k));
    lemma_level_bound(s, c);
    lemma_key_index(s, c);
    if s[k].level() != 0 {
        let p = choose|p: int| parent_at(s, k, p);
        lemma_key_index(s, p);
        assert(s[p].key() == NodeKey::Category(s[p].id()));
        assert(s[c].key() == NodeKey::Category(s[c].id()));
        if s[k].parent() == Some(s[c].id()) {
            assert(p == c);
            assert forall|m: int| c < m <= k implies (#[trigger] s[m]).level() > s[c].level() by {}
        }
        if in_subtree(s, c, k) && s[k].level() == s[c].level() + 1 {
            if p < c {
                assert(s[c].level() >= s[k].level());
            }
            if p > c {
                assert(s[p].level() > s[c].level());
            }
            assert(p == c);
        }
    } else {
        if in_subtree(s, c, k) {
            assert(s[k].level() > s[c].level());
        }
    }
}

/// No child stands before its parent.
pub proof fn lemma_no_children_before(s: Seq<FeedListItemView>, c: int, n: int)
    requires
        tree_wf(s),
        0 <= c < s.len(),
        s[c] is Category,
        n <= c + 1,
    ensures
        children_below(s, c, n) == Seq::<usize>::empty(),
    decreases n,
{
    if n > 0 {
        lemma_no_children_before(s, c, n - 1);
        lemma_child_is_one_deeper(s, c, n - 1);
    }
}

/// No child stands behind the end of its parent's run.
pub proof fn lemma_no_children_after(s: Seq<FeedListItemView>, c: int, end: int, n: int)
    requires
        tree_wf(s),
        0 <= c < end <= n <= s.len(),
        s[c] is Category,
        end < s.len() ==> s[end].level() <= s[c].level(),
    ensures
        children_below(s, c, n) == children_below(s, c, end),
    decreases n,
{
    if n > end {
        lemma_no_children_after(s, c, end, n - 1);
        lemma_child_is_one_deeper(s, c, n - 1);
        if in_subtree(s, c, n - 1) {
            assert(s[end].level() > s[c].level());
        }
    }
}

/// None of the first `n` nodes descends from `c` where `n` is at most one
/// more than `c`: a descendant stands behind its ancestor.
pub proof fn lemma_none_below_before(s: Seq<FeedListItemView>, c: int, n: int)
    requires
        tree_wf(s),
        0 <= c < s.len(),
        n <= c + 1,
    ensures
        feeds_below(s, c, n) == Seq::<Seq<char>>::empty(),
        categories_below(s, c, n) == Seq::<Seq<char>>::empty(),
    decreases n,
{
    if n > 0 {
        lemma_none_below_before(s, c, n - 1);
        lemma_descends_is_subtree(s, c, n - 1);
    }
}

/// Behind the end of the run that follows `c`, nothing descends from `c`.
pub proof fn lemma_none_below_after(s: Seq<FeedListItemView>, c: int, end: int, n: int)
    requires
        tree_wf(s),
        0 <= c < end <= n <= s.len(),
        end < s.len() ==> s[end].level() <= s[c].level(),
    ensures
        feeds_below(s, c, n) == feeds_below(s, c, end),
        categories_below(s, c, n) == categories_below(s, c, end),
    decreases n,
{
    if n > end {
        lemma_none_below_after(s, c, end, n - 1);
        lemma_descends_is_subtree(s, c, n - 1);
        if in_subtree(s, c, n - 1) {
            assert(s[end].level() > s[c].level());
        }
    }
}

/// A collapsed category hides everything that descends from it, however
/// deep and whatever the categories between are set to.
pub proof fn lemma_collapsed_hides(s: Seq<FeedListItemView>, c: int, k: int)
    requires
        0 <= c < s.len(),
        descends(s, k, c),
        !s[c].is_open(),
    ensures
        !visible(s, k),
{
}

/// A root is always visible.
pub proof fn lemma_root_visible(s: Seq<FeedListItemView>, k: int)
    requires
        0 <= k < s.len(),
        s[k].parent() is None,
    ensures
        visible(s, k),
{
}

/// Every node between `c` and `k` is deeper than `c`: after the first `k`
/// nodes, the run that follows `c` is still open.
pub open spec fn open_path(s: Seq<FeedListItemView>, c: int, k: int) -> bool {
    &&& 0 <= c < k
    &&& forall|m: int| c < m < k ==> (#[trigger] s[m]).level() > s[c].level()
}

/// What a walk through the display order knows before node `k`. With
/// nothing hidden, every node whose run is still open is itself open.
/// Else the walk is inside the run of the collapsed category `q`, which
/// is visible itself and whose depth is the one remembered.
pub open spec fn scan_state(s: Seq<FeedListItemView>, k: int, hidden: Option<usize>, q: int) -> bool {
    match hidden {
        None => forall|c: int| #[trigger] open_path(s, c, k) ==> s[c].is_open(),
        Some(level) => {
            &&& 0 <= q < k
            &&& s[q].level() == level
            &&& !s[q].is_open()
            &&& forall|m: int| q < m < k ==> (#[trigger] s[m]).level() > level
            &&& forall|c: int| #[trigger] in_subtree(s, c, q) ==> s[c].is_open()
        },
    }
}

/// Whether the walk shows node `k`: nothing is hidden, or the node is not
/// deeper than the collapsed category.
pub open spec fn scan_shows(s: Seq<FeedListItemView>, k: int, hidden: Option<usize>) -> bool {
    match hidden {
        None => true,
        Some(level) => s[k].level() <= level,
    }
}

/// What the walk remembers behind node `k`.
pub open spec fn scan_next(s: Seq<FeedListItemView>, k: int, hidden: Option<usize>) -> Option<
    usize,
> {
    if scan_shows(s, k, hidden) {
        if s[k].is_open() {
            None
        } else {
            Some(s[k].level() as usize)
        }
    } else {
        hidden
    }
}

/// The walk shows exactly the visible nodes, and what it remembers behind
/// a node is right again.
pub proof fn lemma_scan_step(s: Seq<FeedListItemView>, k: int, hidden: Option<usize>, q: int)
    requires
        tree_wf(s),
        0 <= k < s.len(),
        s[k].level() <= usize::MAX,
        scan_state(s, k, hidden, q),
    ensures
        scan_shows(s, k, hidden) == visible(s, k),
        scan_state(
            s,
            k + 1,
            scan_next(s, k, hidden),
            if scan_shows(s, k, hidden) && !s[k].is_open() {
                k
            } else {
                q
            },
        ),
{
    lemma_visible_is_open_path(s, k);
    lemma_level_bound(s, k);
    match hidden {
        None => {
            assert forall|c: int| #[trigger] in_subtree(s, c, k) implies s[c].is_open() by {
                assert(open_path(s, c, k));
            }
            if s[k].is_open() {
                assert forall|c: int| #[trigger] open_path(s, c, k + 1) implies s[c].is_open() by {
                    if c < k {
                        assert(open_path(s, c, k));
                    }
                }
            }
        },
        Some(level) => {
            if s[k].level() > level {
                assert(in_subtree(s, q, k));
            } else {
                assert forall|c: int| #[trigger] in_subtree(s, c, k) implies s[c].is_open() by {
                    if c > q {
                        assert(s[c].level() > level);
                        assert(s[k].level() > s[c].level());
                    } else if c == q {
                        assert(s[k].level() > s[q].level());
                    } else {
                        assert(in_subtree(s, c, q));
                    }
                }
                if s[k].is_open() {
                    assert forall|c: int| #[trigger] open_path(s, c, k + 1) implies s[c].is_open() by {
                        if c < k {
                            assert(in_subtree(s, c, k));
                        }
                    }
                }
            }
        },
    }
}

} // verus!
