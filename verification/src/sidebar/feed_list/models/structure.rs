//! The shape of a feed list: the nodes stand in display order, a category
//! before its children, and each node's depth and declared parent agree
//! with where it stands.

use super::item::{FeedListItemView, NodeKey};
use vstd::prelude::*;

verus! {

/// Every node strictly between `a` and `b` is at least `level` deep.
pub open spec fn no_lower_between(s: Seq<FeedListItemView>, a: int, b: int, level: int) -> bool {
    forall|m: int| a < m < b ==> (#[trigger] s[m]).level() >= level
}

/// Node `p` is the parent of node `k`: the category that `k` declares, one
/// level up, with nothing shallower than `k` between the two.
pub open spec fn parent_at(s: Seq<FeedListItemView>, k: int, p: int) -> bool {
    &&& 0 <= p < k
    &&& s[p] is Category
    &&& s[p].level() + 1 == s[k].level()
    &&& s[k].parent() == Some(s[p].id())
    &&& no_lower_between(s, p, k, s[k].level())
}

/// Node `k` stands where it belongs: at the root if it is a category
/// without a parent, else below its parent.
pub open spec fn placed(s: Seq<FeedListItemView>, k: int) -> bool {
    if s[k].level() == 0 {
        s[k] is Category && s[k].parent() is None
    } else {
        s[k].level() > 0 && exists|p: int| parent_at(s, k, p)
    }
}

/// No two nodes share an identity.
pub open spec fn distinct_keys(s: Seq<FeedListItemView>) -> bool {
    forall|a: int, b: int|
        0 <= a < b < s.len() ==> (#[trigger] s[a]).key() != (#[trigger] s[b]).key()
}

/// Nodes `a` and `b` are children of one parent, `a` first.
pub open spec fn siblings(s: Seq<FeedListItemView>, a: int, b: int) -> bool {
    &&& 0 <= a < b < s.len()
    &&& s[a].level() == s[b].level()
    &&& no_lower_between(s, a, b, s[a].level())
}

/// Among the children of one parent the sort index never falls.
pub open spec fn siblings_ordered(s: Seq<FeedListItemView>) -> bool {
    forall|a: int, b: int| #[trigger] siblings(s, a, b) ==> s[a].sort_index() <= s[b].sort_index()
}

/// The invariant of the display order.
pub open spec fn tree_wf(s: Seq<FeedListItemView>) -> bool {
    &&& forall|k: int| 0 <= k < s.len() ==> #[trigger] placed(s, k)
    &&& distinct_keys(s)
    &&& siblings_ordered(s)
}

/// Whether some node has the identity.
pub open spec fn has_key(s: Seq<FeedListItemView>, key: NodeKey) -> bool {
    exists|k: int| 0 <= k < s.len() && (#[trigger] s[k]).key() == key
}

/// The index of the node with the identity.
pub open spec fn index_of_key(s: Seq<FeedListItemView>, key: NodeKey) -> int {
    choose|k: int| 0 <= k < s.len() && (#[trigger] s[k]).key() == key
}

/// Among nodes of distinct identities, the identity of node `k` is found
/// at `k`.
pub proof fn lemma_key_index(s: Seq<FeedListItemView>, k: int)
    requires
        distinct_keys(s),
        0 <= k < s.len(),
    ensures
        has_key(s, s[k].key()),
        index_of_key(s, s[k].key()) == k,
{
    let key = s[k].key();
    assert(s[k].key() == key);
    let found = index_of_key(s, key);
    if found < k {
        assert(s[found].key() != s[k].key());
    } else if k < found {
        assert(s[k].key() != s[found].key());
    }
}

/// No node is deeper than its index: a child stands behind its parent.
pub proof fn lemma_level_bound(s: Seq<FeedListItemView>, k: int)
    requires
        tree_wf(s),
        0 <= k < s.len(),
    ensures
        0 <= s[k].level() <= k,
    decreases k,
{
    assert(placed(s, k));
    if s[k].level() != 0 {
        let p = choose|p: int| parent_at(s, k, p);
        lemma_level_bound(s, p);
    }
}

/// Whether the parent that a node declares is there: a root declares
/// none.
pub open spec fn parent_present(s: Seq<FeedListItemView>, parent: Option<Seq<char>>) -> bool {
    match parent {
        None => true,
        Some(id) => has_key(s, NodeKey::Category(id)),
    }
}

/// The first index behind the declared parent; 0 for a root.
pub open spec fn start_below(s: Seq<FeedListItemView>, parent: Option<Seq<char>>) -> int {
    match parent {
        None => 0,
        Some(id) => index_of_key(s, NodeKey::Category(id)) + 1,
    }
}

/// The depth of a child of the declared parent; 0 for a root.
pub open spec fn level_below(s: Seq<FeedListItemView>, parent: Option<Seq<char>>) -> int {
    match parent {
        None => 0,
        Some(id) => s[index_of_key(s, NodeKey::Category(id))].level() + 1,
    }
}

/// Where a new child of the declared parent goes: behind its siblings of
/// the same or a smaller sort index and all that stands below them.
pub open spec fn slot_below(
    s: Seq<FeedListItemView>,
    parent: Option<Seq<char>>,
    sort_index: i32,
) -> int {
    slot(s, start_below(s, parent), level_below(s, parent), sort_index)
}

/// Where a node of the given depth and sort index goes when the search
/// starts at `from`: before the first node that is shallower, or as deep
/// with a greater sort index; at the end if there is none.
pub open spec fn slot(s: Seq<FeedListItemView>, from: int, level: int, sort_index: i32) -> int
    decreases s.len() - from,
{
    if from < 0 || from >= s.len() {
        s.len() as int
    } else if s[from].level() < level || (s[from].level() == level && s[from].sort_index()
        > sort_index) {
        from
    } else {
        slot(s, from + 1, level, sort_index)
    }
}

/// Where a new node `x` may be inserted: `start` is the first index behind
/// its parent (0 for a root), and `at` is its slot from there.
pub open spec fn fits(s: Seq<FeedListItemView>, start: int, at: int, x: FeedListItemView) -> bool {
    &&& 0 <= start <= at <= s.len()
    &&& forall|m: int|
        start <= m < at ==> (#[trigger] s[m]).level() >= x.level() && (s[m].level() == x.level()
            ==> s[m].sort_index() <= x.sort_index())
    &&& at < s.len() ==> s[at].level() < x.level() || (s[at].level() == x.level()
        && s[at].sort_index() > x.sort_index())
    &&& x.level() >= 0
    &&& x.level() == 0 ==> start == 0 && x is Category && x.parent() is None
    &&& x.level() > 0 ==> {
        &&& start >= 1
        &&& s[start - 1] is Category
        &&& s[start - 1].level() + 1 == x.level()
        &&& x.parent() == Some(s[start - 1].id())
    }
}

/// The slot lies at or behind the start, every node passed on the way is
/// at least as deep and, where as deep, sorts no later; the node at the
/// slot ends the run.
pub proof fn lemma_slot(s: Seq<FeedListItemView>, from: int, level: int, sort_index: i32)
    requires
        0 <= from <= s.len(),
    ensures
        from <= slot(s, from, level, sort_index) <= s.len(),
        forall|m: int|
            from <= m < slot(s, from, level, sort_index) ==> (#[trigger] s[m]).level() >= level && (
            s[m].level() == level ==> s[m].sort_index() <= sort_index),
        slot(s, from, level, sort_index) < s.len() ==> {
            let at = slot(s, from, level, sort_index);
            s[at].level() < level || (s[at].level() == level && s[at].sort_index() > sort_index)
        },
    decreases s.len() - from,
{
    if from < s.len() && !(s[from].level() < level || (s[from].level() == level
        && s[from].sort_index() > sort_index)) {
        lemma_slot(s, from + 1, level, sort_index);
    }
}

/// Inserting a node where it fits keeps every node where it belongs.
proof fn lemma_insert_placed(s: Seq<FeedListItemView>, start: int, at: int, x: FeedListItemView)
    requires
        forall|k: int| 0 <= k < s.len() ==> #[trigger] placed(s, k),
        fits(s, start, at, x),
    ensures
        forall|k: int| 0 <= k < s.len() + 1 ==> #[trigger] placed(s.insert(at, x), k),
{
    let t = s.insert(at, x);
    assert forall|k: int| 0 <= k < t.len() implies #[trigger] placed(t, k) by {
        if k < at {
            assert(t[k] == s[k]);
            assert(placed(s, k));
            if s[k].level() != 0 {
                let p = choose|p: int| parent_at(s, k, p);
                assert(t[p] == s[p]);
                assert forall|m: int| p < m < k implies (#[trigger] t[m]).level() >= t[k].level() by {
                    assert(t[m] == s[m]);
                }
                assert(parent_at(t, k, p));
            }
        } else if k == at {
            assert(t[k] == x);
            if x.level() > 0 {
                let p = start - 1;
                assert(t[p] == s[p]);
                assert forall|m: int| p < m < k implies (#[trigger] t[m]).level() >= t[k].level() by {
                    assert(t[m] == s[m]);
                }
                assert(parent_at(t, k, p));
            }
        } else {
            let ok = k - 1;
            assert(t[k] == s[ok]);
            assert(placed(s, ok));
            if s[ok].level() != 0 {
                let p = choose|p: int| parent_at(s, ok, p);
                if p >= at {
                    assert(t[p + 1] == s[p]);
                    assert forall|m: int| p + 1 < m < k implies (#[trigger] t[m]).level()
                        >= t[k].level() by {
                        assert(t[m] == s[m - 1]);
                    }
                    assert(parent_at(t, k, p + 1));
                } else {
                    assert(t[p] == s[p]);
                    assert(x.level() >= s[ok].level()) by {
                        if ok > at {
                            assert(s[at].level() >= s[ok].level());
                        }
                    }
                    assert forall|m: int| p < m < k implies (#[trigger] t[m]).level()
                        >= t[k].level() by {
                        if m < at {
                            assert(t[m] == s[m]);
                        } else if m > at {
                            assert(t[m] == s[m - 1]);
                        }
                    }
                    assert(parent_at(t, k, p));
                }
            }
        }
    }
}

/// Inserting a node of a new identity keeps the identities distinct.
proof fn lemma_insert_distinct(s: Seq<FeedListItemView>, at: int, x: FeedListItemView)
    requires
        distinct_keys(s),
        0 <= at <= s.len(),
        !has_key(s, x.key()),
    ensures
        distinct_keys(s.insert(at, x)),
{
    let t = s.insert(at, x);
    assert forall|a: int, b: int| 0 <= a < b < t.len() implies (#[trigger] t[a]).key() != (
    #[trigger] t[b]).key() by {
        let oa = if a < at { a } else { a - 1 };
        let ob = if b < at { b } else { b - 1 };
        if a == at {
            assert(t[b] == s[ob]);
            assert(s[ob].key() != x.key());
        } else if b == at {
            assert(t[a] == s[oa]);
            assert(s[oa].key() != x.key());
        } else {
            assert(t[a] == s[oa] && t[b] == s[ob]);
        }
    }
}

/// Inserting a node where it fits keeps the children of every parent in
/// the order of their sort index.
proof fn lemma_insert_ordered(s: Seq<FeedListItemView>, start: int, at: int, x: FeedListItemView)
    requires
        siblings_ordered(s),
        fits(s, start, at, x),
    ensures
        siblings_ordered(s.insert(at, x)),
{
    let t = s.insert(at, x);
    assert forall|a: int, b: int| #[trigger] siblings(t, a, b) implies t[a].sort_index()
        <= t[b].sort_index() by {
        let oa = if a < at { a } else { a - 1 };
        let ob = if b < at { b } else { b - 1 };
        if b == at {
            assert(t[a] == s[a]);
            if a < start {
                if a < start - 1 {
                    assert(t[start - 1] == s[start - 1]);
                    assert(t[start - 1].level() >= t[a].level());
                }
            }
        } else if a == at {
            assert(t[b] == s[ob]);
            if ob > at {
                assert(t[at + 1] == s[at]);
                assert(t[at + 1].level() >= x.level());
                assert(siblings(s, at, ob)) by {
                    assert forall|m: int| at < m < ob implies (#[trigger] s[m]).level()
                        >= s[at].level() by {
                        assert(t[m + 1] == s[m]);
                    }
                }
            }
        } else {
            assert(t[a] == s[oa] && t[b] == s[ob]);
            assert(siblings(s, oa, ob)) by {
                assert forall|m: int| oa < m < ob implies (#[trigger] s[m]).level()
                    >= s[oa].level() by {
                    let tm = if m < at { m } else { m + 1 };
                    assert(t[tm] == s[m]);
                }
            }
        }
    }
}

/// Inserting a node of a new identity where it fits keeps the invariant.
pub proof fn lemma_insert_keeps_wf(
    s: Seq<FeedListItemView>,
    start: int,
    at: int,
    x: FeedListItemView,
)
    requires
        tree_wf(s),
        fits(s, start, at, x),
        !has_key(s, x.key()),
    ensures
        tree_wf(s.insert(at, x)),
{
    lemma_insert_placed(s, start, at, x);
    lemma_insert_distinct(s, at, x);
    lemma_insert_ordered(s, start, at, x);
}

} // verus!
