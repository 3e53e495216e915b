//! What the difference of two feed lists is, what it does to the rows of
//! a displayed list, and the laws that connect the two.

use super::category::FeedListCategoryModelView;
use super::change_set::{FeedListChangeSet, FeedListChangeSetView};
use super::item::{FeedListItemView, NodeKey};
use super::structure::{distinct_keys, has_key, index_of_key, lemma_key_index};
use super::visibility::{same_shape, visible};
use vstd::prelude::*;

verus! {

/// The values of a sequence of edits.
pub open spec fn change_views(s: Seq<FeedListChangeSet>) -> Seq<FeedListChangeSetView> {
    s.map_values(|c: FeedListChangeSet| c@)
}

/// A node of the new tree with the user's choice carried over: a category
/// that the old tree holds is expanded or collapsed as it is there.
pub open spec fn carried(old: Seq<FeedListItemView>, item: FeedListItemView) -> FeedListItemView {
    match item {
        FeedListItemView::Category(c) => if has_key(old, NodeKey::Category(c.id)) {
            FeedListItemView::Category(
                FeedListCategoryModelView {
                    expanded: old[index_of_key(old, NodeKey::Category(c.id))].is_open(),
                    ..c
                },
            )
        } else {
            item
        },
        FeedListItemView::Feed(_) => item,
    }
}

/// The new tree with the user's choices carried over from the old one.
pub open spec fn carry_expanded(old: Seq<FeedListItemView>, new: Seq<FeedListItemView>) -> Seq<
    FeedListItemView,
> {
    new.map_values(|item: FeedListItemView| carried(old, item))
}

/// The edit that removes the row of a node.
pub open spec fn removal_of(item: FeedListItemView) -> FeedListChangeSetView {
    match item {
        FeedListItemView::Category(c) => FeedListChangeSetView::RemoveCategory(c.id),
        FeedListItemView::Feed(f) => FeedListChangeSetView::RemoveFeed(f.id),
    }
}

/// The edit that inserts a row for a node.
pub open spec fn addition_of(item: FeedListItemView, pos: int, shown: bool) -> FeedListChangeSetView {
    match item {
        FeedListItemView::Category(c) => FeedListChangeSetView::AddCategory(c, pos, shown),
        FeedListItemView::Feed(f) => FeedListChangeSetView::AddFeed(f, pos, shown),
    }
}

/// The edit that shows a node's row with the node's count.
pub open spec fn count_update_of(item: FeedListItemView) -> FeedListChangeSetView {
    match item {
        FeedListItemView::Category(c) => FeedListChangeSetView::CategoryUpdateItemCount(
            c.id,
            c.item_count,
        ),
        FeedListItemView::Feed(f) => FeedListChangeSetView::FeedUpdateItemCount(f.id, f.item_count),
    }
}

/// The edit that shows a node's row with the node's label.
pub open spec fn label_update_of(item: FeedListItemView) -> FeedListChangeSetView {
    match item {
        FeedListItemView::Category(c) => FeedListChangeSetView::CategoryUpdateLabel(c.id, c.label),
        FeedListItemView::Feed(f) => FeedListChangeSetView::FeedUpdateLabel(f.id, f.label),
    }
}

/// The edits that bring the row of a surviving node up to date: the count
/// first, then the label, each only where it differs.
pub open spec fn updates_of(old: FeedListItemView, new: FeedListItemView) -> Seq<
    FeedListChangeSetView,
> {
    let count = if new.item_count() != old.item_count() {
        seq![count_update_of(new)]
    } else {
        Seq::empty()
    };
    let label = if new.label() != old.label() {
        seq![label_update_of(new)]
    } else {
        Seq::empty()
    };
    count + label
}

/// The removals for the first `n` nodes of `old`: one for each whose
/// identity `new` does not hold, in display order.
pub open spec fn removals(old: Seq<FeedListItemView>, new: Seq<FeedListItemView>, n: int) -> Seq<
    FeedListChangeSetView,
>
    decreases n,
{
    if n <= 0 {
        Seq::empty()
    } else {
        let rest = removals(old, new, n - 1);
        if has_key(new, old[n - 1].key()) {
            rest
        } else {
            rest.push(removal_of(old[n - 1]))
        }
    }
}

/// The edits for the first `n` nodes of `new`, in display order: a node
/// whose identity `old` does not hold is added at its display index,
/// shown if it is visible in `new`; a surviving node is brought up to
/// date.
pub open spec fn additions(old: Seq<FeedListItemView>, new: Seq<FeedListItemView>, n: int) -> Seq<
    FeedListChangeSetView,
>
    decreases n,
{
    if n <= 0 {
        Seq::empty()
    } else {
        let rest = additions(old, new, n - 1);
        let item = new[n - 1];
        if has_key(old, item.key()) {
            rest + updates_of(old[index_of_key(old, item.key())], item)
        } else {
            rest.push(addition_of(item, n - 1, visible(new, n - 1)))
        }
    }
}

/// The edits that turn the rows of `old` into those of `new`: first the
/// removals, then the additions and updates.
pub open spec fn tree_diff(old: Seq<FeedListItemView>, new: Seq<FeedListItemView>) -> Seq<
    FeedListChangeSetView,
> {
    removals(old, new, old.len() as int) + additions(old, new, new.len() as int)
}

/// What a row shows of a node besides its place: the count and the
/// label.
pub struct RowView {
    pub item_count: i64,
    pub label: Seq<char>,
}

/// What the row of a node shows.
pub open spec fn row_of(item: FeedListItemView) -> RowView {
    RowView { item_count: item.item_count(), label: item.label() }
}

/// The rows of a displayed tree, by the identity of their node.
pub open spec fn rows_of(s: Seq<FeedListItemView>) -> Map<NodeKey, RowView> {
    Map::new(|key: NodeKey| has_key(s, key), |key: NodeKey| row_of(s[index_of_key(s, key)]))
}

/// A row with another count, where there is such a row.
pub open spec fn with_count(rows: Map<NodeKey, RowView>, key: NodeKey, item_count: i64) -> Map<
    NodeKey,
    RowView,
> {
    if rows.contains_key(key) {
        rows.insert(key, RowView { item_count, ..rows[key] })
    } else {
        rows
    }
}

/// A row with another label, where there is such a row.
pub open spec fn with_label(rows: Map<NodeKey, RowView>, key: NodeKey, label: Seq<char>) -> Map<
    NodeKey,
    RowView,
> {
    if rows.contains_key(key) {
        rows.insert(key, RowView { label, ..rows[key] })
    } else {
        rows
    }
}

/// What one edit does to the rows, which are found by identity.
pub open spec fn apply_change(rows: Map<NodeKey, RowView>, change: FeedListChangeSetView) -> Map<
    NodeKey,
    RowView,
> {
    match change {
        FeedListChangeSetView::RemoveFeed(id) => rows.remove(NodeKey::Feed(id)),
        FeedListChangeSetView::RemoveCategory(id) => rows.remove(NodeKey::Category(id)),
        FeedListChangeSetView::AddFeed(f, _, _) => rows.insert(
            NodeKey::Feed(f.id),
            RowView { item_count: f.item_count, label: f.label },
        ),
        FeedListChangeSetView::AddCategory(c, _, _) => rows.insert(
            NodeKey::Category(c.id),
            RowView { item_count: c.item_count, label: c.label },
        ),
        FeedListChangeSetView::FeedUpdateItemCount(id, n) => with_count(rows, NodeKey::Feed(id), n),
        FeedListChangeSetView::CategoryUpdateItemCount(id, n) => with_count(
            rows,
            NodeKey::Category(id),
            n,
        ),
        FeedListChangeSetView::FeedUpdateLabel(id, label) => with_label(
            rows,
            NodeKey::Feed(id),
            label,
        ),
        FeedListChangeSetView::CategoryUpdateLabel(id, label) => with_label(
            rows,
            NodeKey::Category(id),
            label,
        ),
    }
}

/// What a sequence of edits does to the rows, applied in order.
pub open spec fn apply_changes(rows: Map<NodeKey, RowView>, changes: Seq<FeedListChangeSetView>) -> Map<
    NodeKey,
    RowView,
>
    decreases changes.len(),
{
    if changes.len() == 0 {
        rows
    } else {
        apply_change(apply_changes(rows, changes.drop_last()), changes.last())
    }
}

/// Applying `a + b` is applying `a`, then `b`.
pub proof fn lemma_apply_concat(
    rows: Map<NodeKey, RowView>,
    a: Seq<FeedListChangeSetView>,
    b: Seq<FeedListChangeSetView>,
)
    ensures
        apply_changes(rows, a + b) == apply_changes(apply_changes(rows, a), b),
    decreases b.len(),
{
    if b.len() == 0 {
        assert(a + b =~= a);
    } else {
        assert((a + b).drop_last() =~= a + b.drop_last());
        assert((a + b).last() == b.last());
        lemma_apply_concat(rows, a, b.drop_last());
    }
}

/// The rows while the removals are under way: of the first `n` nodes of
/// `old` only those are left that `new` holds too.
spec fn rows_after_removals(
    old: Seq<FeedListItemView>,
    new: Seq<FeedListItemView>,
    n: int,
) -> Map<NodeKey, RowView> {
    Map::new(
        |key: NodeKey| has_key(old, key) && (has_key(new, key) || index_of_key(old, key) >= n),
        |key: NodeKey| row_of(old[index_of_key(old, key)]),
    )
}

/// The rows while the additions are under way: the first `n` nodes of
/// `new` are as `new` has them; of the others those are there that `old`
/// holds, as `old` has them.
spec fn rows_after_additions(
    old: Seq<FeedListItemView>,
    new: Seq<FeedListItemView>,
    n: int,
) -> Map<NodeKey, RowView> {
    Map::new(
        |key: NodeKey| has_key(new, key) && (has_key(old, key) || index_of_key(new, key) < n),
        |key: NodeKey|
            if index_of_key(new, key) < n {
                row_of(new[index_of_key(new, key)])
            } else {
                row_of(old[index_of_key(old, key)])
            },
    )
}

proof fn lemma_removals_applied(old: Seq<FeedListItemView>, new: Seq<FeedListItemView>, n: int)
    requires
        distinct_keys(old),
        0 <= n <= old.len(),
    ensures
        apply_changes(rows_of(old), removals(old, new, n)) == rows_after_removals(old, new, n),
    decreases n,
{
    if n == 0 {
        assert(rows_of(old) =~= rows_after_removals(old, new, 0)) by {
            assert forall|key: NodeKey| has_key(old, key) implies index_of_key(old, key) >= 0 by {}
        }
    } else {
        lemma_removals_applied(old, new, n - 1);
        let item = old[n - 1];
        let before = rows_after_removals(old, new, n - 1);
        let after = rows_after_removals(old, new, n);
        lemma_key_index(old, n - 1);
        if has_key(new, item.key()) {
            assert(before =~= after);
        } else {
            let rest = removals(old, new, n - 1);
            assert(rest.push(removal_of(item)).drop_last() =~= rest);
            assert(removal_of(item) == match item {
                FeedListItemView::Category(c) => FeedListChangeSetView::RemoveCategory(c.id),
                FeedListItemView::Feed(f) => FeedListChangeSetView::RemoveFeed(f.id),
            });
            assert(apply_change(before, removal_of(item)) == before.remove(item.key()));
            assert(before.remove(item.key()) =~= after) by {
                assert forall|key: NodeKey| has_key(old, key) && key != item.key() implies index_of_key(
                    old,
                    key,
                ) != n - 1 by {
                    assert(old[index_of_key(old, key)].key() == key);
                }
            }
        }
    }
}

proof fn lemma_additions_applied(old: Seq<FeedListItemView>, new: Seq<FeedListItemView>, n: int)
    requires
        distinct_keys(old),
        distinct_keys(new),
        0 <= n <= new.len(),
    ensures
        apply_changes(rows_after_removals(old, new, old.len() as int), additions(old, new, n))
            == rows_after_additions(old, new, n),
    decreases n,
{
    let base = rows_after_removals(old, new, old.len() as int);
    if n == 0 {
        assert(base =~= rows_after_additions(old, new, 0)) by {
            assert forall|key: NodeKey| has_key(old, key) implies index_of_key(old, key)
                < old.len() by {}
            assert forall|key: NodeKey| has_key(new, key) implies index_of_key(new, key) >= 0 by {}
        }
    } else {
        lemma_additions_applied(old, new, n - 1);
        let item = new[n - 1];
        let key = item.key();
        let rest = additions(old, new, n - 1);
        let before = rows_after_additions(old, new, n - 1);
        let after = rows_after_additions(old, new, n);
        lemma_key_index(new, n - 1);
        assert forall|other: NodeKey| has_key(new, other) && other != key implies index_of_key(
            new,
            other,
        ) != n - 1 by {
            assert(new[index_of_key(new, other)].key() == other);
        }
        if has_key(old, key) {
            let was = old[index_of_key(old, key)];
            assert(was.key() == key);
            lemma_apply_concat(base, rest, updates_of(was, item));
            let count = if item.item_count() != was.item_count() {
                seq![count_update_of(item)]
            } else {
                Seq::empty()
            };
            let label = if item.label() != was.label() {
                seq![label_update_of(item)]
            } else {
                Seq::empty()
            };
            lemma_apply_concat(before, count, label);
            assert(before.contains_key(key));
            assert(before[key] == row_of(was));
            let mid = if item.item_count() != was.item_count() {
                before.insert(key, RowView { item_count: item.item_count(), label: was.label() })
            } else {
                before
            };
            assert(apply_changes(before, count) == mid) by {
                if item.item_count() != was.item_count() {
                    assert(count.drop_last() =~= Seq::empty());
                    assert(apply_changes(before, count.drop_last()) == before);
                    assert(count.last() == count_update_of(item));
                    assert(apply_change(before, count_update_of(item)) == with_count(
                        before,
                        key,
                        item.item_count(),
                    ));
                }
            }
            assert(apply_changes(mid, label) =~= after) by {
                if item.label() != was.label() {
                    assert(label.drop_last() =~= Seq::empty());
                    assert(apply_changes(mid, label.drop_last()) == mid);
                    assert(label.last() == label_update_of(item));
                    assert(apply_change(mid, label_update_of(item)) == with_label(
                        mid,
                        key,
                        item.label(),
                    ));
                }
            }
        } else {
            let change = addition_of(item, n - 1, visible(new, n - 1));
            assert(rest.push(change).drop_last() =~= rest);
            assert(apply_change(before, change) == before.insert(key, row_of(item)));
            assert(before.insert(key, row_of(item)) =~= after);
        }
    }
}

/// Completeness of the difference: applying the edits to the rows of
/// `old`, found by identity, leaves exactly the rows of the nodes of
/// `new`, each with the count and the label that `new` holds.
pub proof fn lemma_diff_complete(old: Seq<FeedListItemView>, new: Seq<FeedListItemView>)
    requires
        distinct_keys(old),
        distinct_keys(new),
    ensures
        apply_changes(rows_of(old), tree_diff(old, new)) == rows_of(new),
{
    lemma_removals_applied(old, new, old.len() as int);
    lemma_additions_applied(old, new, new.len() as int);
    lemma_apply_concat(
        rows_of(old),
        removals(old, new, old.len() as int),
        additions(old, new, new.len() as int),
    );
    assert(rows_after_additions(old, new, new.len() as int) =~= rows_of(new)) by {
        assert forall|key: NodeKey| has_key(new, key) implies index_of_key(new, key)
            < new.len() by {}
    }
}

proof fn lemma_no_removals(s: Seq<FeedListItemView>, n: int)
    requires
        0 <= n <= s.len(),
    ensures
        removals(s, s, n) == Seq::<FeedListChangeSetView>::empty(),
    decreases n,
{
    if n > 0 {
        lemma_no_removals(s, n - 1);
        assert(s[n - 1].key() == s[n - 1].key());
    }
}

proof fn lemma_no_additions(s: Seq<FeedListItemView>, n: int)
    requires
        distinct_keys(s),
        0 <= n <= s.len(),
    ensures
        additions(s, s, n) == Seq::<FeedListChangeSetView>::empty(),
    decreases n,
{
    if n > 0 {
        lemma_no_additions(s, n - 1);
        lemma_key_index(s, n - 1);
        assert(updates_of(s[n - 1], s[n - 1]) =~= Seq::empty());
        assert(additions(s, s, n - 1) + updates_of(s[n - 1], s[n - 1]) =~= Seq::empty());
    }
}

/// The difference of a tree and an identical copy of it is empty.
pub proof fn lemma_diff_of_same(s: Seq<FeedListItemView>)
    requires
        distinct_keys(s),
    ensures
        tree_diff(s, s) == Seq::<FeedListChangeSetView>::empty(),
{
    lemma_no_removals(s, s.len() as int);
    lemma_no_additions(s, s.len() as int);
    assert(removals(s, s, s.len() as int) + additions(s, s, s.len() as int) =~= Seq::empty());
}

/// Carrying a tree's choices over into an identical copy changes
/// nothing.
pub proof fn lemma_carry_of_same(s: Seq<FeedListItemView>)
    requires
        distinct_keys(s),
    ensures
        carry_expanded(s, s) == s,
{
    assert forall|k: int| 0 <= k < s.len() implies carried(s, s[k]) == s[k] by {
        lemma_key_index(s, k);
    }
    assert(carry_expanded(s, s) =~= s);
}

/// Carrying the choices over keeps every node of the new tree in its
/// place and changes nothing of it but whether a category is expanded: a
/// category that the old tree holds is expanded exactly if it is there;
/// every other node stays as it is.
pub proof fn lemma_carry_preserves_choice(
    old: Seq<FeedListItemView>,
    new: Seq<FeedListItemView>,
    k: int,
)
    requires
        0 <= k < new.len(),
    ensures
        same_shape(new, carry_expanded(old, new)),
        carry_expanded(old, new)[k].item_count() == new[k].item_count(),
        carry_expanded(old, new)[k].label() == new[k].label(),
        new[k] is Category && has_key(old, new[k].key()) ==> carry_expanded(old, new)[k].is_open()
            == old[index_of_key(old, new[k].key())].is_open(),
        !(new[k] is Category && has_key(old, new[k].key())) ==> carry_expanded(old, new)[k]
            == new[k],
{
}

} // verus!
