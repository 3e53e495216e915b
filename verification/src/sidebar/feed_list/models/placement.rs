//! What the difference of two feed lists does to the order of the rows:
//! where the surviving nodes keep their order, removing and inserting
//! rows as the edits say leaves the rows in the display order of the new
//! tree.

use super::change_set::FeedListChangeSetView;
use super::diff::{addition_of, additions, removal_of, removals, tree_diff, updates_of};
use super::item::{FeedListItemView, NodeKey};
use super::structure::{distinct_keys, has_key, index_of_key};
use super::visibility::visible;
use vstd::prelude::*;

verus! {

/// The identities of a sequence of nodes.
pub open spec fn keys_of(s: Seq<FeedListItemView>) -> Seq<NodeKey> {
    s.map_values(|item: FeedListItemView| item.key())
}

/// The index of the first row from `from` on that shows the identity; the
/// number of rows where none does.
pub open spec fn first_row(rows: Seq<NodeKey>, key: NodeKey, from: int) -> int
    decreases rows.len() - from,
{
    if from < 0 || from >= rows.len() {
        rows.len() as int
    } else if rows[from] == key {
        from
    } else {
        first_row(rows, key, from + 1)
    }
}

/// The rows without the first that shows the identity.
pub open spec fn without_row(rows: Seq<NodeKey>, key: NodeKey) -> Seq<NodeKey> {
    let at = first_row(rows, key, 0);
    if at < rows.len() {
        rows.remove(at)
    } else {
        rows
    }
}

/// What one edit does to the order of the rows: a removal takes the row
/// of its node away, an addition inserts a row at its position, an update
/// moves nothing.
pub open spec fn place_change(rows: Seq<NodeKey>, change: FeedListChangeSetView) -> Seq<NodeKey> {
    match change {
        FeedListChangeSetView::RemoveFeed(id) => without_row(rows, NodeKey::Feed(id)),
        FeedListChangeSetView::RemoveCategory(id) => without_row(rows, NodeKey::Category(id)),
        FeedListChangeSetView::AddFeed(f, pos, _) => if 0 <= pos <= rows.len() {
            rows.insert(pos, NodeKey::Feed(f.id))
        } else {
            rows
        },
        FeedListChangeSetView::AddCategory(c, pos, _) => if 0 <= pos <= rows.len() {
            rows.insert(pos, NodeKey::Category(c.id))
        } else {
            rows
        },
        _ => rows,
    }
}

/// What a sequence of edits does to the order of the rows, applied in
/// order.
pub open spec fn place_changes(rows: Seq<NodeKey>, changes: Seq<FeedListChangeSetView>) -> Seq<
    NodeKey,
>
    decreases changes.len(),
{
    if changes.len() == 0 {
        rows
    } else {
        place_change(place_changes(rows, changes.drop_last()), changes.last())
    }
}

/// The nodes that both trees hold stand in the same order in both.
#[verifier::opaque]
pub open spec fn survivors_in_order(old: Seq<FeedListItemView>, new: Seq<FeedListItemView>) -> bool {
    forall|a1: int, a2: int, b1: int, b2: int|
        0 <= a1 < a2 < old.len() && 0 <= b1 < new.len() && 0 <= b2 < new.len() && (
        #[trigger] old[a1]).key() == (#[trigger] new[b1]).key() && (#[trigger] old[a2]).key() == (
        #[trigger] new[b2]).key() ==> b1 < b2
}

/// The identities of the nodes of `s` that `other` holds too, in the
/// order of `s`.
pub open spec fn shared(s: Seq<FeedListItemView>, other: Seq<FeedListItemView>) -> Seq<NodeKey>
    decreases s.len(),
{
    if s.len() == 0 {
        Seq::empty()
    } else {
        let rest = shared(s.drop_last(), other);
        if has_key(other, s.last().key()) {
            rest.push(s.last().key())
        } else {
            rest
        }
    }
}

/// Placing `a + b` is placing `a`, then `b`.
pub proof fn lemma_place_concat(
    rows: Seq<NodeKey>,
    a: Seq<FeedListChangeSetView>,
    b: Seq<FeedListChangeSetView>,
)
    ensures
        place_changes(rows, a + b) == place_changes(place_changes(rows, a), b),
    decreases b.len(),
{
    if b.len() == 0 {
        assert(a + b =~= a);
    } else {
        assert((a + b).drop_last() =~= a + b.drop_last());
        assert((a + b).last() == b.last());
        lemma_place_concat(rows, a, b.drop_last());
    }
}

/// Updates move no row.
proof fn lemma_updates_place_nothing(
    rows: Seq<NodeKey>,
    was: FeedListItemView,
    item: FeedListItemView,
)
    ensures
        place_changes(rows, updates_of(was, item)) == rows,
{
    let count = if item.item_count() != was.item_count() {
        seq![super::diff::count_update_of(item)]
    } else {
        Seq::empty()
    };
    let label = if item.label() != was.label() {
        seq![super::diff::label_update_of(item)]
    } else {
        Seq::empty()
    };
    lemma_place_concat(rows, count, label);
    if item.item_count() != was.item_count() {
        lemma_place_one(rows, super::diff::count_update_of(item));
    }
    if item.label() != was.label() {
        lemma_place_one(rows, super::diff::label_update_of(item));
    }
}

/// Placing a single edit.
proof fn lemma_place_one(rows: Seq<NodeKey>, change: FeedListChangeSetView)
    ensures
        place_changes(rows, seq![change]) == place_change(rows, change),
{
    let one = seq![change];
    assert(one.drop_last() =~= Seq::empty());
    assert(place_changes(rows, one.drop_last()) == rows);
    assert(one.last() == change);
}

/// Every shared identity is one of `s`, and one that `other` holds.
proof fn lemma_shared_members(s: Seq<FeedListItemView>, other: Seq<FeedListItemView>, k: int)
    requires
        0 <= k < shared(s, other).len(),
    ensures
        has_key(s, shared(s, other)[k]),
        has_key(other, shared(s, other)[k]),
    decreases s.len(),
{
    if s.len() > 0 {
        let rest = shared(s.drop_last(), other);
        if k < rest.len() {
            lemma_shared_members(s.drop_last(), other, k);
            let key = rest[k];
            let m = index_of_key(s.drop_last(), key);
            assert(s[m].key() == key);
        } else {
            assert(s[s.len() - 1].key() == s.last().key());
        }
    }
}

/// What is shared depends on `other` only through the identities of `s`
/// that it holds.
proof fn lemma_shared_congruent(
    s: Seq<FeedListItemView>,
    other: Seq<FeedListItemView>,
    another: Seq<FeedListItemView>,
)
    requires
        forall|k: int|
            0 <= k < s.len() ==> has_key(other, (#[trigger] s[k]).key()) == has_key(
                another,
                s[k].key(),
            ),
    ensures
        shared(s, other) == shared(s, another),
    decreases s.len(),
{
    if s.len() > 0 {
        let rest = s.drop_last();
        assert forall|k: int| 0 <= k < rest.len() implies has_key(other, (#[trigger] rest[k]).key())
            == has_key(another, rest[k].key()) by {
            assert(rest[k] == s[k]);
        }
        lemma_shared_congruent(rest, other, another);
        assert(s.last() == s[s.len() - 1]);
    }
}

/// What is shared begins with the first node, if it is shared, and goes
/// on with what the rest shares.
proof fn lemma_shared_first(s: Seq<FeedListItemView>, other: Seq<FeedListItemView>)
    requires
        s.len() > 0,
    ensures
        shared(s, other) == if has_key(other, s[0].key()) {
            seq![s[0].key()] + shared(s.drop_first(), other)
        } else {
            shared(s.drop_first(), other)
        },
    decreases s.len(),
{
    if s.len() == 1 {
        assert(s.drop_last() =~= Seq::empty());
        assert(s.drop_first() =~= Seq::empty());
        assert(s.last() == s[0]);
        assert(Seq::<NodeKey>::empty().push(s[0].key()) =~= seq![s[0].key()] + Seq::empty());
    } else {
        let init = s.drop_last();
        lemma_shared_first(init, other);
        assert(init[0] == s[0]);
        assert(init.drop_first() =~= s.drop_first().drop_last());
        assert(s.drop_first().last() == s.last());
        let tail = shared(init.drop_first(), other);
        if has_key(other, s[0].key()) {
            assert((seq![s[0].key()] + tail).push(s.last().key()) =~= seq![s[0].key()] + tail.push(
                s.last().key(),
            ));
        }
    }
}

/// A key of `s` is held by `s` without its last node exactly if it is not
/// the key of the last node.
proof fn lemma_has_key_drop_last(s: Seq<FeedListItemView>, key: NodeKey)
    requires
        distinct_keys(s),
        s.len() > 0,
    ensures
        has_key(s.drop_last(), key) <==> has_key(s, key) && key != s.last().key(),
{
    let init = s.drop_last();
    if has_key(init, key) {
        let k = index_of_key(init, key);
        assert(s[k].key() == key);
        assert(s[k].key() != s[s.len() - 1].key());
    }
    if has_key(s, key) && key != s.last().key() {
        let k = index_of_key(s, key);
        assert(init[k].key() == key);
    }
}

/// Where the nodes that two trees share stand in the same order in both,
/// both trees share the same sequence.
proof fn lemma_shared_symmetric(a: Seq<FeedListItemView>, b: Seq<FeedListItemView>)
    requires
        distinct_keys(a),
        distinct_keys(b),
        survivors_in_order(a, b),
    ensures
        shared(a, b) == shared(b, a),
    decreases a.len() + b.len(),
{
    if a.len() == 0 {
        lemma_shared_none(b, a);
    } else if b.len() == 0 {
        lemma_shared_none(a, b);
    } else {
        let x = a.last().key();
        let y = b.last().key();
        let a0 = a.drop_last();
        let b0 = b.drop_last();
        lemma_drop_last_keeps(a, b);
        if !has_key(b, x) {
            assert forall|k: int| 0 <= k < b.len() implies has_key(a, (#[trigger] b[k]).key())
                == has_key(a0, b[k].key()) by {
                lemma_has_key_drop_last(a, b[k].key());
                assert(has_key(b, b[k].key()));
            }
            lemma_shared_congruent(b, a, a0);
            lemma_shared_symmetric(a0, b);
        } else if !has_key(a, y) {
            assert forall|k: int| 0 <= k < a.len() implies has_key(b, (#[trigger] a[k]).key())
                == has_key(b0, a[k].key()) by {
                lemma_has_key_drop_last(b, a[k].key());
                assert(has_key(a, a[k].key()));
            }
            lemma_shared_congruent(a, b, b0);
            lemma_drop_last_keeps(b, a);
            lemma_shared_symmetric(a, b0);
        } else {
            lemma_last_shared_equal(a, b);
            assert forall|k: int| 0 <= k < a0.len() implies has_key(b, (#[trigger] a0[k]).key())
                == has_key(b0, a0[k].key()) by {
                lemma_has_key_drop_last(b, a0[k].key());
                assert(a0[k] == a[k]);
                assert(a[k].key() != a[a.len() - 1].key());
            }
            lemma_shared_congruent(a0, b, b0);
            assert forall|k: int| 0 <= k < b0.len() implies has_key(a, (#[trigger] b0[k]).key())
                == has_key(a0, b0[k].key()) by {
                lemma_has_key_drop_last(a, b0[k].key());
                assert(b0[k] == b[k]);
                assert(b[k].key() != b[b.len() - 1].key());
            }
            lemma_shared_congruent(b0, a, a0);
            lemma_drop_last_keeps(b, a0);
            lemma_shared_symmetric(a0, b0);
        }
    }
}

/// Where the last node of each tree is held by the other, and the shared
/// nodes stand in the same order, the two last nodes are the same.
proof fn lemma_last_shared_equal(a: Seq<FeedListItemView>, b: Seq<FeedListItemView>)
    requires
        survivors_in_order(a, b),
        a.len() > 0,
        b.len() > 0,
        has_key(b, a.last().key()),
        has_key(a, b.last().key()),
    ensures
        a.last().key() == b.last().key(),
{
    reveal(survivors_in_order);
    let x = a.last().key();
    let y = b.last().key();
    if x != y {
        let bx = index_of_key(b, x);
        let ay = index_of_key(a, y);
        assert(a[ay].key() == b[b.len() - 1].key());
        assert(a[a.len() - 1].key() == b[bx].key());
        assert(ay < a.len() - 1);
        assert(bx < b.len() - 1);
    }
}

/// Nothing is shared with an empty tree.
proof fn lemma_shared_none(s: Seq<FeedListItemView>, other: Seq<FeedListItemView>)
    requires
        other.len() == 0,
    ensures
        shared(s, other) == Seq::<NodeKey>::empty(),
        shared(other, s) == Seq::<NodeKey>::empty(),
    decreases s.len(),
{
    if s.len() > 0 {
        lemma_shared_none(s.drop_last(), other);
    }
}

/// Without its last node a tree still has distinct identities and shares
/// its nodes with another in the same order.
proof fn lemma_drop_last_keeps(a: Seq<FeedListItemView>, b: Seq<FeedListItemView>)
    requires
        distinct_keys(a),
        survivors_in_order(a, b) || survivors_in_order(b, a),
        a.len() > 0,
    ensures
        distinct_keys(a.drop_last()),
        survivors_in_order(a, b) ==> survivors_in_order(a.drop_last(), b),
        survivors_in_order(b, a) ==> survivors_in_order(b, a.drop_last()),
{
    reveal(survivors_in_order);
    let a0 = a.drop_last();
    assert forall|i: int, j: int| 0 <= i < j < a0.len() implies (#[trigger] a0[i]).key() != (
    #[trigger] a0[j]).key() by {
        assert(a0[i] == a[i] && a0[j] == a[j]);
    }
    if survivors_in_order(a, b) {
        assert forall|a1: int, a2: int, b1: int, b2: int|
            0 <= a1 < a2 < a0.len() && 0 <= b1 < b.len() && 0 <= b2 < b.len() && (
            #[trigger] a0[a1]).key() == (#[trigger] b[b1]).key() && (#[trigger] a0[a2]).key() == (
            #[trigger] b[b2]).key() implies b1 < b2 by {
            assert(a0[a1] == a[a1] && a0[a2] == a[a2]);
        }
    }
    if survivors_in_order(b, a) {
        assert forall|b1: int, b2: int, a1: int, a2: int|
            0 <= b1 < b2 < b.len() && 0 <= a1 < a0.len() && 0 <= a2 < a0.len() && (
            #[trigger] b[b1]).key() == (#[trigger] a0[a1]).key() && (#[trigger] b[b2]).key() == (
            #[trigger] a0[a2]).key() implies a1 < a2 by {
            assert(a0[a1] == a[a1] && a0[a2] == a[a2]);
        }
    }
}

/// Where no row from `from` up to `p` shows the identity and row `p`
/// does, the search from `from` ends at `p`.
proof fn lemma_first_row(rows: Seq<NodeKey>, key: NodeKey, from: int, p: int)
    requires
        0 <= from <= p < rows.len(),
        rows[p] == key,
        forall|m: int| from <= m < p ==> rows[m] != key,
    ensures
        first_row(rows, key, from) == p,
    decreases p - from,
{
    if from < p {
        lemma_first_row(rows, key, from + 1, p);
    }
}

/// What the rows are while the removals are under way: of the first `n`
/// nodes of `old` those that `new` holds, then the other nodes of `old`.
proof fn lemma_removals_placed(old: Seq<FeedListItemView>, new: Seq<FeedListItemView>, n: int)
    requires
        distinct_keys(old),
        0 <= n <= old.len(),
    ensures
        place_changes(keys_of(old), removals(old, new, n)) == shared(old.take(n), new) + keys_of(
            old.skip(n),
        ),
    decreases n,
{
    if n == 0 {
        assert(old.take(0) =~= Seq::empty());
        assert(old.skip(0) =~= old);
        assert(Seq::<NodeKey>::empty() + keys_of(old) =~= keys_of(old));
    } else {
        lemma_removals_placed(old, new, n - 1);
        let item = old[n - 1];
        let key = item.key();
        let kept = shared(old.take(n - 1), new);
        let before = kept + keys_of(old.skip(n - 1));
        let after = shared(old.take(n), new) + keys_of(old.skip(n));
        assert(old.take(n).drop_last() =~= old.take(n - 1));
        assert(old.take(n).last() == item);
        assert(keys_of(old.skip(n - 1)) =~= seq![key] + keys_of(old.skip(n)));
        if has_key(new, key) {
            assert(before =~= after);
        } else {
            let rest = removals(old, new, n - 1);
            assert(rest.push(removal_of(item)).drop_last() =~= rest);
            assert(place_change(before, removal_of(item)) == without_row(before, key));
            assert forall|m: int| 0 <= m < kept.len() implies before[m] != key by {
                lemma_shared_members(old.take(n - 1), new, m);
                let at = index_of_key(old.take(n - 1), kept[m]);
                assert(old[at].key() == kept[m]);
                assert(old[at].key() != old[n - 1].key());
            }
            assert(before[kept.len() as int] == key);
            lemma_first_row(before, key, 0, kept.len() as int);
            assert(before.remove(kept.len() as int) =~= after);
        }
    }
}

/// What the rows are while the additions are under way: the first `n`
/// nodes of `new`, then the nodes that `old` shares with the rest of
/// `new`.
proof fn lemma_additions_placed(old: Seq<FeedListItemView>, new: Seq<FeedListItemView>, n: int)
    requires
        0 <= n <= new.len(),
    ensures
        place_changes(shared(new, old), additions(old, new, n)) == keys_of(new.take(n)) + shared(
            new.skip(n),
            old,
        ),
    decreases n,
{
    if n == 0 {
        assert(new.take(0) =~= Seq::empty());
        assert(new.skip(0) =~= new);
        assert(keys_of(new.take(0)) + shared(new, old) =~= shared(new, old));
    } else {
        lemma_additions_placed(old, new, n - 1);
        let item = new[n - 1];
        let key = item.key();
        let rest = additions(old, new, n - 1);
        let before = keys_of(new.take(n - 1)) + shared(new.skip(n - 1), old);
        let after = keys_of(new.take(n)) + shared(new.skip(n), old);
        lemma_shared_first(new.skip(n - 1), old);
        assert(new.skip(n - 1)[0] == item);
        assert(new.skip(n - 1).drop_first() =~= new.skip(n));
        assert(keys_of(new.take(n)) =~= keys_of(new.take(n - 1)).push(key));
        if has_key(old, key) {
            let was = old[index_of_key(old, key)];
            lemma_place_concat(shared(new, old), rest, updates_of(was, item));
            lemma_updates_place_nothing(before, was, item);
            assert(before =~= after);
        } else {
            let change = addition_of(item, n - 1, visible(new, n - 1));
            assert(rest.push(change).drop_last() =~= rest);
            assert(before.len() >= n - 1);
            assert(place_change(before, change) == before.insert(n - 1, key));
            assert(before.insert(n - 1, key) =~= after);
        }
    }
}

/// The edits leave the rows in the display order of the new tree: where
/// the nodes that both trees hold stand in the same order in both,
/// taking away and inserting rows as the edits say turns the rows of
/// `old` into the rows of `new`, row by row.
pub proof fn lemma_diff_places_rows(old: Seq<FeedListItemView>, new: Seq<FeedListItemView>)
    requires
        distinct_keys(old),
        distinct_keys(new),
        survivors_in_order(old, new),
    ensures
        place_changes(keys_of(old), tree_diff(old, new)) == keys_of(new),
{
    lemma_removals_placed(old, new, old.len() as int);
    lemma_additions_placed(old, new, new.len() as int);
    lemma_shared_symmetric(old, new);
    lemma_place_concat(
        keys_of(old),
        removals(old, new, old.len() as int),
        additions(old, new, new.len() as int),
    );
    assert(old.take(old.len() as int) =~= old);
    assert(old.skip(old.len() as int) =~= Seq::empty());
    assert(shared(old, new) + keys_of(Seq::empty()) =~= shared(old, new));
    assert(new.take(new.len() as int) =~= new);
    assert(new.skip(new.len() as int) =~= Seq::empty());
    assert(keys_of(new) + shared(Seq::empty(), old) =~= keys_of(new));
}

} // verus!
