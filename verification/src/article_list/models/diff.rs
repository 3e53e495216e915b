//! What the difference of two article lists is, what it does to the rows
//! of a displayed list, and the laws that connect the two.

use super::article::ArticleListArticleModelView;
use super::change_set::{ArticleListChangeSet, ArticleListChangeSetView};
use super::{contains_id, distinct_ids};
use vstd::prelude::*;

verus! {

/// The values of a sequence of edits.
pub open spec fn change_views(s: Seq<ArticleListChangeSet>) -> Seq<ArticleListChangeSetView> {
    s.map_values(|c: ArticleListChangeSet| c@)
}

/// The edits that bring the state of a surviving row from `old` to `new`:
/// the read state first, then the marked state, each only where it
/// differs.
pub open spec fn state_updates(
    old: ArticleListArticleModelView,
    new: ArticleListArticleModelView,
) -> Seq<ArticleListChangeSetView> {
    let read = if new.unread != old.unread {
        seq![ArticleListChangeSetView::UpdateRead(new.id, new.unread)]
    } else {
        Seq::empty()
    };
    let marked = if new.marked != old.marked {
        seq![ArticleListChangeSetView::UpdateMarked(new.id, new.marked)]
    } else {
        Seq::empty()
    };
    read + marked
}

/// The edits that remain when the walk stands at entry `i` of `old` and
/// entry `j` of `new`. An entry of `new` is added at its own index; an
/// entry of `old` is removed once `new` is used up or no longer holds its
/// identity; an entry of `old` whose identity `new` still holds, but not
/// here, waits while the entries of `new` before it are added.
pub open spec fn diff_from(
    old: Seq<ArticleListArticleModelView>,
    new: Seq<ArticleListArticleModelView>,
    i: int,
    j: int,
) -> Seq<ArticleListChangeSetView>
    decreases old.len() - i + new.len() - j,
{
    if i < 0 || j < 0 || i > old.len() || j > new.len() {
        Seq::empty()
    } else if i == old.len() && j == new.len() {
        Seq::empty()
    } else if i == old.len() {
        seq![ArticleListChangeSetView::Add(new[j], j)] + diff_from(old, new, i, j + 1)
    } else if j == new.len() {
        seq![ArticleListChangeSetView::Remove(old[i].id)] + diff_from(old, new, i + 1, j)
    } else if old[i].same_content(new[j]) {
        state_updates(old[i], new[j]) + diff_from(old, new, i + 1, j + 1)
    } else if contains_id(new, old[i].id) {
        seq![ArticleListChangeSetView::Add(new[j], j)] + diff_from(old, new, i, j + 1)
    } else {
        seq![ArticleListChangeSetView::Remove(old[i].id)] + diff_from(old, new, i + 1, j)
    }
}

/// The edits that turn the rows of `old` into those of `new`, both taken
/// in their sorted order.
pub open spec fn list_diff(
    old: Seq<ArticleListArticleModelView>,
    new: Seq<ArticleListArticleModelView>,
) -> Seq<ArticleListChangeSetView> {
    diff_from(old, new, 0, 0)
}

/// The index of the first row from `from` on that has the identity; the
/// number of rows where none has it.
pub open spec fn first_with_id(
    rows: Seq<ArticleListArticleModelView>,
    id: Seq<char>,
    from: int,
) -> int
    decreases rows.len() - from,
{
    if from < 0 || from >= rows.len() {
        rows.len() as int
    } else if rows[from].id == id {
        from
    } else {
        first_with_id(rows, id, from + 1)
    }
}

/// The row that shows the identity: the index of the first of `rows`
/// that has it.
pub open spec fn position_of(rows: Seq<ArticleListArticleModelView>, id: Seq<char>) -> int {
    first_with_id(rows, id, 0)
}

/// What one edit does to the rows of a displayed list. An entry is
/// inserted at its position; a row is removed or changed by its identity,
/// and an edit that names no row leaves the rows as they are.
pub open spec fn apply_change(
    rows: Seq<ArticleListArticleModelView>,
    change: ArticleListChangeSetView,
) -> Seq<ArticleListArticleModelView> {
    match change {
        ArticleListChangeSetView::Add(model, pos) => if 0 <= pos <= rows.len() {
            rows.insert(pos, model)
        } else {
            rows
        },
        ArticleListChangeSetView::Remove(id) => if contains_id(rows, id) {
            rows.remove(position_of(rows, id))
        } else {
            rows
        },
        ArticleListChangeSetView::UpdateRead(id, unread) => if contains_id(rows, id) {
            let k = position_of(rows, id);
            rows.update(k, rows[k].with_unread(unread))
        } else {
            rows
        },
        ArticleListChangeSetView::UpdateMarked(id, marked) => if contains_id(rows, id) {
            let k = position_of(rows, id);
            rows.update(k, rows[k].with_marked(marked))
        } else {
            rows
        },
    }
}

/// What a sequence of edits does to the rows, applied in order.
pub open spec fn apply_changes(
    rows: Seq<ArticleListArticleModelView>,
    changes: Seq<ArticleListChangeSetView>,
) -> Seq<ArticleListArticleModelView>
    decreases changes.len(),
{
    if changes.len() == 0 {
        rows
    } else {
        apply_changes(apply_change(rows, changes[0]), changes.drop_first())
    }
}

/// The entries that survive from `old` into `new` are unchanged in
/// content and stand in the same relative order in both.
pub open spec fn survivors_aligned(
    old: Seq<ArticleListArticleModelView>,
    new: Seq<ArticleListArticleModelView>,
) -> bool {
    &&& forall|a: int, b: int|
        0 <= a < old.len() && 0 <= b < new.len() && (#[trigger] old[a]).id == (#[trigger] new[b]).id
            ==> old[a].same_content(new[b])
    &&& forall|a1: int, a2: int, b1: int, b2: int|
        0 <= a1 < a2 < old.len() && 0 <= b1 < new.len() && 0 <= b2 < new.len() && (
        #[trigger] old[a1]).id == (#[trigger] new[b1]).id && (#[trigger] old[a2]).id == (
        #[trigger] new[b2]).id ==> b1 < b2
}

/// Applying `a + b` is applying `a`, then `b`.
pub proof fn lemma_apply_concat(
    rows: Seq<ArticleListArticleModelView>,
    a: Seq<ArticleListChangeSetView>,
    b: Seq<ArticleListChangeSetView>,
)
    ensures
        apply_changes(rows, a + b) == apply_changes(apply_changes(rows, a), b),
    decreases a.len(),
{
    if a.len() == 0 {
        assert(a + b =~= b);
    } else {
        assert((a + b)[0] == a[0]);
        assert((a + b).drop_first() =~= a.drop_first() + b);
        lemma_apply_concat(apply_change(rows, a[0]), a.drop_first(), b);
    }
}

/// Applying a single edit.
proof fn lemma_apply_one(rows: Seq<ArticleListArticleModelView>, change: ArticleListChangeSetView)
    ensures
        apply_changes(rows, seq![change]) == apply_change(rows, change),
{
    let one = seq![change];
    assert(one.drop_first() =~= Seq::empty());
    assert(apply_changes(apply_change(rows, one[0]), one.drop_first()) == apply_change(
        rows,
        change,
    ));
}

/// Among rows of distinct identities, the search for the identity of row
/// `p` from any row before it ends at `p`.
proof fn lemma_first_with_id(rows: Seq<ArticleListArticleModelView>, p: int, from: int)
    requires
        distinct_ids(rows),
        0 <= from <= p < rows.len(),
    ensures
        first_with_id(rows, rows[p].id, from) == p,
    decreases p - from,
{
    if from < p {
        assert(rows[from].id != rows[p].id);
        lemma_first_with_id(rows, p, from + 1);
    }
}

/// Among rows of distinct identities, the identity of row `p` is found at
/// `p`.
proof fn lemma_position(rows: Seq<ArticleListArticleModelView>, p: int)
    requires
        distinct_ids(rows),
        0 <= p < rows.len(),
    ensures
        contains_id(rows, rows[p].id),
        position_of(rows, rows[p].id) == p,
{
    assert(rows[p].id == rows[p].id);
    lemma_first_with_id(rows, p, 0);
}

/// The state edits of a surviving row turn it into the new entry.
proof fn lemma_apply_state_updates(
    rows: Seq<ArticleListArticleModelView>,
    p: int,
    new: ArticleListArticleModelView,
)
    requires
        distinct_ids(rows),
        0 <= p < rows.len(),
        rows[p].same_content(new),
    ensures
        apply_changes(rows, state_updates(rows[p], new)) == rows.update(p, new),
{
    let old = rows[p];
    lemma_position(rows, p);
    let read = if new.unread != old.unread {
        seq![ArticleListChangeSetView::UpdateRead(new.id, new.unread)]
    } else {
        Seq::empty()
    };
    let marked = if new.marked != old.marked {
        seq![ArticleListChangeSetView::UpdateMarked(new.id, new.marked)]
    } else {
        Seq::empty()
    };
    lemma_apply_concat(rows, read, marked);
    let mid = if new.unread != old.unread {
        rows.update(p, old.with_unread(new.unread))
    } else {
        rows
    };
    if new.unread != old.unread {
        lemma_apply_one(rows, ArticleListChangeSetView::UpdateRead(new.id, new.unread));
    }
    assert(apply_changes(rows, read) == mid);
    assert(distinct_ids(mid)) by {
        assert forall|a: int, b: int| 0 <= a < b < mid.len() implies (#[trigger] mid[a]).id != (
        #[trigger] mid[b]).id by {
            assert(mid[a].id == rows[a].id && mid[b].id == rows[b].id);
        }
    }
    lemma_position(mid, p);
    if new.marked != old.marked {
        lemma_apply_one(mid, ArticleListChangeSetView::UpdateMarked(new.id, new.marked));
    }
    assert(apply_changes(mid, marked) =~= rows.update(p, new));
}

/// No identity stands both among the entries of `new` that the walk has
/// passed and the entries of `old` that it has not, nor the other way
/// round.
#[verifier::opaque]
spec fn apart(
    old: Seq<ArticleListArticleModelView>,
    new: Seq<ArticleListArticleModelView>,
    i: int,
    j: int,
) -> bool {
    &&& forall|a: int, b: int|
        i <= a < old.len() && 0 <= b < j ==> (#[trigger] old[a]).id != (#[trigger] new[b]).id
    &&& forall|a: int, b: int|
        0 <= a < i && j <= b < new.len() ==> (#[trigger] old[a]).id != (#[trigger] new[b]).id
}

/// The rows while the walk stands at `i` and `j`: the entries of `new`
/// that it has passed, then the entries of `old` that it has not.
#[verifier::opaque]
spec fn rows_at(
    old: Seq<ArticleListArticleModelView>,
    new: Seq<ArticleListArticleModelView>,
    i: int,
    j: int,
) -> Seq<ArticleListArticleModelView> {
    new.take(j) + old.skip(i)
}

proof fn lemma_rows_distinct(
    old: Seq<ArticleListArticleModelView>,
    new: Seq<ArticleListArticleModelView>,
    i: int,
    j: int,
)
    requires
        distinct_ids(old),
        distinct_ids(new),
        0 <= i <= old.len(),
        0 <= j <= new.len(),
        apart(old, new, i, j),
    ensures
        distinct_ids(rows_at(old, new, i, j)),
{
    reveal(apart);
    reveal(rows_at);
    let rows = rows_at(old, new, i, j);
    assert forall|a: int, b: int| 0 <= a < b < rows.len() implies (#[trigger] rows[a]).id != (
    #[trigger] rows[b]).id by {
        if b < j {
            assert(rows[a] == new[a] && rows[b] == new[b]);
        } else if a < j {
            assert(rows[a] == new[a] && rows[b] == old[i + b - j]);
        } else {
            assert(rows[a] == old[i + a - j] && rows[b] == old[i + b - j]);
        }
    }
}

/// Adding entry `j` of `new` at `j` moves the walk past it.
proof fn lemma_step_add(
    old: Seq<ArticleListArticleModelView>,
    new: Seq<ArticleListArticleModelView>,
    i: int,
    j: int,
)
    requires
        0 <= i <= old.len(),
        0 <= j < new.len(),
    ensures
        apply_changes(
            rows_at(old, new, i, j),
            seq![ArticleListChangeSetView::Add(new[j], j)] + diff_from(old, new, i, j + 1),
        ) == apply_changes(rows_at(old, new, i, j + 1), diff_from(old, new, i, j + 1)),
{
    reveal(rows_at);
    let rows = rows_at(old, new, i, j);
    let change = ArticleListChangeSetView::Add(new[j], j);
    lemma_apply_concat(rows, seq![change], diff_from(old, new, i, j + 1));
    lemma_apply_one(rows, change);
    assert(apply_change(rows, change) =~= rows_at(old, new, i, j + 1));
}

/// Removing entry `i` of `old` moves the walk past it.
proof fn lemma_step_remove(
    old: Seq<ArticleListArticleModelView>,
    new: Seq<ArticleListArticleModelView>,
    i: int,
    j: int,
)
    requires
        0 <= i < old.len(),
        0 <= j <= new.len(),
        distinct_ids(rows_at(old, new, i, j)),
    ensures
        apply_changes(
            rows_at(old, new, i, j),
            seq![ArticleListChangeSetView::Remove(old[i].id)] + diff_from(old, new, i + 1, j),
        ) == apply_changes(rows_at(old, new, i + 1, j), diff_from(old, new, i + 1, j)),
{
    reveal(rows_at);
    let rows = rows_at(old, new, i, j);
    let change = ArticleListChangeSetView::Remove(old[i].id);
    lemma_apply_concat(rows, seq![change], diff_from(old, new, i + 1, j));
    lemma_apply_one(rows, change);
    assert(rows[j] == old[i]);
    lemma_position(rows, j);
    assert(apply_change(rows, change) =~= rows_at(old, new, i + 1, j));
}

/// Updating the state of a surviving entry moves the walk past it in both
/// lists.
proof fn lemma_step_match(
    old: Seq<ArticleListArticleModelView>,
    new: Seq<ArticleListArticleModelView>,
    i: int,
    j: int,
)
    requires
        0 <= i < old.len(),
        0 <= j < new.len(),
        old[i].same_content(new[j]),
        distinct_ids(rows_at(old, new, i, j)),
    ensures
        apply_changes(
            rows_at(old, new, i, j),
            state_updates(old[i], new[j]) + diff_from(old, new, i + 1, j + 1),
        ) == apply_changes(rows_at(old, new, i + 1, j + 1), diff_from(old, new, i + 1, j + 1)),
{
    reveal(rows_at);
    let rows = rows_at(old, new, i, j);
    lemma_apply_concat(rows, state_updates(old[i], new[j]), diff_from(old, new, i + 1, j + 1));
    assert(rows[j] == old[i]);
    lemma_apply_state_updates(rows, j, new[j]);
    assert(rows.update(j, new[j]) =~= rows_at(old, new, i + 1, j + 1));
}

/// Past a surviving entry the two sides of the walk still share no
/// identity.
proof fn lemma_apart_match(
    old: Seq<ArticleListArticleModelView>,
    new: Seq<ArticleListArticleModelView>,
    i: int,
    j: int,
)
    requires
        distinct_ids(old),
        distinct_ids(new),
        0 <= i < old.len(),
        0 <= j < new.len(),
        old[i].id == new[j].id,
        apart(old, new, i, j),
    ensures
        apart(old, new, i + 1, j + 1),
{
    reveal(apart);
    assert forall|a: int, b: int| i + 1 <= a < old.len() && 0 <= b < j + 1 implies (
    #[trigger] old[a]).id != (#[trigger] new[b]).id by {
        if b == j {
            assert(old[i].id != old[a].id);
        }
    }
    assert forall|a: int, b: int| 0 <= a < i + 1 && j + 1 <= b < new.len() implies (
    #[trigger] old[a]).id != (#[trigger] new[b]).id by {
        if a == i {
            assert(new[j].id != new[b].id);
        }
    }
}

/// Past an entry of `old` that `new` does not hold, the two sides of the
/// walk still share no identity.
proof fn lemma_apart_remove(
    old: Seq<ArticleListArticleModelView>,
    new: Seq<ArticleListArticleModelView>,
    i: int,
    j: int,
)
    requires
        0 <= i < old.len(),
        0 <= j <= new.len(),
        j < new.len() ==> !contains_id(new, old[i].id),
        apart(old, new, i, j),
    ensures
        apart(old, new, i + 1, j),
{
    reveal(apart);
    assert forall|a: int, b: int| 0 <= a < i + 1 && j <= b < new.len() implies (
    #[trigger] old[a]).id != (#[trigger] new[b]).id by {
        if a == i && old[a].id == new[b].id {
            assert(new[b].id == old[i].id);
        }
    }
}

/// Where an entry of `old` waits for its place in `new`, the entry of
/// `new` that is added meanwhile is not one of `old`.
proof fn lemma_apart_add(
    old: Seq<ArticleListArticleModelView>,
    new: Seq<ArticleListArticleModelView>,
    i: int,
    j: int,
)
    requires
        survivors_aligned(old, new),
        0 <= i <= old.len(),
        0 <= j < new.len(),
        i < old.len() ==> !old[i].same_content(new[j]) && contains_id(new, old[i].id),
        apart(old, new, i, j),
    ensures
        apart(old, new, i, j + 1),
{
    reveal(apart);
    if i < old.len() {
        let b0 = choose|b: int| 0 <= b < new.len() && (#[trigger] new[b]).id == old[i].id;
        assert(old[i].id == new[b0].id);
        assert(old[i].same_content(new[b0]));
        assert(b0 > j);
        assert forall|a: int, b: int| i <= a < old.len() && 0 <= b < j + 1 implies (
        #[trigger] old[a]).id != (#[trigger] new[b]).id by {
            if b == j && old[a].id == new[j].id {
                assert(old[a].same_content(new[j]));
                assert(a > i);
                assert(old[i].id == new[b0].id && old[a].id == new[j].id);
            }
        }
    }
}

/// From any point of the walk, the remaining edits complete the rows to
/// `new`.
proof fn lemma_diff_from_complete(
    old: Seq<ArticleListArticleModelView>,
    new: Seq<ArticleListArticleModelView>,
    i: int,
    j: int,
)
    requires
        distinct_ids(old),
        distinct_ids(new),
        survivors_aligned(old, new),
        0 <= i <= old.len(),
        0 <= j <= new.len(),
        apart(old, new, i, j),
    ensures
        apply_changes(rows_at(old, new, i, j), diff_from(old, new, i, j)) == new,
    decreases old.len() - i + new.len() - j,
{
    lemma_rows_distinct(old, new, i, j);
    if i == old.len() && j == new.len() {
        assert(rows_at(old, new, i, j) =~= new) by {
            reveal(rows_at);
        }
    } else if i == old.len() {
        lemma_step_add(old, new, i, j);
        lemma_apart_add(old, new, i, j);
        lemma_diff_from_complete(old, new, i, j + 1);
    } else if j == new.len() {
        lemma_step_remove(old, new, i, j);
        lemma_apart_remove(old, new, i, j);
        lemma_diff_from_complete(old, new, i + 1, j);
    } else if old[i].same_content(new[j]) {
        lemma_step_match(old, new, i, j);
        lemma_apart_match(old, new, i, j);
        lemma_diff_from_complete(old, new, i + 1, j + 1);
    } else if contains_id(new, old[i].id) {
        lemma_step_add(old, new, i, j);
        lemma_apart_add(old, new, i, j);
        lemma_diff_from_complete(old, new, i, j + 1);
    } else {
        lemma_step_remove(old, new, i, j);
        lemma_apart_remove(old, new, i, j);
        lemma_diff_from_complete(old, new, i + 1, j);
    }
}

/// Completeness of the difference: where the surviving entries are
/// unchanged in content and keep their relative order, applying the edits
/// to the rows of `old` gives exactly the rows of `new`, each with the
/// read and marked state that `new` holds.
pub proof fn lemma_diff_complete(
    old: Seq<ArticleListArticleModelView>,
    new: Seq<ArticleListArticleModelView>,
)
    requires
        distinct_ids(old),
        distinct_ids(new),
        survivors_aligned(old, new),
    ensures
        apply_changes(old, list_diff(old, new)) == new,
{
    reveal(apart);
    reveal(rows_at);
    assert(rows_at(old, new, 0, 0) =~= old);
    lemma_diff_from_complete(old, new, 0, 0);
}

/// From any common point, a list differs from itself by nothing.
proof fn lemma_diff_from_self(s: Seq<ArticleListArticleModelView>, i: int)
    requires
        0 <= i <= s.len(),
    ensures
        diff_from(s, s, i, i) == Seq::<ArticleListChangeSetView>::empty(),
    decreases s.len() - i,
{
    if i < s.len() {
        lemma_diff_from_self(s, i + 1);
        assert(state_updates(s[i], s[i]) =~= Seq::empty());
        assert(state_updates(s[i], s[i]) + diff_from(s, s, i + 1, i + 1) =~= Seq::empty());
    }
}

/// The difference of a list and an identical copy of it is empty.
pub proof fn lemma_diff_of_same(s: Seq<ArticleListArticleModelView>)
    ensures
        list_diff(s, s) == Seq::<ArticleListChangeSetView>::empty(),
{
    lemma_diff_from_self(s, 0);
}

} // verus!
