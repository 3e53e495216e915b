//! What it means for a list of entries to be sorted by date, and the laws
//! of the stable sort that the list model performs.

use super::article::ArticleListArticleModelView;
use super::{contains_id, distinct_ids};
use crate::models::ArticleOrder;
use vstd::prelude::*;
use vstd::seq_lib::to_multiset_build;
use vstd::seq_lib::to_multiset_insert;

verus! {

/// Whether `a` must stand strictly before `b` in the given order.
pub open spec fn comes_before(
    order: ArticleOrder,
    a: ArticleListArticleModelView,
    b: ArticleListArticleModelView,
) -> bool {
    match order {
        ArticleOrder::OldestFirst => a.date < b.date,
        ArticleOrder::NewestFirst => a.date > b.date,
    }
}

/// No entry stands behind one that it must precede: the dates are
/// non-decreasing (oldest first) or non-increasing (newest first).
pub open spec fn is_ordered(order: ArticleOrder, s: Seq<ArticleListArticleModelView>) -> bool {
    forall|i: int, j: int| 0 <= i < j < s.len() ==> !comes_before(order, s[j], s[i])
}

/// The entries of `s` that carry the given date, in the order of `s`.
pub open spec fn with_date(s: Seq<ArticleListArticleModelView>, date: i64) -> Seq<
    ArticleListArticleModelView,
> {
    s.filter(|m: ArticleListArticleModelView| m.date == date)
}

/// Where `x` goes into `s`: behind every entry that it need not precede,
/// counted from the end.
pub open spec fn insert_pos(
    order: ArticleOrder,
    s: Seq<ArticleListArticleModelView>,
    x: ArticleListArticleModelView,
) -> int
    decreases s.len(),
{
    if s.len() > 0 && comes_before(order, x, s.last()) {
        insert_pos(order, s.drop_last(), x)
    } else {
        s.len() as int
    }
}

/// The stable sort of `s`: its entries ordered by date, those of equal
/// date in the order in which `s` holds them.
pub open spec fn stable_sort(order: ArticleOrder, s: Seq<ArticleListArticleModelView>) -> Seq<
    ArticleListArticleModelView,
>
    decreases s.len(),
{
    if s.len() == 0 {
        s
    } else {
        let sorted = stable_sort(order, s.drop_last());
        sorted.insert(insert_pos(order, sorted, s.last()), s.last())
    }
}

/// The insert position lies within the sequence, every entry from it on
/// must follow `x`, and the entry before it need not.
pub proof fn lemma_insert_pos(
    order: ArticleOrder,
    s: Seq<ArticleListArticleModelView>,
    x: ArticleListArticleModelView,
)
    ensures
        0 <= insert_pos(order, s, x) <= s.len(),
        forall|k: int| insert_pos(order, s, x) <= k < s.len() ==> comes_before(order, x, s[k]),
        insert_pos(order, s, x) > 0 ==> !comes_before(order, x, s[insert_pos(order, s, x) - 1]),
    decreases s.len(),
{
    if s.len() > 0 && comes_before(order, x, s.last()) {
        let rest = s.drop_last();
        lemma_insert_pos(order, rest, x);
        assert forall|k: int| insert_pos(order, s, x) <= k < s.len() implies comes_before(
            order,
            x,
            s[k],
        ) by {
            if k < rest.len() {
                assert(s[k] == rest[k]);
            }
        }
    }
}

/// Sorting keeps the number of entries.
pub proof fn lemma_sort_len(order: ArticleOrder, s: Seq<ArticleListArticleModelView>)
    ensures
        stable_sort(order, s).len() == s.len(),
    decreases s.len(),
{
    if s.len() > 0 {
        lemma_sort_len(order, s.drop_last());
        lemma_insert_pos(order, stable_sort(order, s.drop_last()), s.last());
    }
}

/// After sorting, the dates are non-decreasing (oldest first) or
/// non-increasing (newest first).
pub proof fn lemma_sort_ordered(order: ArticleOrder, s: Seq<ArticleListArticleModelView>)
    ensures
        is_ordered(order, stable_sort(order, s)),
    decreases s.len(),
{
    if s.len() > 0 {
        let sorted = stable_sort(order, s.drop_last());
        let x = s.last();
        let p = insert_pos(order, sorted, x);
        lemma_sort_ordered(order, s.drop_last());
        lemma_insert_pos(order, sorted, x);
        let t = sorted.insert(p, x);
        assert forall|i: int, j: int| 0 <= i < j < t.len() implies !comes_before(
            order,
            t[j],
            t[i],
        ) by {
            if j == p {
                assert(t[i] == sorted[i]);
                assert(!comes_before(order, sorted[p - 1], sorted[i]) || i == p - 1);
            } else if i == p {
                assert(t[j] == sorted[j - 1]);
            } else {
                let oi = if i < p { i } else { i - 1 };
                let oj = if j < p { j } else { j - 1 };
                assert(t[i] == sorted[oi] && t[j] == sorted[oj]);
            }
        }
    }
}

/// Sorting rearranges: each entry occurs after sorting as often as before.
pub proof fn lemma_sort_permutes(order: ArticleOrder, s: Seq<ArticleListArticleModelView>)
    ensures
        stable_sort(order, s).to_multiset() == s.to_multiset(),
    decreases s.len(),
{
    if s.len() > 0 {
        let sorted = stable_sort(order, s.drop_last());
        lemma_sort_permutes(order, s.drop_last());
        lemma_insert_pos(order, sorted, s.last());
        to_multiset_insert(sorted, insert_pos(order, sorted, s.last()), s.last());
        to_multiset_build(s.drop_last(), s.last());
        assert(s.drop_last().push(s.last()) =~= s);
    }
}

/// Sorting is stable: the entries of any one date stand after sorting in
/// the order in which they stood before.
pub proof fn lemma_sort_stable(
    order: ArticleOrder,
    s: Seq<ArticleListArticleModelView>,
    date: i64,
)
    ensures
        with_date(stable_sort(order, s), date) == with_date(s, date),
    decreases s.len(),
{
    if s.len() > 0 {
        let sorted = stable_sort(order, s.drop_last());
        let x = s.last();
        let p = insert_pos(order, sorted, x);
        let pred = |m: ArticleListArticleModelView| m.date == date;
        lemma_sort_stable(order, s.drop_last(), date);
        lemma_insert_pos(order, sorted, x);
        let head = sorted.take(p);
        let tail = sorted.skip(p);
        assert(sorted =~= head + tail);
        assert(sorted.insert(p, x) =~= head.push(x) + tail);
        Seq::filter_distributes_over_add(head, tail, pred);
        Seq::filter_distributes_over_add(head.push(x), tail, pred);
        head.lemma_filter_push(x, pred);
        s.drop_last().lemma_filter_push(x, pred);
        assert(s.drop_last().push(x) =~= s);
        if pred(x) {
            assert(tail.all(|m: ArticleListArticleModelView| !pred(m))) by {
                assert forall|k: int| 0 <= k < tail.len() implies !pred(tail[k]) by {
                    assert(tail[k] == sorted[p + k]);
                    assert(comes_before(order, x, sorted[p + k]));
                }
            }
            tail.lemma_all_neg_filter_empty(pred);
            assert(tail.filter(pred) =~= Seq::empty());
            assert(head.filter(pred) + tail.filter(pred) =~= head.filter(pred));
            assert(head.filter(pred).push(x) + tail.filter(pred) =~= head.filter(pred).push(x));
        }
    }
}

/// Sorting a sequence that is in order changes nothing, so sorting twice
/// is sorting once.
pub proof fn lemma_sort_of_ordered(order: ArticleOrder, s: Seq<ArticleListArticleModelView>)
    requires
        is_ordered(order, s),
    ensures
        stable_sort(order, s) == s,
    decreases s.len(),
{
    if s.len() > 0 {
        let rest = s.drop_last();
        assert(is_ordered(order, rest)) by {
            assert forall|i: int, j: int| 0 <= i < j < rest.len() implies !comes_before(
                order,
                rest[j],
                rest[i],
            ) by {
                assert(rest[i] == s[i] && rest[j] == s[j]);
            }
        }
        lemma_sort_of_ordered(order, rest);
        if rest.len() > 0 {
            assert(rest.last() == s[s.len() - 2]);
            assert(!comes_before(order, s[s.len() - 1], s[s.len() - 2]));
        }
        assert(insert_pos(order, rest, s.last()) == rest.len());
        assert(rest.insert(rest.len() as int, s.last()) =~= s);
    }
}

/// `s` with `x` at its place: behind every entry that it need not
/// precede.
pub open spec fn inserted(
    order: ArticleOrder,
    s: Seq<ArticleListArticleModelView>,
    x: ArticleListArticleModelView,
) -> Seq<ArticleListArticleModelView> {
    s.insert(insert_pos(order, s, x), x)
}

/// The merge of `a` and `b`, built from the end: the later of the two
/// last entries goes last, and where neither must precede the other, the
/// one of `b` does.
pub open spec fn merged(
    order: ArticleOrder,
    a: Seq<ArticleListArticleModelView>,
    b: Seq<ArticleListArticleModelView>,
) -> Seq<ArticleListArticleModelView>
    decreases a.len() + b.len(),
{
    if a.len() == 0 {
        b
    } else if b.len() == 0 {
        a
    } else if comes_before(order, b.last(), a.last()) {
        merged(order, a.drop_last(), b).push(a.last())
    } else {
        merged(order, a, b.drop_last()).push(b.last())
    }
}

/// An entry goes in behind the last entry, or before it and at its place
/// among the others.
proof fn lemma_inserted_step(
    order: ArticleOrder,
    s: Seq<ArticleListArticleModelView>,
    x: ArticleListArticleModelView,
)
    ensures
        inserted(order, s, x) == if s.len() > 0 && comes_before(order, x, s.last()) {
            inserted(order, s.drop_last(), x).push(s.last())
        } else {
            s.push(x)
        },
{
    if s.len() > 0 && comes_before(order, x, s.last()) {
        lemma_insert_pos(order, s.drop_last(), x);
        assert(inserted(order, s, x) =~= inserted(order, s.drop_last(), x).push(s.last()));
    } else {
        assert(inserted(order, s, x) =~= s.push(x));
    }
}

/// Inserting into a merge is merging with the entry inserted into the
/// second part.
proof fn lemma_inserted_into_merged(
    order: ArticleOrder,
    a: Seq<ArticleListArticleModelView>,
    b: Seq<ArticleListArticleModelView>,
    x: ArticleListArticleModelView,
)
    ensures
        inserted(order, merged(order, a, b), x) == merged(order, a, inserted(order, b, x)),
    decreases a.len() + b.len(),
{
    let bx = inserted(order, b, x);
    lemma_inserted_step(order, b, x);
    lemma_inserted_step(order, merged(order, a, b), x);
    if a.len() == 0 {
        lemma_insert_pos(order, b, x);
    } else if b.len() == 0 {
        assert(bx =~= seq![x]);
        assert(bx.last() == x);
        assert(bx.drop_last() =~= b);
        if comes_before(order, x, a.last()) {
            lemma_inserted_into_merged(order, a.drop_last(), b, x);
            if a.len() == 1 {
                assert(a.drop_last().len() == 0);
            }
            assert(merged(order, a.drop_last(), b) == a.drop_last());
            assert(merged(order, a.drop_last(), bx) == inserted(order, a.drop_last(), x));
        } else {
            assert(merged(order, a, bx.drop_last()) == a);
        }
    } else if comes_before(order, x, b.last()) {
        assert(bx.last() == b.last());
        assert(bx.drop_last() =~= inserted(order, b.drop_last(), x));
        if comes_before(order, b.last(), a.last()) {
            lemma_inserted_into_merged(order, a.drop_last(), b, x);
            assert(merged(order, a, b).last() == a.last());
            assert(merged(order, a, b).drop_last() =~= merged(order, a.drop_last(), b));
        } else {
            lemma_inserted_into_merged(order, a, b.drop_last(), x);
            assert(merged(order, a, b).last() == b.last());
            assert(merged(order, a, b).drop_last() =~= merged(order, a, b.drop_last()));
        }
    } else {
        assert(bx.last() == x);
        assert(bx.drop_last() =~= b);
        if comes_before(order, x, a.last()) {
            lemma_inserted_into_merged(order, a.drop_last(), b, x);
            lemma_inserted_step(order, b, x);
            assert(merged(order, a, b).last() == a.last());
            assert(merged(order, a, b).drop_last() =~= merged(order, a.drop_last(), b));
        } else {
            if comes_before(order, b.last(), a.last()) {
                assert(merged(order, a, b).last() == a.last());
            } else {
                assert(merged(order, a, b).last() == b.last());
            }
        }
    }
}

/// Sorting a sequence of two parts is merging the two sorted parts.
pub proof fn lemma_sort_of_parts(
    order: ArticleOrder,
    a: Seq<ArticleListArticleModelView>,
    b: Seq<ArticleListArticleModelView>,
)
    ensures
        stable_sort(order, a + b) == merged(order, stable_sort(order, a), stable_sort(order, b)),
    decreases b.len(),
{
    if b.len() == 0 {
        assert(a + b =~= a);
        if stable_sort(order, a).len() > 0 {
        }
    } else {
        lemma_sort_of_parts(order, a, b.drop_last());
        assert((a + b).drop_last() =~= a + b.drop_last());
        assert((a + b).last() == b.last());
        lemma_inserted_into_merged(
            order,
            stable_sort(order, a),
            stable_sort(order, b.drop_last()),
            b.last(),
        );
    }
}

/// Sorting keeps the identities: those of the entries are the same, and
/// distinct if they were.
pub proof fn lemma_sort_keeps_ids(order: ArticleOrder, s: Seq<ArticleListArticleModelView>)
    ensures
        forall|id: Seq<char>| contains_id(s, id) <==> contains_id(stable_sort(order, s), id),
        distinct_ids(s) ==> distinct_ids(stable_sort(order, s)),
    decreases s.len(),
{
    let t = stable_sort(order, s);
    if s.len() > 0 {
        let rest = s.drop_last();
        let sorted = stable_sort(order, rest);
        let x = s.last();
        let p = insert_pos(order, sorted, x);
        lemma_sort_keeps_ids(order, rest);
        lemma_insert_pos(order, sorted, x);
        assert forall|id: Seq<char>| contains_id(s, id) <==> contains_id(t, id) by {
            if contains_id(s, id) {
                let k = choose|k: int| 0 <= k < s.len() && (#[trigger] s[k]).id == id;
                if k == s.len() - 1 {
                    assert(t[p].id == id);
                } else {
                    assert(rest[k].id == id);
                    assert(contains_id(rest, id));
                    assert(contains_id(sorted, id));
                    let m = choose|m: int| 0 <= m < sorted.len() && (#[trigger] sorted[m]).id == id;
                    let tm = if m < p { m } else { m + 1 };
                    assert(t[tm].id == id);
                }
            }
            if contains_id(t, id) {
                let k = choose|k: int| 0 <= k < t.len() && (#[trigger] t[k]).id == id;
                if k == p {
                    assert(s[s.len() - 1].id == id);
                } else {
                    let m = if k < p { k } else { k - 1 };
                    assert(sorted[m].id == id);
                    assert(contains_id(sorted, id));
                    assert(contains_id(rest, id));
                    let r = choose|r: int| 0 <= r < rest.len() && (#[trigger] rest[r]).id == id;
                    assert(s[r].id == id);
                }
            }
        }
        if distinct_ids(s) {
            assert(distinct_ids(rest)) by {
                assert forall|i: int, j: int| 0 <= i < j < rest.len() implies (
                #[trigger] rest[i]).id != (#[trigger] rest[j]).id by {
                    assert(rest[i] == s[i] && rest[j] == s[j]);
                }
            }
            assert forall|m: int| 0 <= m < sorted.len() implies (#[trigger] sorted[m]).id != x.id by {
                if sorted[m].id == x.id {
                    assert(contains_id(sorted, x.id));
                    assert(contains_id(rest, x.id));
                    let r = choose|r: int| 0 <= r < rest.len() && (#[trigger] rest[r]).id == x.id;
                    assert(s[r].id != s[s.len() - 1].id);
                }
            }
            assert forall|i: int, j: int| 0 <= i < j < t.len() implies (#[trigger] t[i]).id != (
            #[trigger] t[j]).id by {
                let oi = if i < p { i } else { i - 1 };
                let oj = if j < p { j } else { j - 1 };
                if i == p {
                    assert(t[j] == sorted[oj]);
                } else if j == p {
                    assert(t[i] == sorted[oi]);
                } else {
                    assert(t[i] == sorted[oi] && t[j] == sorted[oj]);
                }
            }
        }
    }
}

} // verus!
