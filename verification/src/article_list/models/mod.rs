//! The model behind the article list: the entries in display order, an
//! index of their identities, and the configured sort order.

pub mod article;
pub mod change_set;
pub mod diff;
pub mod error;
pub mod order;

pub use article::ArticleListArticleModel;
pub use article::ArticleListArticleModelView;
pub use change_set::ArticleListChangeSet;
pub use change_set::ArticleListChangeSetView;
pub use error::ArticleListModelError;
pub use error::ArticleListModelErrorKind;

use crate::models::{icon_of, Article, ArticleID, ArticleOrder, FavIcon, Read};
use article::entry_of;
use diff::{change_views, diff_from, list_diff, state_updates};
use order::{
    comes_before, insert_pos, is_ordered, lemma_sort_keeps_ids, lemma_sort_of_ordered,
    lemma_sort_of_parts, merged, stable_sort,
};
use vstd::hash_set::StringHashSet;
use vstd::prelude::*;

verus! {

/// The values of a sequence of entries.
pub open spec fn entry_views(s: Seq<ArticleListArticleModel>) -> Seq<ArticleListArticleModelView> {
    s.map_values(|m: ArticleListArticleModel| m@)
}

/// Whether some entry of `s` has the identity.
pub open spec fn contains_id(s: Seq<ArticleListArticleModelView>, id: Seq<char>) -> bool {
    exists|k: int| 0 <= k < s.len() && (#[trigger] s[k]).id == id
}

/// No two entries of `s` share an identity.
pub open spec fn distinct_ids(s: Seq<ArticleListArticleModelView>) -> bool {
    forall|i: int, j: int| 0 <= i < j < s.len() ==> (#[trigger] s[i]).id != (#[trigger] s[j]).id
}

/// Whether `a` must stand strictly before `b`.
fn goes_before(order: ArticleOrder, a: &ArticleListArticleModel, b: &ArticleListArticleModel) -> (before:
    bool)
    ensures
        before == comes_before(order, a@, b@),
{
    match order {
        ArticleOrder::OldestFirst => a.date < b.date,
        ArticleOrder::NewestFirst => a.date > b.date,
    }
}

/// Merges two sequences of entries, each taken from its end.
fn merge(order: ArticleOrder, a: Vec<ArticleListArticleModel>, b: Vec<ArticleListArticleModel>) -> (out:
    Vec<ArticleListArticleModel>)
    ensures
        entry_views(out@) == merged(order, entry_views(a@), entry_views(b@)),
{
    let mut a = a;
    let mut b = b;
    let ghost whole = merged(order, entry_views(a@), entry_views(b@));
    // the end of the merge, its last entry first
    let mut end: Vec<ArticleListArticleModel> = Vec::new();
    assert(entry_views(end@).reverse() =~= Seq::empty());
    assert(whole + Seq::empty() =~= whole);
    while a.len() > 0 && b.len() > 0
        invariant
            whole == merged(order, entry_views(a@), entry_views(b@)) + entry_views(end@).reverse(),
        decreases a.len() + b.len(),
    {
        let ghost va = entry_views(a@);
        let ghost vb = entry_views(b@);
        let ghost tail = entry_views(end@).reverse();
        assert(va.last() == a@[a.len() - 1]@ && vb.last() == b@[b.len() - 1]@);
        if goes_before(order, &b[b.len() - 1], &a[a.len() - 1]) {
            let entry = a.pop().unwrap();
            end.push(entry);
            proof {
                assert(entry_views(a@) =~= va.drop_last());
                assert(entry_views(end@).reverse() =~= seq![va.last()] + tail);
                assert(merged(order, va.drop_last(), vb).push(va.last()) + tail =~= merged(
                    order,
                    va.drop_last(),
                    vb,
                ) + (seq![va.last()] + tail));
            }
        } else {
            let entry = b.pop().unwrap();
            end.push(entry);
            proof {
                assert(entry_views(b@) =~= vb.drop_last());
                assert(entry_views(end@).reverse() =~= seq![vb.last()] + tail);
                assert(merged(order, va, vb.drop_last()).push(vb.last()) + tail =~= merged(
                    order,
                    va,
                    vb.drop_last(),
                ) + (seq![vb.last()] + tail));
            }
        }
    }
    let mut out = if a.len() > 0 {
        a
    } else {
        b
    };
    while end.len() > 0
        invariant
            whole == entry_views(out@) + entry_views(end@).reverse(),
        decreases end.len(),
    {
        let ghost head = entry_views(out@);
        let ghost tail = entry_views(end@).reverse();
        let ghost ends = entry_views(end@);
        let entry = end.pop().unwrap();
        out.push(entry);
        proof {
            assert(entry_views(end@) =~= ends.drop_last());
            assert(entry_views(out@) =~= head.push(ends.last()));
            assert(tail =~= seq![ends.last()] + ends.drop_last().reverse());
            assert(head.push(ends.last()) + ends.drop_last().reverse() =~= head + tail);
        }
    }
    assert(entry_views(end@).reverse() =~= Seq::empty());
    assert(entry_views(out@) + Seq::empty() =~= entry_views(out@));
    out
}

/// Sorts a sequence of entries by halving and merging.
fn merge_sort(order: ArticleOrder, entries: Vec<ArticleListArticleModel>) -> (out: Vec<
    ArticleListArticleModel,
>)
    ensures
        entry_views(out@) == stable_sort(order, entry_views(entries@)),
    decreases entries.len(),
{
    let ghost whole = entry_views(entries@);
    if entries.len() <= 1 {
        proof {
            if whole.len() == 1 {
                assert(whole.drop_last().len() == 0);
                assert(stable_sort(order, whole.drop_last()) =~= Seq::empty());
                assert(insert_pos(order, Seq::empty(), whole.last()) == 0);
                assert(Seq::empty().insert(0, whole.last()) =~= whole);
            }
        }
        return entries;
    }
    let mut left = entries;
    let mid = left.len() / 2;
    let right = left.split_off(mid);
    proof {
        assert(whole =~= entry_views(left@) + entry_views(right@));
        lemma_sort_of_parts(order, entry_views(left@), entry_views(right@));
    }
    let left = merge_sort(order, left);
    let right = merge_sort(order, right);
    merge(order, left, right)
}

/// A snapshot of the article list. Its view is the sequence of its
/// entries.
pub struct ArticleListModel {
    models: Vec<ArticleListArticleModel>,
    ids: StringHashSet,
    sort: ArticleOrder,
}

impl View for ArticleListModel {
    type V = Seq<ArticleListArticleModelView>;

    closed spec fn view(&self) -> Seq<ArticleListArticleModelView> {
        entry_views(self.models@)
    }
}

impl ArticleListModel {
    /// The order that [`ArticleListModel::sort`] establishes.
    pub closed spec fn order(&self) -> ArticleOrder {
        self.sort
    }

    /// The invariant of the list: no identity occurs twice, and the index
    /// holds exactly the identities of the entries.
    pub closed spec fn wf(&self) -> bool {
        &&& distinct_ids(self@)
        &&& forall|id: Seq<char>| self.ids@.contains(id) <==> contains_id(self@, id)
    }

    /// In a well-formed list no two entries share an identity.
    pub proof fn lemma_identities_unique(&self)
        requires
            self.wf(),
        ensures
            distinct_ids(self@),
    {
    }

    /// An empty list with the given sort order.
    pub fn new(sort: &ArticleOrder) -> (list: Self)
        ensures
            list.wf(),
            list@ == Seq::<ArticleListArticleModelView>::empty(),
            list.order() == *sort,
    {
        let list = ArticleListModel { models: Vec::new(), ids: StringHashSet::new(), sort: *sort };
        assert(list@ =~= Seq::empty());
        list
    }

    /// Appends the entry of `article`, unless the list holds its identity
    /// already.
    pub fn add(&mut self, article: Article, feed_name: String, icon: Option<FavIcon>) -> (result:
        Result<(), ArticleListModelError>)
        requires
            old(self).wf(),
        ensures
            final(self).wf(),
            final(self).order() == old(self).order(),
            contains_id(old(self)@, article.article_id@) ==> {
                &&& result == Err::<(), ArticleListModelError>(
                    ArticleListModelError {
                        kind: ArticleListModelErrorKind::AlreadyContainsArticle,
                    },
                )
                &&& final(self)@ == old(self)@
            },
            !contains_id(old(self)@, article.article_id@) ==> {
                &&& result is Ok
                &&& final(self)@ == old(self)@.push(
                    entry_of(article, feed_name@, icon_of(icon)),
                )
            },
    {
        self.add_model(ArticleListArticleModel::new(article, feed_name, icon))
    }

    /// Appends `model`, unless the list holds its identity already.
    pub fn add_model(&mut self, model: ArticleListArticleModel) -> (result: Result<
        (),
        ArticleListModelError,
    >)
        requires
            old(self).wf(),
        ensures
            final(self).wf(),
            final(self).order() == old(self).order(),
            contains_id(old(self)@, model.id@) ==> {
                &&& result == Err::<(), ArticleListModelError>(
                    ArticleListModelError {
                        kind: ArticleListModelErrorKind::AlreadyContainsArticle,
                    },
                )
                &&& final(self)@ == old(self)@
            },
            !contains_id(old(self)@, model.id@) ==> {
                &&& result is Ok
                &&& final(self)@ == old(self)@.push(model@)
            },
    {
        if self.contains(&model.id) {
            return Err(ArticleListModelError::new(ArticleListModelErrorKind::AlreadyContainsArticle));
        }
        let ghost before = self@;
        self.ids.insert(model.id.as_str().to_owned());
        self.models.push(model);
        proof {
            let after = self@;
            assert(after =~= before.push(model@));
            assert forall|id: Seq<char>| self.ids@.contains(id) <==> contains_id(after, id) by {
                if contains_id(before, id) {
                    let k = choose|k: int| 0 <= k < before.len() && (#[trigger] before[k]).id == id;
                    assert(after[k].id == id);
                }
                if id == model.id@ {
                    assert(after[before.len() as int].id == id);
                }
                if contains_id(after, id) {
                    let k = choose|k: int| 0 <= k < after.len() && (#[trigger] after[k]).id == id;
                    if k < before.len() {
                        assert(before[k].id == id);
                    }
                }
            }
            assert forall|i: int, j: int| 0 <= i < j < after.len() implies (#[trigger] after[i]).id
                != (#[trigger] after[j]).id by {
                assert(after[i] == before[i]);
                if j < before.len() {
                    assert(after[j] == before[j]);
                }
            }
        }
        Ok(())
    }

    /// Whether the list holds an entry of the identity.
    pub fn contains(&self, article_id: &ArticleID) -> (found: bool)
        requires
            self.wf(),
        ensures
            found == contains_id(self@, article_id@),
    {
        self.ids.contains(article_id.as_str())
    }

    /// The entries, in their current order.
    pub fn models(&self) -> (entries: &Vec<ArticleListArticleModel>)
        ensures
            entry_views(entries@) == self@,
    {
        &self.models
    }

    /// The list holds snapshots of the backend's state: a changed read
    /// state arrives with the next snapshot, and the list stays as it is.
    pub fn set_read(&mut self, _id: &ArticleID, _read: Read)
        ensures
            *final(self) == *old(self),
    {
    }

    /// Sorts both lists, then walks them side by side and returns the
    /// edits that turn the rows of this list into those of `new_list`.
    ///
    /// An entry that both lists hold with the same content keeps its row,
    /// and only its read and marked state are brought up to date. An
    /// entry of this list whose identity `new_list` holds with another
    /// content, or at another place among the entries that both hold, is
    /// not moved: the entry of `new_list` is added, and the row of the
    /// old entry is removed once `new_list` is used up
    /// ([`diff::lemma_diff_complete`] says when the edits are complete).
    pub fn generate_diff(&mut self, new_list: &mut ArticleListModel) -> (diff: Vec<
        ArticleListChangeSet,
    >)
        requires
            old(self).wf(),
            old(new_list).wf(),
        ensures
            final(self).wf(),
            final(new_list).wf(),
            final(self).order() == old(self).order(),
            final(new_list).order() == old(new_list).order(),
            final(self)@ == stable_sort(old(self).order(), old(self)@),
            final(new_list)@ == stable_sort(old(new_list).order(), old(new_list)@),
            change_views(diff@) == list_diff(final(self)@, final(new_list)@),
    {
        self.sort();
        new_list.sort();
        let mut diff: Vec<ArticleListChangeSet> = Vec::new();
        let old_len = self.models.len();
        let new_len = new_list.models.len();
        let mut old_index: usize = 0;
        let mut new_index: usize = 0;
        let ghost o = self@;
        let ghost n = new_list@;
        assert(change_views(diff@) =~= Seq::empty());
        while old_index < old_len || new_index < new_len
            invariant
                self.wf(),
                new_list.wf(),
                self@ == o,
                new_list@ == n,
                old_len == self.models.len(),
                new_len == new_list.models.len(),
                old_index <= old_len,
                new_index <= new_len,
                change_views(diff@) + diff_from(o, n, old_index as int, new_index as int)
                    == list_diff(o, n),
            decreases old_len - old_index + new_len - new_index,
        {
            let ghost done = change_views(diff@);
            let ghost i = old_index as int;
            let ghost j = new_index as int;
            if old_index >= old_len {
                let new_model = &new_list.models[new_index];
                diff.push(ArticleListChangeSet::Add(new_model.clone(), new_index));
                new_index += 1;
                proof {
                    let step = seq![ArticleListChangeSetView::Add(n[j], j)];
                    assert(change_views(diff@) =~= done + step);
                    assert(done + (step + diff_from(o, n, i, j + 1)) =~= (done + step)
                        + diff_from(o, n, i, j + 1));
                }
            } else if new_index >= new_len {
                let old_model = &self.models[old_index];
                diff.push(ArticleListChangeSet::Remove(old_model.id.clone()));
                old_index += 1;
                proof {
                    let step = seq![ArticleListChangeSetView::Remove(o[i].id)];
                    assert(change_views(diff@) =~= done + step);
                    assert(done + (step + diff_from(o, n, i + 1, j)) =~= (done + step)
                        + diff_from(o, n, i + 1, j));
                }
            } else {
                let old_model = &self.models[old_index];
                let new_model = &new_list.models[new_index];
                if *new_model == *old_model {
                    if new_model.unread != old_model.unread {
                        diff.push(
                            ArticleListChangeSet::UpdateRead(new_model.id.clone(), new_model.unread),
                        );
                    }
                    if new_model.marked != old_model.marked {
                        diff.push(
                            ArticleListChangeSet::UpdateMarked(
                                new_model.id.clone(),
                                new_model.marked,
                            ),
                        );
                    }
                    old_index += 1;
                    new_index += 1;
                    proof {
                        let step = state_updates(o[i], n[j]);
                        assert(change_views(diff@) =~= done + step);
                        assert(done + (step + diff_from(o, n, i + 1, j + 1)) =~= (done + step)
                            + diff_from(o, n, i + 1, j + 1));
                    }
                } else if new_list.contains(&old_model.id) {
                    diff.push(ArticleListChangeSet::Add(new_model.clone(), new_index));
                    new_index += 1;
                    proof {
                        let step = seq![ArticleListChangeSetView::Add(n[j], j)];
                        assert(change_views(diff@) =~= done + step);
                        assert(done + (step + diff_from(o, n, i, j + 1)) =~= (done + step)
                            + diff_from(o, n, i, j + 1));
                    }
                } else {
                    diff.push(ArticleListChangeSet::Remove(old_model.id.clone()));
                    old_index += 1;
                    proof {
                        let step = seq![ArticleListChangeSetView::Remove(o[i].id)];
                        assert(change_views(diff@) =~= done + step);
                        assert(done + (step + diff_from(o, n, i + 1, j)) =~= (done + step)
                            + diff_from(o, n, i + 1, j));
                    }
                }
            }
        }
        assert(diff_from(o, n, old_len as int, new_len as int) =~= Seq::empty());
        assert(change_views(diff@) + Seq::empty() =~= change_views(diff@));
        diff
    }

    /// Whether the entries stand in the configured order already.
    fn in_order(&self) -> (ordered: bool)
        ensures
            ordered == is_ordered(self.order(), self@),
    {
        let ghost s = self@;
        let order = self.sort;
        let n = self.models.len();
        if n == 0 {
            return true;
        }
        let mut k: usize = 1;
        while k < n
            invariant
                1 <= k <= n,
                n == self.models.len(),
                n == s.len(),
                self@ == s,
                self.sort == order,
                is_ordered(order, s.take(k as int)),
            decreases n - k,
        {
            if goes_before(order, &self.models[k], &self.models[k - 1]) {
                assert(comes_before(order, s[k as int], s[k - 1]));
                return false;
            }
            proof {
                let prefix = s.take(k as int);
                let longer = s.take(k as int + 1);
                assert forall|i: int, j: int| 0 <= i < j < longer.len() implies !comes_before(
                    order,
                    longer[j],
                    longer[i],
                ) by {
                    if j < k {
                        assert(longer[i] == prefix[i] && longer[j] == prefix[j]);
                    } else if i < k - 1 {
                        assert(longer[i] == prefix[i] && prefix[k - 1] == s[k - 1]);
                        assert(!comes_before(order, prefix[k - 1], prefix[i]));
                    }
                }
            }
            k += 1;
        }
        assert(s.take(n as int) =~= s);
        true
    }

    /// Sorts the entries by date in the configured order. Entries of equal
    /// date keep the order in which they stood.
    pub fn sort(&mut self)
        requires
            old(self).wf(),
        ensures
            final(self).wf(),
            final(self).order() == old(self).order(),
            final(self)@ == stable_sort(old(self).order(), old(self)@),
    {
        let ghost before = self@;
        if self.in_order() {
            proof {
                lemma_sort_of_ordered(self.sort, before);
            }
            return;
        }
        let ghost index = self.ids@;
        let mut entries: Vec<ArticleListArticleModel> = Vec::new();
        std::mem::swap(&mut entries, &mut self.models);
        self.models = merge_sort(self.sort, entries);
        proof {
            lemma_sort_keeps_ids(self.sort, before);
            assert(self.ids@ == index);
            assert(self@ == stable_sort(self.sort, before));
            assert forall|id: Seq<char>| self.ids@.contains(id) <==> contains_id(self@, id) by {
                assert(index.contains(id) <==> contains_id(before, id));
                assert(contains_id(before, id) <==> contains_id(stable_sort(self.sort, before), id));
            }
        }
    }

    /// Sorts the list and hands out the entry at the display index, if
    /// there is one.
    pub fn calculate_selection(&mut self, selected_index: i32) -> (selected: Option<
        &ArticleListArticleModel,
    >)
        requires
            old(self).wf(),
        ensures
            final(self).wf(),
            final(self).order() == old(self).order(),
            final(self)@ == stable_sort(old(self).order(), old(self)@),
            match selected {
                Some(entry) => 0 <= selected_index < final(self)@.len() && entry@
                    == final(self)@[selected_index as int],
                None => !(0 <= selected_index < final(self)@.len()),
            },
    {
        self.sort();
        if selected_index < 0 {
            return None;
        }
        let index = selected_index as usize;
        if index < self.models.len() {
            Some(&self.models[index])
        } else {
            None
        }
    }
}

} // verus!
