use newsflash_core::article_list::models::{
    ArticleListArticleModel, ArticleListChangeSet, ArticleListModel, ArticleListModelErrorKind,
};
use newsflash_core::models::{Article, ArticleID, ArticleOrder, FeedID, Marked, Read};

fn article(id: &str, date: i64, unread: Read) -> Article {
    Article {
        article_id: ArticleID::new(id),
        title: Some(format!("title of {}", id)),
        feed_id: FeedID::new("feed"),
        date,
        unread,
        marked: Marked::Unmarked,
    }
}

fn list(order: ArticleOrder, articles: Vec<Article>) -> ArticleListModel {
    let mut model = ArticleListModel::new(&order);
    for a in articles {
        model.add(a, "Feed".to_owned(), None).unwrap();
    }
    model
}

fn ids(model: &ArticleListModel) -> Vec<String> {
    model.models().iter().map(|m: &ArticleListArticleModel| m.id.as_str().to_owned()).collect()
}

// 2020-01-01, 2020-01-02 and 2020-01-03 as timestamps
const JAN_1: i64 = 1_577_836_800;
const JAN_2: i64 = 1_577_923_200;
const JAN_3: i64 = 1_578_009_600;

#[test]
fn diff_adds_updates_and_removes() {
    let mut old = list(
        ArticleOrder::NewestFirst,
        vec![article("A", JAN_2, Read::Unread), article("B", JAN_1, Read::Read)],
    );
    let mut new = list(
        ArticleOrder::NewestFirst,
        vec![article("A", JAN_2, Read::Read), article("C", JAN_3, Read::Unread)],
    );
    let diff = old.generate_diff(&mut new);
    assert_eq!(diff.len(), 3);
    match &diff[0] {
        ArticleListChangeSet::Add(model, pos) => {
            assert_eq!(model.id.as_str(), "C");
            assert_eq!(model.unread, Read::Unread);
            assert_eq!(model.date, JAN_3);
            assert_eq!(*pos, 0);
        }
        other => panic!("expected an addition, got {:?}", other),
    }
    assert_eq!(diff[1], ArticleListChangeSet::UpdateRead(ArticleID::new("A"), Read::Read));
    assert_eq!(diff[2], ArticleListChangeSet::Remove(ArticleID::new("B")));
    assert_eq!(ids(&new), vec!["C", "A"]);
}

#[test]
fn duplicate_add_is_rejected_and_changes_nothing() {
    let mut model = list(ArticleOrder::NewestFirst, vec![article("A", JAN_1, Read::Unread)]);
    let result = model.add(article("A", JAN_2, Read::Read), "Other".to_owned(), None);
    assert_eq!(result.unwrap_err().kind(), ArticleListModelErrorKind::AlreadyContainsArticle);
    assert_eq!(model.models().len(), 1);
    assert_eq!(model.models()[0].date, JAN_1);
    assert_eq!(model.models()[0].unread, Read::Unread);
    assert!(model.contains(&ArticleID::new("A")));
    assert!(!model.contains(&ArticleID::new("B")));
}

fn marked(id: &str, date: i64, marked: Marked) -> Article {
    Article {
        article_id: ArticleID::new(id),
        title: None,
        feed_id: FeedID::new("feed"),
        date,
        unread: Read::Read,
        marked,
    }
}

#[test]
fn sort_is_stable_in_both_orders() {
    let entries = || {
        vec![
            article("a", 5, Read::Read),
            article("b", 3, Read::Read),
            article("c", 5, Read::Read),
            article("d", 9, Read::Read),
            article("e", 3, Read::Read),
            article("f", 5, Read::Read),
        ]
    };
    let mut newest = list(ArticleOrder::NewestFirst, entries());
    newest.sort();
    assert_eq!(ids(&newest), vec!["d", "a", "c", "f", "b", "e"]);
    newest.sort();
    assert_eq!(ids(&newest), vec!["d", "a", "c", "f", "b", "e"]);
    let mut oldest = list(ArticleOrder::OldestFirst, entries());
    oldest.sort();
    assert_eq!(ids(&oldest), vec!["b", "e", "a", "c", "f", "d"]);
    assert!(oldest.contains(&ArticleID::new("f")));
}

#[test]
fn sort_of_empty_and_single() {
    let mut empty = ArticleListModel::new(&ArticleOrder::OldestFirst);
    empty.sort();
    assert!(empty.models().is_empty());
    let mut one = list(ArticleOrder::OldestFirst, vec![article("a", i64::MIN, Read::Read)]);
    one.sort();
    assert_eq!(ids(&one), vec!["a"]);
}

#[test]
fn selection_is_by_display_index() {
    let mut model = list(
        ArticleOrder::OldestFirst,
        vec![article("late", 9, Read::Read), article("early", 1, Read::Read)],
    );
    assert_eq!(model.calculate_selection(0).unwrap().id.as_str(), "early");
    assert_eq!(model.calculate_selection(1).unwrap().id.as_str(), "late");
    assert!(model.calculate_selection(2).is_none());
    assert!(model.calculate_selection(-1).is_none());
    assert!(model.calculate_selection(i32::MAX).is_none());
    assert!(model.calculate_selection(i32::MIN).is_none());
    assert_eq!(ids(&model), vec!["early", "late"]);
}

#[test]
fn diff_of_identical_lists_is_empty() {
    let entries =
        || vec![article("a", 1, Read::Read), article("b", 2, Read::Unread), article("c", 2, Read::Read)];
    let mut old = list(ArticleOrder::NewestFirst, entries());
    let mut new = list(ArticleOrder::NewestFirst, entries());
    assert!(old.generate_diff(&mut new).is_empty());
    assert_eq!(ids(&old), vec!["b", "c", "a"]);
    assert_eq!(ids(&new), vec!["b", "c", "a"]);
}

#[test]
fn diff_against_empty_lists() {
    let mut old = ArticleListModel::new(&ArticleOrder::NewestFirst);
    let mut new = list(
        ArticleOrder::NewestFirst,
        vec![article("a", 1, Read::Read), article("b", 2, Read::Read)],
    );
    let diff = old.generate_diff(&mut new);
    assert_eq!(diff.len(), 2);
    match (&diff[0], &diff[1]) {
        (ArticleListChangeSet::Add(first, 0), ArticleListChangeSet::Add(second, 1)) => {
            assert_eq!(first.id.as_str(), "b");
            assert_eq!(second.id.as_str(), "a");
        }
        other => panic!("expected two additions, got {:?}", other),
    }
    let mut gone = ArticleListModel::new(&ArticleOrder::NewestFirst);
    let diff = new.generate_diff(&mut gone);
    assert_eq!(
        diff,
        vec![
            ArticleListChangeSet::Remove(ArticleID::new("b")),
            ArticleListChangeSet::Remove(ArticleID::new("a")),
        ]
    );
}

#[test]
fn diff_updates_read_before_marked() {
    let mut old = list(ArticleOrder::NewestFirst, vec![marked("a", 1, Marked::Unmarked)]);
    let mut a = marked("a", 1, Marked::Marked);
    a.unread = Read::Unread;
    let mut new = list(ArticleOrder::NewestFirst, vec![a]);
    let diff = old.generate_diff(&mut new);
    assert_eq!(
        diff,
        vec![
            ArticleListChangeSet::UpdateRead(ArticleID::new("a"), Read::Unread),
            ArticleListChangeSet::UpdateMarked(ArticleID::new("a"), Marked::Marked),
        ]
    );
}

#[test]
fn diff_of_an_appended_page_adds_at_the_end() {
    let mut old = list(
        ArticleOrder::NewestFirst,
        vec![article("a", 9, Read::Read), article("b", 8, Read::Read)],
    );
    let mut new = list(
        ArticleOrder::NewestFirst,
        vec![
            article("a", 9, Read::Read),
            article("b", 8, Read::Read),
            article("c", 7, Read::Read),
            article("d", 6, Read::Read),
        ],
    );
    let diff = old.generate_diff(&mut new);
    assert_eq!(diff.len(), 2);
    match (&diff[0], &diff[1]) {
        (ArticleListChangeSet::Add(c, 2), ArticleListChangeSet::Add(d, 3)) => {
            assert_eq!(c.id.as_str(), "c");
            assert_eq!(d.id.as_str(), "d");
        }
        other => panic!("expected two additions, got {:?}", other),
    }
}

#[test]
fn changed_content_adds_the_new_row_and_removes_the_old() {
    let mut old = list(ArticleOrder::NewestFirst, vec![article("a", 5, Read::Read)]);
    let mut changed = article("a", 5, Read::Read);
    changed.title = Some("another title".to_owned());
    let mut new = list(ArticleOrder::NewestFirst, vec![changed]);
    let diff = old.generate_diff(&mut new);
    assert_eq!(diff.len(), 2);
    match &diff[0] {
        ArticleListChangeSet::Add(model, 0) => {
            assert_eq!(model.title.as_deref(), Some("another title"))
        }
        other => panic!("expected an addition, got {:?}", other),
    }
    assert_eq!(diff[1], ArticleListChangeSet::Remove(ArticleID::new("a")));
}

#[test]
fn add_model_and_set_read() {
    let mut model = ArticleListModel::new(&ArticleOrder::NewestFirst);
    let entry = ArticleListArticleModel::new(article("a", 1, Read::Unread), "Feed".to_owned(), None);
    let copy = entry.clone();
    assert!(model.add_model(entry).is_ok());
    assert_eq!(
        model.add_model(copy).unwrap_err().kind(),
        ArticleListModelErrorKind::AlreadyContainsArticle
    );
    model.set_read(&ArticleID::new("a"), Read::Read);
    assert_eq!(model.models().len(), 1);
    assert_eq!(model.models()[0].unread, Read::Unread);
    assert_eq!(model.models()[0].feed_title, "Feed");
    assert_eq!(
        model.add_model(model.models()[0].clone()).unwrap_err().message(),
        "Article already exists in the list"
    );
}

fn rows_after(old: &ArticleListModel, diff: &[ArticleListChangeSet]) -> Vec<(String, Read, Marked)> {
    let mut rows: Vec<(String, Read, Marked)> =
        old.models().iter().map(|m| (m.id.as_str().to_owned(), m.unread, m.marked)).collect();
    for change in diff {
        match change {
            ArticleListChangeSet::Add(model, pos) => {
                rows.insert(*pos, (model.id.as_str().to_owned(), model.unread, model.marked))
            }
            ArticleListChangeSet::Remove(id) => {
                if let Some(at) = rows.iter().position(|row| row.0 == id.as_str()) {
                    rows.remove(at);
                }
            }
            ArticleListChangeSet::UpdateRead(id, read) => {
                if let Some(row) = rows.iter_mut().find(|row| row.0 == id.as_str()) {
                    row.1 = *read;
                }
            }
            ArticleListChangeSet::UpdateMarked(id, marked) => {
                if let Some(row) = rows.iter_mut().find(|row| row.0 == id.as_str()) {
                    row.2 = *marked;
                }
            }
        }
    }
    rows
}

#[test]
fn diff_applied_to_the_old_rows_gives_the_new_rows() {
    let mut old = list(
        ArticleOrder::OldestFirst,
        vec![
            article("a", 1, Read::Unread),
            article("b", 2, Read::Read),
            article("c", 3, Read::Unread),
            article("d", 4, Read::Read),
            article("e", 4, Read::Read),
        ],
    );
    let mut kept = marked("x", 0, Marked::Marked);
    kept.title = Some("title of b".to_owned());
    kept.article_id = ArticleID::new("b");
    kept.date = 2;
    let mut new = list(
        ArticleOrder::OldestFirst,
        vec![
            article("z", 9, Read::Unread),
            article("e", 4, Read::Unread),
            kept,
            article("n", 0, Read::Read),
            article("d", 4, Read::Read),
            article("m", 3, Read::Read),
        ],
    );
    let diff = old.generate_diff(&mut new);
    let expected: Vec<(String, Read, Marked)> =
        new.models().iter().map(|m| (m.id.as_str().to_owned(), m.unread, m.marked)).collect();
    assert_eq!(ids(&new), vec!["n", "b", "m", "e", "d", "z"]);
    assert_ne!(rows_after(&old, &diff), expected);

    let mut new = list(
        ArticleOrder::OldestFirst,
        vec![
            article("z", 9, Read::Unread),
            article("d", 4, Read::Unread),
            article("n", 0, Read::Read),
            article("e", 4, Read::Read),
            article("b", 2, Read::Unread),
            article("m", 3, Read::Read),
        ],
    );
    let diff = old.generate_diff(&mut new);
    let expected: Vec<(String, Read, Marked)> =
        new.models().iter().map(|m| (m.id.as_str().to_owned(), m.unread, m.marked)).collect();
    assert_eq!(ids(&new), vec!["n", "b", "m", "d", "e", "z"]);
    assert_eq!(rows_after(&old, &diff), expected);
}

#[test]
fn sort_of_many_entries_matches_a_stable_sort() {
    let mut dates: Vec<i64> = Vec::new();
    let mut seed: u64 = 7;
    for _ in 0..500 {
        seed = seed.wrapping_mul(6364136223846793005).wrapping_add(1442695040888963407);
        dates.push(((seed >> 33) % 40) as i64 - 20);
    }
    for order in [ArticleOrder::NewestFirst, ArticleOrder::OldestFirst] {
        let mut model = ArticleListModel::new(&order);
        for (index, date) in dates.iter().enumerate() {
            model.add(article(&format!("{}", index), *date, Read::Read), "Feed".to_owned(), None).unwrap();
        }
        model.sort();
        let mut expected: Vec<(usize, i64)> = dates.iter().copied().enumerate().collect();
        match order {
            ArticleOrder::OldestFirst => expected.sort_by(|a, b| a.1.cmp(&b.1)),
            ArticleOrder::NewestFirst => expected.sort_by(|a, b| a.1.cmp(&b.1).reverse()),
        }
        let expected: Vec<String> = expected.iter().map(|(index, _)| format!("{}", index)).collect();
        assert_eq!(ids(&model), expected);
        assert_eq!(model.models().len(), 500);
        assert!(model.contains(&ArticleID::new("499")));
    }
}
