use newsflash_core::models::{Category, CategoryID, Feed, FeedID, FeedMapping};
use newsflash_core::sidebar::feed_list::models::{
    FeedListChangeSet, FeedListItem, FeedListModelErrorKind, FeedListTree,
};

fn category(id: &str, parent: Option<&str>, sort_index: i32) -> Category {
    Category {
        category_id: CategoryID::new(id),
        label: format!("label of {}", id),
        sort_index: Some(sort_index),
        parent_id: parent.map(CategoryID::new),
    }
}

fn feed(id: &str, sort_index: i32) -> Feed {
    Feed { feed_id: FeedID::new(id), label: format!("label of {}", id), sort_index: Some(sort_index) }
}

fn mapping(feed: &str, category: &str) -> FeedMapping {
    FeedMapping { feed_id: FeedID::new(feed), category_id: CategoryID::new(category) }
}

fn name(item: &FeedListItem) -> String {
    match item {
        FeedListItem::Category(c) => format!("c:{}@{}", c.id.as_str(), c.level),
        FeedListItem::Feed(f) => format!("f:{}@{}", f.id.as_str(), f.level),
    }
}

fn names(tree: &FeedListTree) -> Vec<String> {
    tree.items().iter().map(name).collect()
}

fn sample() -> FeedListTree {
    let mut tree = FeedListTree::new();
    tree.add_category(&category("news", None, 1), 4).unwrap();
    tree.add_category(&category("tech", None, 0), 2).unwrap();
    tree.add_category(&category("rust", Some("tech"), 5), 1).unwrap();
    tree.add_feed(&feed("blog", 0), &mapping("blog", "rust"), 1, None).unwrap();
    tree.add_feed(&feed("wire", 2), &mapping("wire", "news"), 4, None).unwrap();
    tree.add_feed(&feed("lwn", 1), &mapping("lwn", "tech"), 1, None).unwrap();
    tree
}

#[test]
fn empty_tree_against_category_with_feed() {
    let old = FeedListTree::new();
    let mut new = FeedListTree::new();
    new.add_category(&category("cat", None, 0), 0).unwrap();
    new.add_feed(&feed("feed", 0), &mapping("feed", "cat"), 3, None).unwrap();
    let diff = old.generate_diff(&mut new);
    assert_eq!(diff.len(), 2);
    match &diff[0] {
        FeedListChangeSet::AddCategory(model, pos, visible) => {
            assert_eq!(model.id.as_str(), "cat");
            assert_eq!(model.item_count, 0);
            assert_eq!(model.level, 0);
            assert_eq!(*pos, 0);
            assert!(*visible);
        }
        other => panic!("expected a category, got {:?}", other),
    }
    match &diff[1] {
        FeedListChangeSet::AddFeed(model, pos, visible) => {
            assert_eq!(model.id.as_str(), "feed");
            assert_eq!(model.parent_id.as_str(), "cat");
            assert_eq!(model.item_count, 3);
            assert_eq!(model.level, 1);
            assert_eq!(*pos, 1);
            assert!(*visible);
        }
        other => panic!("expected a feed, got {:?}", other),
    }
}

#[test]
fn nodes_stand_in_display_order() {
    let tree = sample();
    assert_eq!(
        names(&tree),
        vec!["c:tech@0", "f:lwn@1", "c:rust@1", "f:blog@2", "c:news@0", "f:wire@1"]
    );
}

#[test]
fn equal_sort_index_keeps_insertion_order() {
    let mut tree = FeedListTree::new();
    tree.add_category(&category("a", None, 3), 0).unwrap();
    tree.add_category(&category("b", None, 3), 0).unwrap();
    tree.add_feed(&feed("x", 1), &mapping("x", "a"), 0, None).unwrap();
    tree.add_category(&category("c", None, 3), 0).unwrap();
    tree.add_category(&category("first", None, 2), 0).unwrap();
    assert_eq!(names(&tree), vec!["c:first@0", "c:a@0", "f:x@1", "c:b@0", "c:c@0"]);
}

#[test]
fn duplicates_and_dangling_parents_are_rejected() {
    let mut tree = sample();
    let before = names(&tree);
    let e = tree.add_category(&category("tech", None, 9), 0).unwrap_err();
    assert_eq!(e.kind(), FeedListModelErrorKind::DuplicateCategory);
    let e = tree.add_category(&category("orphan", Some("nowhere"), 0), 0).unwrap_err();
    assert_eq!(e.kind(), FeedListModelErrorKind::DanglingParent);
    let e = tree.add_feed(&feed("blog", 0), &mapping("blog", "news"), 0, None).unwrap_err();
    assert_eq!(e.kind(), FeedListModelErrorKind::DuplicateFeed);
    let e = tree.add_feed(&feed("stray", 0), &mapping("stray", "nowhere"), 0, None).unwrap_err();
    assert_eq!(e.kind(), FeedListModelErrorKind::DanglingParent);
    assert_eq!(names(&tree), before);
}

#[test]
fn collapse_returns_all_descendants_and_toggles() {
    let mut tree = sample();
    let (feeds, categories, expanded) =
        tree.collapse_expand_ids(&CategoryID::new("tech")).unwrap();
    assert!(!expanded);
    let feeds: Vec<&str> = feeds.iter().map(|f| f.as_str()).collect();
    let categories: Vec<&str> = categories.iter().map(|c| c.as_str()).collect();
    assert_eq!(feeds, vec!["lwn", "blog"]);
    assert_eq!(categories, vec!["rust"]);
    let (feeds, categories, expanded) =
        tree.collapse_expand_ids(&CategoryID::new("tech")).unwrap();
    assert!(expanded);
    assert_eq!(feeds.len(), 2);
    assert_eq!(categories.len(), 1);
    let (feeds, categories, expanded) =
        tree.collapse_expand_ids(&CategoryID::new("news")).unwrap();
    assert!(!expanded);
    assert_eq!(feeds.len(), 1);
    assert_eq!(feeds[0].as_str(), "wire");
    assert!(categories.is_empty());
}

#[test]
fn collapse_of_unknown_category_is_none() {
    let mut tree = sample();
    let before = names(&tree);
    assert!(tree.collapse_expand_ids(&CategoryID::new("nowhere")).is_none());
    assert_eq!(names(&tree), before);
}

#[test]
fn diff_of_identical_trees_is_empty() {
    let old = sample();
    let mut new = sample();
    assert!(old.generate_diff(&mut new).is_empty());
}

#[test]
fn diff_carries_the_expanded_flag_over() {
    let mut old = sample();
    old.collapse_expand_ids(&CategoryID::new("tech")).unwrap();
    let mut new = FeedListTree::new();
    new.add_category(&category("news", None, 1), 7).unwrap();
    new.add_category(&category("tech", None, 0), 2).unwrap();
    new.add_category(&category("rust", Some("tech"), 5), 1).unwrap();
    new.add_feed(&feed("blog", 0), &mapping("blog", "rust"), 1, None).unwrap();
    new.add_feed(&feed("wire", 2), &mapping("wire", "news"), 4, None).unwrap();
    new.add_feed(&feed("lwn", 1), &mapping("lwn", "tech"), 1, None).unwrap();
    let diff = old.generate_diff(&mut new);
    assert_eq!(diff.len(), 1);
    match &diff[0] {
        FeedListChangeSet::CategoryUpdateItemCount(id, count) => {
            assert_eq!(id.as_str(), "news");
            assert_eq!(*count, 7);
        }
        other => panic!("expected a count update, got {:?}", other),
    }
    for item in new.items() {
        if let FeedListItem::Category(c) = item {
            assert_eq!(c.expanded, c.id.as_str() != "tech");
        }
    }
}

#[test]
fn diff_removes_adds_and_updates() {
    let mut old = sample();
    old.collapse_expand_ids(&CategoryID::new("tech")).unwrap();
    let mut new = FeedListTree::new();
    new.add_category(&category("tech", None, 0), 2).unwrap();
    new.add_category(&category("go", Some("tech"), 7), 0).unwrap();
    new.add_feed(&feed("gophers", 0), &mapping("gophers", "go"), 0, None).unwrap();
    let mut renamed = feed("lwn", 1);
    renamed.label = "Linux Weekly News".to_owned();
    new.add_feed(&renamed, &mapping("lwn", "tech"), 1, None).unwrap();
    new.add_category(&category("misc", None, 4), 0).unwrap();
    let diff = old.generate_diff(&mut new);
    let text: Vec<String> = diff
        .iter()
        .map(|change| match change {
            FeedListChangeSet::RemoveFeed(id) => format!("-f {}", id.as_str()),
            FeedListChangeSet::RemoveCategory(id) => format!("-c {}", id.as_str()),
            FeedListChangeSet::AddFeed(m, pos, v) => format!("+f {} {} {}", m.id.as_str(), pos, v),
            FeedListChangeSet::AddCategory(m, pos, v) => {
                format!("+c {} {} {}", m.id.as_str(), pos, v)
            }
            FeedListChangeSet::FeedUpdateItemCount(id, n) => format!("#f {} {}", id.as_str(), n),
            FeedListChangeSet::CategoryUpdateItemCount(id, n) => {
                format!("#c {} {}", id.as_str(), n)
            }
            FeedListChangeSet::FeedUpdateLabel(id, l) => format!("=f {} {}", id.as_str(), l),
            FeedListChangeSet::CategoryUpdateLabel(id, l) => format!("=c {} {}", id.as_str(), l),
        })
        .collect();
    assert_eq!(
        text,
        vec![
            "-c rust",
            "-f blog",
            "-c news",
            "-f wire",
            "=f lwn Linux Weekly News",
            "+c go 2 false",
            "+f gophers 3 false",
            "+c misc 4 true",
        ]
    );
}

#[test]
fn nodes_without_sort_index_go_last() {
    let mut tree = FeedListTree::new();
    let mut unsorted = category("unsorted", None, 0);
    unsorted.sort_index = None;
    tree.add_category(&unsorted, 0).unwrap();
    tree.add_category(&category("sorted", None, 1_000_000), 0).unwrap();
    let mut loose = feed("loose", 0);
    loose.sort_index = None;
    tree.add_feed(&loose, &mapping("loose", "sorted"), 0, None).unwrap();
    tree.add_feed(&feed("placed", i32::MAX - 1), &mapping("placed", "sorted"), 0, None).unwrap();
    assert_eq!(names(&tree), vec!["c:sorted@0", "f:placed@1", "f:loose@1", "c:unsorted@0"]);
    match &tree.items()[2] {
        FeedListItem::Feed(f) => assert_eq!(f.sort_index, i32::MAX),
        other => panic!("expected a feed, got {:?}", other),
    }
}

#[test]
fn children_are_the_nodes_directly_below() {
    let tree = sample();
    assert_eq!(tree.children_of(&CategoryID::new("tech")), Some(vec![1, 2]));
    assert_eq!(tree.children_of(&CategoryID::new("rust")), Some(vec![3]));
    assert_eq!(tree.children_of(&CategoryID::new("news")), Some(vec![5]));
    assert_eq!(tree.children_of(&CategoryID::new("nowhere")), None);
    let mut bare = FeedListTree::new();
    bare.add_category(&category("only", None, 0), 0).unwrap();
    assert_eq!(bare.children_of(&CategoryID::new("only")), Some(vec![]));
}

#[test]
fn error_messages() {
    let mut tree = sample();
    let e = tree.add_category(&category("tech", None, 9), 0).unwrap_err();
    assert_eq!(e.message(), "Category already exists in the tree");
    let e = tree.add_feed(&feed("blog", 0), &mapping("blog", "news"), 0, None).unwrap_err();
    assert_eq!(e.message(), "Feed already exists in the tree");
    let e = tree.add_feed(&feed("stray", 0), &mapping("stray", "nowhere"), 0, None).unwrap_err();
    assert_eq!(e.message(), "Parent category is not in the tree");
}

fn row_key(item: &FeedListItem) -> (bool, String) {
    match item {
        FeedListItem::Category(c) => (true, c.id.as_str().to_owned()),
        FeedListItem::Feed(f) => (false, f.id.as_str().to_owned()),
    }
}

fn rows(tree: &FeedListTree) -> std::collections::BTreeMap<(bool, String), (i64, String)> {
    tree.items()
        .iter()
        .map(|item| (row_key(item), (item.item_count(), item.label().to_owned())))
        .collect()
}

#[test]
fn diff_applied_to_the_old_rows_gives_the_new_rows_of_the_tree() {
    let old = sample();
    let mut new = FeedListTree::new();
    new.add_category(&category("tech", None, 3), 20).unwrap();
    new.add_category(&category("blog", None, 1), 0).unwrap();
    new.add_feed(&feed("tech", 0), &mapping("tech", "blog"), 5, None).unwrap();
    let mut renamed = feed("wire", 2);
    renamed.label = "The Wire".to_owned();
    new.add_feed(&renamed, &mapping("wire", "tech"), 9, None).unwrap();
    new.add_feed(&feed("lwn", 1), &mapping("lwn", "blog"), 1, None).unwrap();
    let diff = old.generate_diff(&mut new);
    let mut shown = rows(&old);
    for change in &diff {
        match change {
            FeedListChangeSet::RemoveFeed(id) => {
                shown.remove(&(false, id.as_str().to_owned()));
            }
            FeedListChangeSet::RemoveCategory(id) => {
                shown.remove(&(true, id.as_str().to_owned()));
            }
            FeedListChangeSet::AddFeed(m, _, _) => {
                shown.insert((false, m.id.as_str().to_owned()), (m.item_count, m.label.clone()));
            }
            FeedListChangeSet::AddCategory(m, _, _) => {
                shown.insert((true, m.id.as_str().to_owned()), (m.item_count, m.label.clone()));
            }
            FeedListChangeSet::FeedUpdateItemCount(id, n) => {
                shown.get_mut(&(false, id.as_str().to_owned())).unwrap().0 = *n;
            }
            FeedListChangeSet::CategoryUpdateItemCount(id, n) => {
                shown.get_mut(&(true, id.as_str().to_owned())).unwrap().0 = *n;
            }
            FeedListChangeSet::FeedUpdateLabel(id, l) => {
                shown.get_mut(&(false, id.as_str().to_owned())).unwrap().1 = l.clone();
            }
            FeedListChangeSet::CategoryUpdateLabel(id, l) => {
                shown.get_mut(&(true, id.as_str().to_owned())).unwrap().1 = l.clone();
            }
        }
    }
    assert_eq!(shown, rows(&new));
    assert_eq!(shown.len(), 5);
    assert_eq!(shown[&(false, "wire".to_owned())], (9, "The Wire".to_owned()));
    assert_eq!(shown[&(true, "tech".to_owned())], (20, "label of tech".to_owned()));
}

#[test]
fn diff_applied_row_by_row_gives_the_display_order_of_the_new_tree() {
    let old = sample();
    let mut new = FeedListTree::new();
    new.add_category(&category("top", None, -5), 0).unwrap();
    new.add_category(&category("tech", None, 0), 2).unwrap();
    new.add_feed(&feed("first", -1), &mapping("first", "tech"), 0, None).unwrap();
    new.add_category(&category("rust", Some("tech"), 5), 1).unwrap();
    new.add_feed(&feed("blog", 0), &mapping("blog", "rust"), 1, None).unwrap();
    new.add_feed(&feed("cargo", 1), &mapping("cargo", "rust"), 1, None).unwrap();
    new.add_category(&category("news", None, 1), 4).unwrap();
    new.add_category(&category("last", None, 7), 4).unwrap();
    let diff = old.generate_diff(&mut new);
    let mut shown: Vec<(bool, String)> = old.items().iter().map(row_key).collect();
    for change in &diff {
        match change {
            FeedListChangeSet::RemoveFeed(id) => {
                shown.retain(|row| *row != (false, id.as_str().to_owned()))
            }
            FeedListChangeSet::RemoveCategory(id) => {
                shown.retain(|row| *row != (true, id.as_str().to_owned()))
            }
            FeedListChangeSet::AddFeed(m, pos, _) => {
                shown.insert(*pos, (false, m.id.as_str().to_owned()))
            }
            FeedListChangeSet::AddCategory(m, pos, _) => {
                shown.insert(*pos, (true, m.id.as_str().to_owned()))
            }
            _ => {}
        }
    }
    let expected: Vec<(bool, String)> = new.items().iter().map(row_key).collect();
    assert_eq!(shown, expected);
    assert_eq!(
        names(&new),
        vec![
            "c:top@0", "c:tech@0", "f:first@1", "c:rust@1", "f:blog@2", "f:cargo@2", "c:news@0",
            "c:last@0"
        ]
    );
}
