use newsflash_core::article_view::models::{ArticleTheme, InternalState};
use newsflash_core::article_view::url_overlay::{label_width, shortened_url};
use newsflash_core::content_page::{
    article_limit, count_kind, ArticleQuery, CountKind, HeaderSelection, SidebarSelection,
};
use newsflash_core::discover::search_item_row::{
    display_description, feedly_id_to_rss_url, feedly_id_to_url_text, icon_url,
};
use newsflash_core::login_screen::password_login::headline;
use newsflash_core::models::{CategoryID, FavIcon, FeedID, Marked, Read, TagID};
use newsflash_core::responsive::{
    LayoutAction, LayoutChild, LayoutLeaflet, LayoutWidget, ResponsiveState,
};
use newsflash_core::sidebar::feed_list::category_row::{
    arrow_classes, opens_context_menu, toggles_arrow, ClickKind,
};
use newsflash_core::sidebar::feed_list::feed_list::drop_neighbours;
use newsflash_core::sidebar::feed_list::feed_row::{
    decimal_text, drag_data, drag_text, favicon_pixels, item_count_label, level_margin,
};
use newsflash_core::util::gtk_util::GtkUtil;
use newsflash_core::welcome_screen::welcome_page::{login_page, LoginKind, LoginPage};

#[test]
fn internal_state_names_and_switches() {
    assert_eq!(InternalState::Empty.to_str(), None);
    assert_eq!(InternalState::Crash.to_str(), None);
    assert_eq!(InternalState::View1.to_str(), Some("view_1"));
    assert_eq!(InternalState::View2.to_str(), Some("view_2"));
    assert_eq!(InternalState::View1.switch(), InternalState::View2);
    assert_eq!(InternalState::View2.switch(), InternalState::View1);
    assert_eq!(InternalState::Empty.switch(), InternalState::View1);
    assert_eq!(InternalState::Crash.switch(), InternalState::View1);
}

#[test]
fn theme_names() {
    assert_eq!(ArticleTheme::Default.to_str(), "theme default");
    assert_eq!(ArticleTheme::Spring.to_str(), "theme spring");
    assert_eq!(ArticleTheme::Midnight.to_str(), "theme midnight");
    assert_eq!(ArticleTheme::Parchment.to_str(), "theme parchment");
}

#[test]
fn long_addresses_are_cut() {
    let short = "https://example.com/";
    assert_eq!(shortened_url(short), short);
    assert_eq!(label_width(short), 15);
    let exact: String = "a".repeat(45);
    assert_eq!(shortened_url(&exact), exact);
    assert_eq!(label_width(&exact), 40);
    let long: String = "ä".repeat(46);
    let expected = format!("{}...", "ä".repeat(45));
    assert_eq!(shortened_url(&long), expected);
    assert_eq!(label_width(&long), 43);
    assert_eq!(shortened_url(""), "");
    assert_eq!(label_width(""), -5);
}

#[test]
fn limits_and_queries() {
    assert_eq!(article_limit(true, 500, 20), 20);
    assert_eq!(article_limit(false, 500, 20), 500);
    assert_eq!(article_limit(false, 20, 20), 20);
    assert_eq!(article_limit(false, 3, 20), 20);
    assert_eq!(count_kind(HeaderSelection::Marked), CountKind::Marked);
    assert_eq!(count_kind(HeaderSelection::Unread), CountKind::Unread);
    assert_eq!(count_kind(HeaderSelection::All), CountKind::Unread);

    let q = ArticleQuery::new(HeaderSelection::All, &SidebarSelection::All, 20, None);
    assert_eq!((q.limit, q.offset, q.unread, q.marked), (20, None, None, None));
    assert!(q.feed.is_none() && q.category.is_none() && q.tag.is_none());

    let q = ArticleQuery::new(
        HeaderSelection::Unread,
        &SidebarSelection::Feed(FeedID::new("f")),
        20,
        Some(40),
    );
    assert_eq!((q.offset, q.unread, q.marked), (Some(40), Some(Read::Unread), None));
    assert_eq!(q.feed.unwrap().as_str(), "f");
    assert!(q.category.is_none() && q.tag.is_none());

    let q = ArticleQuery::new(
        HeaderSelection::Marked,
        &SidebarSelection::Cateogry(CategoryID::new("c")),
        20,
        None,
    );
    assert_eq!((q.unread, q.marked), (None, Some(Marked::Marked)));
    assert_eq!(q.category.unwrap().as_str(), "c");
    assert!(q.feed.is_none() && q.tag.is_none());

    let q =
        ArticleQuery::new(HeaderSelection::All, &SidebarSelection::Tag(TagID::new("t")), 20, None);
    assert_eq!(q.tag.unwrap().as_str(), "t");
    assert!(q.feed.is_none() && q.category.is_none());
}

#[test]
fn feed_addresses_are_parsed() {
    assert_eq!(feedly_id_to_url_text("feed/http://example.com/rss"), "http://example.com/rss");
    assert_eq!(feedly_id_to_url_text("feed/"), "");
    assert_eq!(feedly_id_to_url_text("fee"), "");
    let url = feedly_id_to_rss_url("feed/HTTP://Example.COM").unwrap();
    assert_eq!(url.as_str(), "http://example.com/");
    let url = feedly_id_to_rss_url("feed/https://example.com/a b?q=1").unwrap();
    assert_eq!(url.as_str(), "https://example.com/a%20b?q=1");
    assert!(feedly_id_to_rss_url("feed/no address").is_none());
    assert!(feedly_id_to_rss_url("feed").is_none());
    assert!(feedly_id_to_rss_url("").is_none());
}

#[test]
fn descriptions_stand_on_one_line() {
    assert_eq!(display_description(&None), "No description");
    assert_eq!(display_description(&Some("plain".to_owned())), "plain");
    assert_eq!(
        display_description(&Some("a_b\nc\r\nd__".to_owned())),
        "a b c  d  "
    );
    assert_eq!(display_description(&Some(String::new())), "");
}

#[test]
fn picture_address_is_the_first_there_is() {
    let v = Some("visual".to_owned());
    let l = Some("logo".to_owned());
    let i = Some("icon".to_owned());
    assert_eq!(icon_url(&v, &l, &i), v);
    assert_eq!(icon_url(&None, &l, &i), l);
    assert_eq!(icon_url(&None, &None, &i), i);
    assert_eq!(icon_url(&v, &None, &None), v);
    assert_eq!(icon_url(&None, &None, &None), None);
}

#[test]
fn headline_names_the_service() {
    assert_eq!(headline("Miniflux"), "Please log into Miniflux and enjoy using NewsFlash");
    assert_eq!(headline(""), "Please log into  and enjoy using NewsFlash");
}

#[test]
fn login_pages() {
    assert_eq!(login_page(LoginKind::OAuth), Some(LoginPage::OAuth));
    assert_eq!(login_page(LoginKind::Password), Some(LoginPage::Password));
    assert_eq!(login_page(LoginKind::Direct), None);
}

#[test]
fn nothing_pending_after_new() {
    let mut state = ResponsiveState::new();
    assert!(!state.left_button_clicked && !state.right_button_clicked);
    assert!(!state.major_leaflet_selected && !state.major_leaflet_folded);
    assert!(!state.minor_leaflet_selected && !state.minor_leaflet_folded);
    assert!(state.process_state_change(true, true).is_empty());
    assert_eq!(state, ResponsiveState::new());
}

#[test]
fn events_are_processed_one_by_one() {
    let mut state = ResponsiveState::new();
    state.major_leaflet_folded = true;
    state.left_button_clicked = true;
    state.minor_leaflet_selected = true;
    let todo = state.process_state_change(false, true);
    assert_eq!(
        todo,
        vec![
            LayoutAction::SetVisible(LayoutWidget::RightButton, false),
            LayoutAction::SetVisibleChild(LayoutLeaflet::Major, LayoutChild::MinorLeaflet),
            LayoutAction::SetVisibleChild(LayoutLeaflet::Header, LayoutChild::LeftHeader),
            LayoutAction::SetVisible(LayoutWidget::ModeSwitchBox, true),
            LayoutAction::SetVisible(LayoutWidget::ModeSwitchButton, false),
        ]
    );
    assert!(!state.major_leaflet_folded && state.left_button_clicked);
    let todo = state.process_state_change(false, true);
    assert_eq!(
        todo,
        vec![
            LayoutAction::SetVisibleChild(LayoutLeaflet::Minor, LayoutChild::SidebarBox),
            LayoutAction::SetVisible(LayoutWidget::LeftButton, false),
            LayoutAction::SetVisible(LayoutWidget::SearchButton, false),
            LayoutAction::SetVisible(LayoutWidget::ModeSwitchButton, false),
            LayoutAction::SetVisible(LayoutWidget::MarkAllReadButton, false),
        ]
    );
    assert!(!state.left_button_clicked && state.minor_leaflet_selected);
    let todo = state.process_state_change(false, true);
    assert_eq!(
        todo,
        vec![
            LayoutAction::SetVisibleChild(LayoutLeaflet::Minor, LayoutChild::ArticleListBox),
            LayoutAction::SetVisible(LayoutWidget::LeftButton, true),
            LayoutAction::SetVisible(LayoutWidget::SearchButton, true),
            LayoutAction::SetVisible(LayoutWidget::ModeSwitchButton, true),
            LayoutAction::SetVisible(LayoutWidget::MarkAllReadButton, true),
        ]
    );
    assert_eq!(state, ResponsiveState::new());
}

#[test]
fn folded_leaflets_and_selections() {
    let mut state = ResponsiveState::new();
    state.major_leaflet_folded = true;
    assert_eq!(
        state.process_state_change(true, false),
        vec![
            LayoutAction::SetVisible(LayoutWidget::ModeSwitchBox, false),
            LayoutAction::SetVisible(LayoutWidget::ModeSwitchButton, true),
        ]
    );
    state.minor_leaflet_folded = true;
    assert_eq!(
        state.process_state_change(true, true),
        vec![
            LayoutAction::SetVisible(LayoutWidget::SearchButton, false),
            LayoutAction::SetVisible(LayoutWidget::ModeSwitchButton, false),
            LayoutAction::SetVisible(LayoutWidget::MarkAllReadButton, false),
        ]
    );
    state.minor_leaflet_folded = true;
    assert_eq!(
        state.process_state_change(true, false),
        vec![
            LayoutAction::SetVisible(LayoutWidget::LeftButton, false),
            LayoutAction::SetVisible(LayoutWidget::SearchButton, true),
            LayoutAction::SetVisible(LayoutWidget::ModeSwitchButton, true),
            LayoutAction::SetVisibleChild(LayoutLeaflet::Minor, LayoutChild::SidebarBox),
            LayoutAction::SetVisible(LayoutWidget::MarkAllReadButton, true),
        ]
    );
    state.right_button_clicked = true;
    assert_eq!(
        state.process_state_change(true, true),
        vec![
            LayoutAction::SetVisibleChild(LayoutLeaflet::Major, LayoutChild::MinorLeaflet),
            LayoutAction::SetVisibleChild(LayoutLeaflet::Header, LayoutChild::LeftHeader),
            LayoutAction::SetVisible(LayoutWidget::RightButton, false),
        ]
    );
    state.major_leaflet_selected = true;
    assert_eq!(
        state.process_state_change(true, true),
        vec![
            LayoutAction::SetVisibleChild(LayoutLeaflet::Major, LayoutChild::ArticleViewBox),
            LayoutAction::SetVisibleChild(LayoutLeaflet::Header, LayoutChild::RightHeader),
            LayoutAction::SetVisible(LayoutWidget::RightButton, true),
        ]
    );
    state.major_leaflet_selected = true;
    assert!(state.process_state_change(false, true).is_empty());
    assert!(!state.major_leaflet_selected);
    state.minor_leaflet_selected = true;
    assert!(state.process_state_change(true, false).is_empty());
    assert_eq!(state, ResponsiveState::new());
}

#[test]
fn arrows_and_clicks() {
    assert_eq!(arrow_classes(true), ("forward-arrow-collapsed", "forward-arrow-expanded"));
    assert_eq!(arrow_classes(false), ("forward-arrow-expanded", "forward-arrow-collapsed"));
    assert!(toggles_arrow(1, ClickKind::ButtonPress));
    assert!(!toggles_arrow(3, ClickKind::ButtonPress));
    assert!(!toggles_arrow(1, ClickKind::DoubleButtonPress));
    assert!(!toggles_arrow(1, ClickKind::ButtonRelease));
    assert!(opens_context_menu(3, ClickKind::ButtonPress, false));
    assert!(opens_context_menu(3, ClickKind::Other, false));
    assert!(!opens_context_menu(3, ClickKind::ButtonPress, true));
    assert!(!opens_context_menu(1, ClickKind::ButtonPress, false));
    assert!(!opens_context_menu(3, ClickKind::ButtonRelease, false));
    assert!(!opens_context_menu(3, ClickKind::DoubleButtonPress, false));
    assert!(!opens_context_menu(3, ClickKind::TripleButtonPress, false));
}

#[test]
fn drop_position_follows_the_pointer() {
    assert_eq!(drop_neighbours(10, 0, 40, 3), (2, 3));
    assert_eq!(drop_neighbours(19, 0, 40, 3), (2, 3));
    assert_eq!(drop_neighbours(20, 0, 40, 3), (3, 4));
    assert_eq!(drop_neighbours(120, 100, 41, 0), (0, 1));
    assert_eq!(drop_neighbours(119, 100, 41, 0), (-1, 0));
    assert_eq!(drop_neighbours(0, 0, -3, i32::MAX), (i32::MAX as i64, i32::MAX as i64 + 1));
    assert_eq!(drop_neighbours(-2, 0, -3, i32::MIN), (i32::MIN as i64 - 1, i32::MIN as i64));
}

#[test]
fn badges_margins_and_drag_data() {
    assert_eq!(item_count_label(0), None);
    assert_eq!(item_count_label(-4), None);
    assert_eq!(item_count_label(1), Some("1".to_owned()));
    assert_eq!(item_count_label(1203), Some("1203".to_owned()));
    assert_eq!(item_count_label(i64::MAX), Some(i64::MAX.to_string()));
    assert_eq!(decimal_text(0), "0");
    assert_eq!(decimal_text(10), "10");
    assert_eq!(decimal_text(u64::MAX), u64::MAX.to_string());
    assert_eq!(level_margin(0), 0);
    assert_eq!(level_margin(3), 72);
    assert_eq!(level_margin(89_478_485), 2_147_483_640);
    assert_eq!(level_margin(89_478_486), i32::MAX);
    assert_eq!(drag_text("\"x\""), "FeedID \"x\"");
    assert_eq!(drag_data(&FeedID::new("a\"b")), Some("FeedID \"a\\\"b\"".to_owned()));
    assert_eq!(drag_data(&FeedID::new("feed")), Some("FeedID \"feed\"".to_owned()));
}

#[test]
fn favicon_needs_bytes() {
    assert!(favicon_pixels(&None).is_none());
    let empty = FavIcon { feed_id: FeedID::new("f"), data: None };
    assert!(favicon_pixels(&Some(empty)).is_none());
    let icon = FavIcon { feed_id: FeedID::new("f"), data: Some(vec![1, 2, 3]) };
    let pixels = favicon_pixels(&Some(icon)).unwrap();
    assert_eq!(pixels.data, vec![1, 2, 3]);
    assert_eq!((pixels.width, pixels.height), (16, 16));
    assert!(pixels.has_alpha);
    assert_eq!((pixels.bits_per_sample, pixels.row_stride), (8, 512));
}

#[test]
fn entries_and_sizes() {
    assert!(GtkUtil::is_entry_emty(0));
    assert!(!GtkUtil::is_entry_emty(1));
    assert_eq!(GtkUtil::scaled_size(16, 24, 2), Some((32, 48)));
    assert_eq!(GtkUtil::scaled_size(i32::MAX, 1, 2), None);
    assert_eq!(GtkUtil::scaled_size(1, i32::MIN, 2), None);
    assert_eq!(GtkUtil::scaled_size(i32::MIN, i32::MAX, 1), Some((i32::MIN, i32::MAX)));
}
