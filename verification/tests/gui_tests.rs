use scarlet_youtube::gui::{
    list_after_more, list_after_search, wrap_description_text, ListState, SearchReply,
    DESCRIPTION_MAX_LINES,
};
use scarlet_youtube::gui::{
    compact_text, detail_pane_text, detail_state_matches_video, details_finished,
    details_request, initial_query, join_lines, list_key_action, more_loaded_message,
    move_selection, next_generation, next_page, next_page_bounded, page_after_more, page_count,
    plan_thumbnails, prefixed_message, previous_page, search_loaded_message,
    thumbnails_loading_message, visible_range, DetailState, DetailsRequest, GuiVideoDetails,
    ListAction, ListKey, PageTurn, PaneDescription, SelectionMove, ThumbnailStatus,
};
use scarlet_youtube::gui::ThumbnailStatus::{Failed, Loading, NotRequested, Ready};

fn details(id: &str, title: Option<&str>, author: Option<&str>, description: Option<&str>) -> GuiVideoDetails {
    GuiVideoDetails {
        video_id: id.to_string(),
        title: title.map(|s| s.to_string()),
        author: author.map(|s| s.to_string()),
        description: description.map(|s| s.to_string()),
        thumbnail_url: None,
    }
}

#[test]
fn pages() {
    assert_eq!(page_count(0), 1);
    assert_eq!(page_count(1), 1);
    assert_eq!(page_count(8), 1);
    assert_eq!(page_count(9), 2);
    assert_eq!(page_count(usize::MAX), usize::MAX / 8 + 1);
    assert_eq!(visible_range(1, 12), (8, 12));
    assert_eq!(visible_range(0, 20), (0, 8));
    assert_eq!(visible_range(3, 12), (24, 12));
    assert_eq!(visible_range(usize::MAX, 5), (usize::MAX, 5));
}

#[test]
fn selection_moves() {
    assert_eq!(move_selection(0, 5, 2, 1, true), SelectionMove::Reset);
    assert_eq!(move_selection(20, 7, 0, 1, false), SelectionMove::MoveTo { selected: 8, page: 1 });
    assert_eq!(move_selection(20, 8, 1, -1, false), SelectionMove::MoveTo { selected: 7, page: 0 });
    assert_eq!(move_selection(20, 0, 0, -1, true), SelectionMove::MoveTo { selected: 0, page: 0 });
    assert_eq!(move_selection(20, 99, 0, -3, false), SelectionMove::MoveTo { selected: 16, page: 2 });
    assert_eq!(move_selection(20, 19, 2, 1, false), SelectionMove::MoveTo { selected: 19, page: 2 });
    assert_eq!(move_selection(20, 19, 2, 1, true), SelectionMove::LoadMore { target_page: 3 });
    assert_eq!(move_selection(20, 3, 0, isize::MAX, false), SelectionMove::MoveTo { selected: 19, page: 2 });
    assert_eq!(move_selection(20, 3, 0, isize::MIN, false), SelectionMove::MoveTo { selected: 0, page: 0 });
    assert_eq!(move_selection(5, 4, usize::MAX, 1, true), SelectionMove::LoadMore { target_page: usize::MAX });
}

#[test]
fn turning_pages() {
    assert_eq!(next_page(20, 0, false), PageTurn::Show { page: 1, selected: 8 });
    assert_eq!(next_page(16, 1, true), PageTurn::LoadMore { target_page: 2 });
    assert_eq!(next_page(16, 1, false), PageTurn::Stay);
    assert_eq!(next_page(0, 0, false), PageTurn::Stay);
    assert_eq!(next_page_bounded(20, 0), (1, Some(8)));
    assert_eq!(next_page_bounded(20, 2), (2, Some(16)));
    assert_eq!(next_page_bounded(0, 4), (0, None));
    assert_eq!(previous_page(0), (0, 0));
    assert_eq!(previous_page(3), (2, 16));
}

#[test]
fn forward_then_back_returns() {
    if let PageTurn::Show { page, .. } = next_page(40, 2, false) {
        assert_eq!(previous_page(page).0, 2);
    } else {
        panic!("expected a page");
    }
}

#[test]
fn page_after_more_results() {
    assert_eq!(page_after_more(Some(3), 0, 20), (2, Some(16)));
    assert_eq!(page_after_more(Some(1), 0, 20), (1, Some(8)));
    assert_eq!(page_after_more(None, 1, 20), (1, Some(8)));
    assert_eq!(page_after_more(None, 5, 20), (5, Some(19)));
    assert_eq!(page_after_more(Some(2), 0, 0), (0, None));
}

#[test]
fn generations() {
    assert_eq!(next_generation(0), 1);
    assert_eq!(next_generation(u64::MAX), u64::MAX);
}

#[test]
fn compacting_and_joining() {
    assert_eq!(compact_text("hello", 5), "hello");
    assert_eq!(compact_text("hello!", 5), "hello...");
    assert_eq!(compact_text("日本語テキスト", 3), "日本語...");
    assert_eq!(compact_text("", 0), "");
    assert_eq!(join_lines(&["a".to_string(), String::new(), "b".to_string()]), "a\n\nb");
    assert_eq!(join_lines(&[]), "");
    assert_eq!(initial_query(&["yt-gui".to_string(), "eve".to_string(), "".to_string(), "song".to_string()]), "eve  song");
    assert_eq!(initial_query(&["yt-gui".to_string()]), "");
    assert_eq!(initial_query(&[]), "");
}

#[test]
fn thumbnail_plans() {
    let mut statuses = vec![Ready, NotRequested, NotRequested, Loading, NotRequested, NotRequested, Failed, NotRequested, NotRequested, NotRequested];
    let has_url = [true, true, false, true, true, true, true, true, true, true];
    let requests = plan_thumbnails(&mut statuses, &has_url, 0);
    assert_eq!(requests, vec![1, 4, 5, 7]);
    assert_eq!(statuses, vec![Ready, Loading, Failed, Loading, Loading, Loading, Failed, Loading, NotRequested, NotRequested]);
    let requests = plan_thumbnails(&mut statuses, &has_url, 1);
    assert_eq!(requests, vec![8, 9]);
    assert_eq!(&statuses[8..], &[Loading, Loading]);
}

#[test]
fn thumbnail_plan_without_requests_changes_nothing() {
    let mut statuses = vec![NotRequested, Ready];
    let requests = plan_thumbnails(&mut statuses, &[false, true], 0);
    assert!(requests.is_empty());
    assert_eq!(statuses, vec![NotRequested, Ready]);
    let mut statuses = vec![NotRequested];
    assert!(plan_thumbnails(&mut statuses, &[true], 4).is_empty());
    assert_eq!(statuses, vec![NotRequested]);
}

#[test]
fn detail_states() {
    let loading = DetailState::Loading { video_id: "a".to_string() };
    assert!(detail_state_matches_video(&loading, "a"));
    assert!(!detail_state_matches_video(&loading, "b"));
    assert!(!detail_state_matches_video(&DetailState::Empty, "a"));
    let failed = DetailState::Failed { video_id: "f".to_string(), message: "m".to_string() };
    assert!(detail_state_matches_video(&failed, "f"));
    assert!(detail_state_matches_video(&DetailState::Ready(details("r", None, None, None)), "r"));

    match details_finished(&loading, "a".to_string(), Ok(details("a", Some("T"), None, None))) {
        Some(DetailState::Ready(d)) => assert_eq!(d.title.as_deref(), Some("T")),
        _ => panic!("expected the details"),
    }
    match details_finished(&loading, "a".to_string(), Err("gone".to_string())) {
        Some(DetailState::Failed { video_id, message }) => {
            assert_eq!(video_id, "a");
            assert_eq!(message, "gone");
        }
        _ => panic!("expected a failure"),
    }
    assert!(details_finished(&loading, "b".to_string(), Err("x".to_string())).is_none());
    assert!(details_finished(&failed, "f".to_string(), Err("x".to_string())).is_none());

    assert_eq!(details_request(None, &DetailState::Empty), DetailsRequest::Keep);
    assert_eq!(details_request(None, &loading), DetailsRequest::Clear);
    assert_eq!(details_request(Some("a"), &loading), DetailsRequest::Keep);
    assert_eq!(details_request(Some("b"), &loading), DetailsRequest::Fetch);
    assert_eq!(details_request(Some("b"), &DetailState::Empty), DetailsRequest::Fetch);
}

fn pane(state: &DetailState, selected: &str) -> (String, String, bool, String) {
    let (t, c, d) = detail_pane_text(state, selected, "BT".to_string(), "BC".to_string());
    match d {
        PaneDescription::Wrap(x) => (t, c, true, x),
        PaneDescription::Text(x) => (t, c, false, x),
    }
}

#[test]
fn detail_pane() {
    let long_title = "t".repeat(95);
    let ready = DetailState::Ready(details("v", Some(&long_title), Some("Author"), Some("  body text \n")));
    assert_eq!(
        pane(&ready, "v"),
        (format!("{}...", "t".repeat(90)), "Author".to_string(), true, "body text".to_string())
    );
    let bare = DetailState::Ready(details("v", None, None, Some(" \n ")));
    assert_eq!(pane(&bare, "v"), ("BT".to_string(), "BC".to_string(), false, "No description.".to_string()));
    assert_eq!(pane(&ready, "w"), ("BT".to_string(), "BC".to_string(), false, "Loading details...".to_string()));
    assert_eq!(pane(&ready, "-"), ("BT".to_string(), "BC".to_string(), false, "Search and select a result.".to_string()));
    let loading = DetailState::Loading { video_id: "v".to_string() };
    assert_eq!(pane(&loading, "v").3, "Loading details...");
    let failed = DetailState::Failed { video_id: "v".to_string(), message: "x".repeat(200) };
    assert_eq!(pane(&failed, "v").3, format!("Details failed: {}...", "x".repeat(180)));
    assert_eq!(pane(&DetailState::Empty, "-").3, "Search and select a result.");
}

#[test]
fn list_keys() {
    assert_eq!(list_key_action(ListKey::Tab), ListAction::LeaveList);
    assert_eq!(list_key_action(ListKey::Enter), ListAction::PlaySelected);
    assert_eq!(list_key_action(ListKey::Down), ListAction::MoveSelection(1));
    assert_eq!(list_key_action(ListKey::Up), ListAction::MoveSelection(-1));
    assert_eq!(list_key_action(ListKey::Right), ListAction::NextPage);
    assert_eq!(list_key_action(ListKey::PageDown), ListAction::NextPage);
    assert_eq!(list_key_action(ListKey::Left), ListAction::PreviousPage);
    assert_eq!(list_key_action(ListKey::PageUp), ListAction::PreviousPage);
    assert_eq!(list_key_action(ListKey::Escape), ListAction::Exit);
    assert_eq!(list_key_action(ListKey::Other), ListAction::Ignore);
}

#[test]
fn status_messages() {
    assert_eq!(search_loaded_message(8, true), "Loaded 8 search results so far.");
    assert_eq!(search_loaded_message(0, false), "Loaded 0 search results.");
    assert_eq!(more_loaded_message(8, 16, true), "Loaded 8 more results (16 total+).");
    assert_eq!(more_loaded_message(3, 19, false), "Loaded 3 more results (19 total).");
    assert_eq!(thumbnails_loading_message(0), "Loading thumbnails for page 1.");
    assert_eq!(prefixed_message("Search failed: ", "boom"), "Search failed: boom");
}

#[test]
fn search_and_play_helpers() {
    assert_eq!(scarlet_youtube::gui::search_query_text("  eve \t"), Some("eve".to_string()));
    assert_eq!(scarlet_youtube::gui::search_query_text(" \u{3000} "), None);
    assert!(scarlet_youtube::gui::can_load_more(false, true));
    assert!(!scarlet_youtube::gui::can_load_more(true, true));
    assert!(!scarlet_youtube::gui::can_load_more(false, false));
    assert_eq!(scarlet_youtube::gui::video_watch_url("abc"), "https://www.youtube.com/watch?v=abc");
}

#[test]
fn list_text() {
    assert_eq!(scarlet_youtube::gui::row_position(2, 3), 19);
    assert_eq!(scarlet_youtube::gui::row_position(usize::MAX, 3), usize::MAX);
    let text = scarlet_youtube::gui::row_text(0, &"t".repeat(60), None, Some("3:00"));
    assert_eq!(text.index, "1");
    assert_eq!(text.title, format!("{}...", "t".repeat(58)));
    assert_eq!(text.channel, "unknown channel");
    assert_eq!(text.duration, "3:00");
    let text = scarlet_youtube::gui::row_text(41, "T", Some("C"), None);
    assert_eq!((text.index.as_str(), text.channel.as_str(), text.duration.as_str()), ("42", "C", "--:--"));
    assert_eq!(
        scarlet_youtube::gui::selection_summary(None),
        (
            "No video selected".to_string(),
            "Search and select a result.".to_string(),
            "--:--".to_string(),
            "-".to_string()
        )
    );
    let long_channel = "c".repeat(50);
    assert_eq!(
        scarlet_youtube::gui::selection_summary(Some(("Title", Some(&long_channel), None, "vid"))),
        ("Title".to_string(), format!("{}...", "c".repeat(46)), "--:--".to_string(), "vid".to_string())
    );
    assert_eq!(
        scarlet_youtube::gui::list_labels(17, 1, 9, true),
        ("17 results+".to_string(), "page 2/3".to_string(), "selected 10".to_string())
    );
    assert_eq!(
        scarlet_youtube::gui::list_labels(0, 0, 5, false),
        ("0 results".to_string(), "page 1/1".to_string(), "selected 0".to_string())
    );
}

#[test]
fn search_replies_reset_the_list() {
    let fresh = ListState { selected: 0, page: 0, has_more: true, loading_more: false };
    assert_eq!(list_after_search(3, 3, SearchReply::Loaded { count: 20, has_more: true }), Some(fresh));
    assert_eq!(
        list_after_search(3, 3, SearchReply::Failed),
        Some(ListState { has_more: false, ..fresh })
    );
    assert_eq!(list_after_search(2, 3, SearchReply::Loaded { count: 20, has_more: true }), None);
}

#[test]
fn more_replies_move_the_page() {
    let state = ListState { selected: 5, page: 0, has_more: true, loading_more: true };
    assert_eq!(
        list_after_more(state, 1, 1, Some(2), SearchReply::Loaded { count: 20, has_more: false }),
        Some(ListState { selected: 16, page: 2, has_more: false, loading_more: false })
    );
    assert_eq!(
        list_after_more(state, 1, 1, Some(9), SearchReply::Loaded { count: 12, has_more: true }),
        Some(ListState { selected: 8, page: 1, has_more: true, loading_more: false })
    );
    assert_eq!(
        list_after_more(state, 1, 1, None, SearchReply::Loaded { count: 12, has_more: true }),
        Some(ListState { selected: 0, page: 0, has_more: true, loading_more: false })
    );
    assert_eq!(
        list_after_more(state, 1, 1, Some(1), SearchReply::Failed),
        Some(ListState { loading_more: false, ..state })
    );
    assert_eq!(list_after_more(state, 0, 1, Some(1), SearchReply::Failed), None);
}

fn at_most(n: usize) -> impl Fn(&str) -> bool {
    move |s: &str| s.chars().count() <= n
}

#[test]
fn descriptions_wrap_by_words() {
    assert_eq!(wrap_description_text("hello world foo", at_most(11)), "hello world\nfoo");
    assert_eq!(wrap_description_text("a\r\n\r\nb", at_most(11)), "a\n\nb");
    assert_eq!(wrap_description_text("  lead\n\n\ntrail  ", at_most(11)), "lead\n\n\ntrail");
    assert_eq!(wrap_description_text("", at_most(11)), "");
    assert_eq!(wrap_description_text("\n\nx", at_most(11)), "x");
}

#[test]
fn long_words_break_across_lines() {
    assert_eq!(wrap_description_text("abcdefghijklmno", at_most(5)), "abcde\nfghij\nklmno");
    assert_eq!(wrap_description_text("ab", at_most(0)), "a\nb");
}

#[test]
fn descriptions_keep_to_their_limits() {
    let paragraphs: Vec<String> = (0..30).map(|i| format!("p{}", i)).collect();
    let wrapped = wrap_description_text(&paragraphs.join("\n"), at_most(10));
    let lines: Vec<&str> = wrapped.split('\n').collect();
    assert_eq!(lines.len(), DESCRIPTION_MAX_LINES);
    assert_eq!(lines[0], "p0");
    assert_eq!(lines[23], "p23...");
    let long = format!("{}\nb", "a".repeat(1000));
    assert_eq!(wrap_description_text(&long, |_: &str| true), format!("{}......", "a".repeat(900)));
    assert_eq!(wrap_description_text(&"a".repeat(1000), |_: &str| true), format!("{}...", "a".repeat(900)));
    let narrow = wrap_description_text(&format!("{}\nb", "a".repeat(1000)), at_most(3));
    assert!(narrow.ends_with("..."));
    assert!(!narrow.contains('\r'));
}

#[test]
fn blank_descriptions_wrap_to_nothing() {
    assert_eq!(wrap_description_text(" \t\r\n \n", at_most(11)), "");
    assert_eq!(wrap_description_text("\n\n  word", at_most(11)), "word");
    assert!(!wrap_description_text("\n x y\n\nz", at_most(3)).starts_with('\n'));
    assert_eq!(wrap_description_text("\n x y\n\nz", at_most(3)), "x y\n\nz");
}
