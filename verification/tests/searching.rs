//! The fuzzy selection engine: matching, ordering, state transitions and the
//! wraparound cursor.

use zoxide_sessions::item::SessionItem;
use zoxide_sessions::search::SearchEngine;

fn dir(path: &str) -> SessionItem {
    SessionItem::Directory { path: path.to_string(), session_name: String::new() }
}

fn live(name: &str, directory: &str) -> SessionItem {
    SessionItem::ExistingSession {
        name: name.to_string(),
        directory: directory.to_string(),
        is_current: false,
    }
}

fn three_dirs() -> Vec<SessionItem> {
    vec![dir("/alpha"), dir("/beta"), dir("/gamma")]
}

#[test]
fn empty_query_enters_idle_with_nothing_selected() {
    let mut e = SearchEngine::new();
    e.update_search("alp".to_string(), &three_dirs());
    assert!(e.is_searching());
    assert!(!e.results().is_empty());
    e.update_search(String::new(), &three_dirs());
    assert!(!e.is_searching());
    assert!(e.results().is_empty());
    assert!(e.selected_index().is_none());
}

#[test]
fn non_matching_query_yields_no_results_and_no_selection() {
    let mut e = SearchEngine::new();
    e.update_search("zzzqqq".to_string(), &three_dirs());
    assert!(e.is_searching());
    assert!(e.results().is_empty());
    assert!(e.selected_index().is_none());
}

#[test]
fn subsequence_matching_is_not_contiguous() {
    let mut e = SearchEngine::new();
    e.update_search("ama".to_string(), &vec![dir("/gamma"), dir("/beta")]);
    assert_eq!(e.results().len(), 1);
    match &e.results()[0].item {
        SessionItem::Directory { path, .. } => assert_eq!(path, "/gamma"),
        _ => panic!("expected the directory"),
    }
    assert!(!e.results()[0].indices.is_empty());
}

#[test]
fn sessions_sort_before_directories() {
    let items = vec![dir("/abc"), live("abc", "/abc")];
    let mut e = SearchEngine::new();
    e.update_search("abc".to_string(), &items);
    assert_eq!(e.results().len(), 2);
    assert!(e.results()[0].item.is_session());
    assert!(!e.results()[1].item.is_session());
}

#[test]
fn selection_defaults_clamps_and_sticks() {
    let mut e = SearchEngine::new();
    // first results: selection defaults to the top
    e.update_search("a".to_string(), &three_dirs());
    assert_eq!(e.selected_index(), Some(0));
    // move to the end, then shrink the result list: the cursor clamps
    e.move_selection_up();
    assert_eq!(e.selected_index(), Some(e.results().len() - 1));
    e.update_search("alp".to_string(), &three_dirs());
    assert_eq!(e.results().len(), 1);
    assert_eq!(e.selected_index(), Some(0));
}

#[test]
fn cursor_wraps_at_both_ends() {
    let mut e = SearchEngine::new();
    e.update_search("a".to_string(), &three_dirs());
    assert_eq!(e.results().len(), 3);
    e.clear();
    e.update_search("a".to_string(), &three_dirs());
    // fresh search selects index 0; walk to the top edge and wrap
    assert_eq!(e.selected_index(), Some(0));
    e.move_selection_up();
    assert_eq!(e.selected_index(), Some(2));
    e.move_selection_down();
    assert_eq!(e.selected_index(), Some(0));
    e.move_selection_down();
    assert_eq!(e.selected_index(), Some(1));
}

#[test]
fn add_char_and_backspace_edit_the_query() {
    let mut e = SearchEngine::new();
    let items = three_dirs();
    e.add_char('a', &items);
    assert_eq!(e.search_term(), "a");
    assert!(e.is_searching());
    e.add_char('l', &items);
    assert_eq!(e.search_term(), "al");
    e.backspace(&items);
    assert_eq!(e.search_term(), "a");
    e.backspace(&items);
    assert_eq!(e.search_term(), "");
    assert!(!e.is_searching());
    assert!(e.selected_index().is_none());
}

#[test]
fn clear_resets_everything() {
    let mut e = SearchEngine::new();
    e.update_search("a".to_string(), &three_dirs());
    e.clear();
    assert_eq!(e.search_term(), "");
    assert!(!e.is_searching());
    assert!(e.results().is_empty());
    assert!(e.selected_index().is_none());
}

#[test]
fn recoverable_sessions_match_on_their_rendered_elapsed_time() {
    // the rendered text ends in "(created <elapsed> ago)"; an hour-old
    // session is findable by the elapsed text itself
    let items = vec![
        SessionItem::ResurrectableSession { name: "old".to_string(), elapsed_secs: 3600 },
        dir("/unrelated"),
    ];
    let mut e = SearchEngine::new();
    e.update_search("1h".to_string(), &items);
    assert_eq!(e.results().len(), 1);
    assert!(e.results()[0].item.is_resurrectable_session());
}

#[test]
fn selected_item_follows_the_cursor() {
    let mut e = SearchEngine::new();
    e.update_search("beta".to_string(), &three_dirs());
    match e.selected_item() {
        Some(SessionItem::Directory { path, .. }) => assert_eq!(path, "/beta"),
        _ => panic!("expected the matching directory"),
    }
    e.clear();
    assert!(e.selected_item().is_none());
}
