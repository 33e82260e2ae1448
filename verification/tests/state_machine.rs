//! The plugin state machine: ranking-source ingestion, reconciliation, and
//! key-driven transitions.

use zoxide_sessions::item::{SessionInfo, SessionItem};
use zoxide_sessions::manager::HostCommand;
use zoxide_sessions::state::{ActiveScreen, HostAction, Key, PluginState};

fn live(name: &str, current: bool) -> SessionInfo {
    SessionInfo { name: name.to_string(), is_current_session: current, available_layouts: Vec::new() }
}

fn state_with_output(out: &str) -> PluginState {
    let mut s = PluginState::new();
    s.set_home_dir(Some("/home/alice".to_string()));
    s.process_zoxide_output(out);
    s
}

#[test]
fn ranking_output_is_parsed_named_and_sorted() {
    let s = state_with_output(
        "  5.0 /home/alice/code/project/frontend\n 10.0 /home/alice/code/project\n",
    );
    let items = s.display_items();
    assert_eq!(items.len(), 2);
    match &items[0] {
        SessionItem::Directory { path, session_name } => {
            assert_eq!(path, "/home/alice/code/project");
            assert_eq!(session_name, "project");
        },
        _ => panic!("expected a directory"),
    }
    match &items[1] {
        SessionItem::Directory { path, session_name } => {
            assert_eq!(path, "/home/alice/code/project/frontend");
            assert_eq!(session_name, "code.project.frontend");
        },
        _ => panic!("expected a directory"),
    }
}

#[test]
fn malformed_lines_are_dropped_silently() {
    let s = state_with_output("garbage\n\n   \nnot-a-number /x\n12.5.3 /y\n3.5 /kept\n");
    let items = s.display_items();
    assert_eq!(items.len(), 1);
    match &items[0] {
        SessionItem::Directory { path, .. } => assert_eq!(path, "/kept"),
        _ => panic!("expected a directory"),
    }
}

#[test]
fn equal_scores_order_by_path_ascending() {
    let s = state_with_output("5.0 /bbb\n5.0 /aaa\n7.25 /top\n");
    let items = s.display_items();
    let paths: Vec<String> = items
        .iter()
        .map(|i| match i {
            SessionItem::Directory { path, .. } => path.clone(),
            _ => panic!("expected directories"),
        })
        .collect();
    assert_eq!(paths, vec!["/top".to_string(), "/aaa".to_string(), "/bbb".to_string()]);
}

#[test]
fn directories_stay_listed_even_when_a_session_matches() {
    let mut s = state_with_output("10.0 /home/alice/proj\n5.0 /home/alice/other\n");
    s.update_sessions(vec![live("proj", false), live("proj.2", false), live("elsewhere", false)]);
    let items = s.combined_items();
    // two sessions match the "proj" candidate (exact and incremented), the
    // third matches nothing; both directories always remain
    let sessions: Vec<&SessionItem> = items.iter().filter(|i| i.is_session()).collect();
    let dirs: Vec<&SessionItem> = items
        .iter()
        .filter(|i| !i.is_session() && !i.is_resurrectable_session())
        .collect();
    assert_eq!(sessions.len(), 2);
    assert_eq!(dirs.len(), 2);
    match sessions[0] {
        SessionItem::ExistingSession { name, directory, .. } => {
            assert_eq!(name, "proj");
            assert_eq!(directory, "/home/alice/proj");
        },
        _ => unreachable!(),
    }
}

#[test]
fn recoverable_sessions_appear_only_when_configured() {
    let mut s = PluginState::new();
    s.set_home_dir(Some("/home/alice".to_string()));
    s.process_zoxide_output("10.0 /home/alice/proj\n");
    s.update_resurrectable_sessions(vec![("proj".to_string(), 60)]);
    assert_eq!(s.combined_items().iter().filter(|i| i.is_resurrectable_session()).count(), 0);

    let mut shown = PluginState::new();
    shown.initialize(&vec![(
        "show_resurrectable_sessions".to_string(),
        "true".to_string(),
    )]);
    shown.set_home_dir(Some("/home/alice".to_string()));
    shown.process_zoxide_output("10.0 /home/alice/proj\n");
    shown.update_resurrectable_sessions(vec![("proj".to_string(), 60)]);
    assert_eq!(
        shown.combined_items().iter().filter(|i| i.is_resurrectable_session()).count(),
        1,
    );
}

#[test]
fn incremented_names_match_but_lookalikes_do_not() {
    let mut s = state_with_output("10.0 /home/alice/proj\n");
    s.update_sessions(vec![
        live("proj.7", false),
        live("proj.0", false),
        live("proj.x", false),
        live("projother", false),
    ]);
    let sessions: Vec<String> = s
        .combined_items()
        .iter()
        .filter_map(|i| match i {
            SessionItem::ExistingSession { name, .. } => Some(name.clone()),
            _ => None,
        })
        .collect();
    assert_eq!(sessions, vec!["proj.7".to_string()]);
}

#[test]
fn main_list_cursor_wraps_over_three_items() {
    let mut s = state_with_output("3.0 /home/alice/a\n2.0 /home/alice/b\n1.0 /home/alice/c\n");
    assert_eq!(s.selected_index(), None);
    s.move_selection_up();
    assert_eq!(s.selected_index(), Some(2));
    s.move_selection_down();
    assert_eq!(s.selected_index(), Some(0));
    s.move_selection_up();
    assert_eq!(s.selected_index(), Some(2));
    s.move_selection_down();
    assert_eq!(s.selected_index(), Some(0));
    s.move_selection_down();
    assert_eq!(s.selected_index(), Some(1));
}

#[test]
fn typing_searches_and_escape_clears_before_hiding() {
    let mut s = state_with_output("3.0 /home/alice/alpha\n2.0 /home/alice/beta\n");
    let (render, acts) = s.handle_key(Key::Char('b'));
    assert!(render);
    assert!(acts.is_empty());
    assert!(s.search_engine().is_searching());
    assert_eq!(s.search_engine().results().len(), 1);
    // Esc while searching clears the search, no host work
    let (render, acts) = s.handle_key(Key::Esc);
    assert!(render);
    assert!(acts.is_empty());
    assert!(!s.search_engine().is_searching());
    // Esc while idle asks the host to hide the pane
    let (render, acts) = s.handle_key(Key::Esc);
    assert!(!render);
    assert_eq!(acts.len(), 1);
    assert!(matches!(acts[0], HostAction::HideSelf));
}

#[test]
fn enter_on_a_directory_opens_the_creation_flow_with_a_unique_name() {
    let mut s = state_with_output("3.0 /home/alice/proj\n");
    s.update_sessions(vec![live("proj", false)]);
    s.move_selection_down();
    // the only session item comes first; move once more to the directory
    s.move_selection_down();
    let (render, acts) = s.handle_key(Key::Enter);
    assert!(render);
    assert_eq!(s.active_screen(), ActiveScreen::NewSession);
    assert_eq!(acts.len(), 3);
    match &acts[0] {
        HostAction::SetNewSessionName(n) => assert_eq!(n, "proj.2"),
        _ => panic!("expected the seeded name"),
    }
    match &acts[1] {
        HostAction::SetNewSessionFolder(Some(f)) => assert_eq!(f, "/home/alice/proj"),
        _ => panic!("expected the seeded folder"),
    }
    assert!(matches!(acts[2], HostAction::AdvanceToLayoutSelection));
}

#[test]
fn enter_on_a_session_switches_and_hides() {
    let mut s = state_with_output("3.0 /home/alice/proj\n");
    s.update_sessions(vec![live("proj", false)]);
    s.move_selection_down();
    let (render, acts) = s.handle_key(Key::Enter);
    assert!(render);
    assert_eq!(acts.len(), 2);
    match &acts[0] {
        HostAction::Session(HostCommand::SwitchTo(n)) => assert_eq!(n, "proj"),
        _ => panic!("expected a switch"),
    }
    assert!(matches!(acts[1], HostAction::HideSelf));
}

#[test]
fn quick_create_without_a_selection_reports_an_error() {
    let mut s = state_with_output("3.0 /home/alice/proj\n");
    let (render, acts) = s.handle_key(Key::CtrlEnter);
    assert!(render);
    assert!(acts.is_empty());
    assert_eq!(s.error().unwrap(), "Please select a directory");
    // any following key only dismisses the error
    let (render, acts) = s.handle_key(Key::Char('x'));
    assert!(render);
    assert!(acts.is_empty());
    assert!(s.error().is_none());
    assert!(!s.search_engine().is_searching());
}

#[test]
fn quick_create_on_a_directory_switches_with_cwd() {
    let mut s = state_with_output("3.0 /home/alice/proj\n");
    s.move_selection_down();
    let (render, acts) = s.handle_key(Key::CtrlEnter);
    assert!(render);
    assert_eq!(acts.len(), 2);
    match &acts[0] {
        HostAction::SwitchWithCwd { name, folder } => {
            assert_eq!(name, "proj");
            assert_eq!(folder.as_deref(), Some("/home/alice/proj"));
        },
        _ => panic!("expected a cwd switch"),
    }
    assert!(matches!(acts[1], HostAction::HideSelf));
}

#[test]
fn quick_create_refuses_the_current_sessions_name() {
    let mut s = state_with_output("3.0 /home/alice/proj\n");
    // the host reported "proj.2" as current once; later lists omit it, so the
    // remembered current name stays "proj.2"
    s.update_sessions(vec![live_current("proj.2")]);
    s.update_sessions(vec![live("proj", false)]);
    // cursor onto the directory item (the matched session row comes first)
    s.move_selection_down();
    s.move_selection_down();
    let (render, acts) = s.handle_key(Key::CtrlEnter);
    // "proj" is taken, the incremented name is "proj.2" - the current session
    assert!(render);
    assert!(acts.is_empty());
    assert_eq!(
        s.error().unwrap(),
        "Cannot create session with same name as current session",
    );
}

fn live_current(name: &str) -> SessionInfo {
    SessionInfo { name: name.to_string(), is_current_session: true, available_layouts: Vec::new() }
}

#[test]
fn quick_create_uses_the_default_layout_when_available() {
    let mut s = PluginState::new();
    s.initialize(&vec![("default_layout".to_string(), "compact".to_string())]);
    s.set_home_dir(Some("/home/alice".to_string()));
    s.process_zoxide_output("3.0 /home/alice/proj\n");
    s.update_sessions(vec![SessionInfo {
        name: "current".to_string(),
        is_current_session: true,
        available_layouts: vec!["wide".to_string(), "compact".to_string()],
    }]);
    s.move_selection_down();
    let (_, acts) = s.handle_key(Key::CtrlEnter);
    assert_eq!(acts.len(), 2);
    match &acts[0] {
        HostAction::SwitchWithLayout { name, layout, folder } => {
            assert_eq!(name, "proj");
            assert_eq!(layout, "compact");
            assert_eq!(folder.as_deref(), Some("/home/alice/proj"));
        },
        _ => panic!("expected a layout switch"),
    }
}

#[test]
fn delete_flow_confirms_or_cancels() {
    let mut s = state_with_output("3.0 /home/alice/proj\n");
    s.update_sessions(vec![live("proj", false)]);
    s.move_selection_down();
    let (render, acts) = s.handle_key(Key::Delete);
    assert!(render);
    assert!(acts.is_empty());
    assert_eq!(s.session_manager().pending_deletion().unwrap(), "proj");
    // cancel first
    let (render, acts) = s.handle_key(Key::Char('n'));
    assert!(render);
    assert!(acts.is_empty());
    assert!(s.session_manager().pending_deletion().is_none());
    // again, and confirm this time
    s.handle_key(Key::Delete);
    let (render, acts) = s.handle_key(Key::Char('y'));
    assert!(render);
    assert_eq!(acts.len(), 1);
    match &acts[0] {
        HostAction::Session(HostCommand::KillLive(n)) => assert_eq!(n, "proj"),
        _ => panic!("expected a kill"),
    }
}

#[test]
fn new_session_screen_routes_keys_to_the_form() {
    let mut s = state_with_output("3.0 /home/alice/proj\n");
    s.move_selection_down();
    s.handle_key(Key::Enter);
    assert_eq!(s.active_screen(), ActiveScreen::NewSession);
    let (_, acts) = s.handle_key(Key::CtrlChar('f'));
    assert!(matches!(acts[0], HostAction::LaunchFilepicker));
    let (_, acts) = s.handle_key(Key::Char('q'));
    assert!(matches!(acts[0], HostAction::DelegateKey(Key::Char('q'))));
    let (_, acts) = s.handle_key(Key::CtrlChar('c'));
    assert!(matches!(acts[0], HostAction::SetNewSessionFolder(None)));
    let (_, acts) = s.handle_key(Key::Enter);
    assert!(matches!(acts[0], HostAction::NewSessionSelection));
    assert_eq!(s.active_screen(), ActiveScreen::Main);
}

#[test]
fn request_ids_are_tracked_and_forgotten() {
    let mut s = PluginState::new();
    assert!(!s.is_valid_request_id("abc"));
    s.register_request_id("abc".to_string());
    s.register_request_id("def".to_string());
    assert!(s.is_valid_request_id("abc"));
    s.remove_request_id("abc");
    assert!(!s.is_valid_request_id("abc"));
    assert!(s.is_valid_request_id("def"));
}

#[test]
fn search_follows_data_updates() {
    let mut s = state_with_output("3.0 /home/alice/alpha\n");
    s.handle_key(Key::Char('p'));
    assert_eq!(s.search_engine().results().len(), 1);
    // new ranking data arrives while searching: results are recomputed
    s.process_zoxide_output("3.0 /home/alice/beta\n2.0 /home/alice/pine\n");
    assert!(s.search_engine().is_searching());
    let items = s.display_items();
    assert_eq!(items.len(), 1);
    match &items[0] {
        SessionItem::Directory { path, .. } => assert_eq!(path, "/home/alice/pine"),
        _ => panic!("expected the new match"),
    }
}

#[test]
fn quick_create_rejects_names_with_a_slash() {
    // a slash separator makes resolver names contain '/'
    let mut s = PluginState::new();
    s.initialize(&vec![("session_separator".to_string(), "/".to_string())]);
    s.process_zoxide_output("2.0 work/api\n1.0 personal/api\n");
    s.move_selection_down();
    let (render, acts) = s.handle_key(Key::CtrlEnter);
    assert!(render);
    assert!(acts.is_empty());
    assert_eq!(s.error().unwrap(), "Session name cannot contain '/'");
}

#[test]
fn quick_create_rejects_names_over_the_socket_budget() {
    // an absurdly long separator pushes the incremented name past 108 bytes
    let sep = "x".repeat(120);
    let mut s = PluginState::new();
    s.initialize(&vec![("session_separator".to_string(), sep)]);
    s.set_home_dir(Some("/home/alice".to_string()));
    s.process_zoxide_output("2.0 /home/alice/proj\n");
    s.update_sessions(vec![live("proj", false)]);
    s.move_selection_down();
    s.move_selection_down();
    let (render, acts) = s.handle_key(Key::CtrlEnter);
    assert!(render);
    assert!(acts.is_empty());
    assert_eq!(s.error().unwrap(), "Session name must be shorter than 108 bytes");
}
