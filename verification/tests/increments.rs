//! The collision/increment resolver and session-action decisions.

use zoxide_sessions::item::{SessionAction, SessionInfo};
use zoxide_sessions::manager::{HostCommand, SessionManager};

fn session(name: &str) -> SessionInfo {
    SessionInfo { name: name.to_string(), is_current_session: false, available_layouts: Vec::new() }
}

fn manager_with(live: &[&str], dead: &[&str]) -> SessionManager {
    let mut m = SessionManager::new();
    m.update_sessions(live.iter().map(|n| session(n)).collect());
    m.update_resurrectable_sessions(dead.iter().map(|n| (n.to_string(), 0u64)).collect());
    m
}

#[test]
fn free_base_name_is_returned_unchanged() {
    let m = manager_with(&[], &[]);
    assert_eq!(m.generate_incremented_name("proj", "."), "proj");
}

#[test]
fn taken_base_name_gets_the_first_free_increment() {
    let m = manager_with(&["project"], &[]);
    assert_eq!(m.generate_incremented_name("project", "."), "project.2");
    let m = manager_with(&["project", "project.2"], &[]);
    assert_eq!(m.generate_incremented_name("project", "."), "project.3");
}

#[test]
fn increments_skip_over_taken_numbers() {
    let m = manager_with(&["proj", "proj.2", "proj.3", "proj.5"], &[]);
    assert_eq!(m.generate_incremented_name("proj", "."), "proj.4");
}

#[test]
fn recoverable_name_also_forces_an_increment() {
    // the base is only recoverable, but increments are checked against live
    // names alone, so the first candidate wins
    let m = manager_with(&[], &["proj"]);
    assert_eq!(m.generate_incremented_name("proj", "."), "proj.2");
}

#[test]
fn custom_separator_shapes_the_candidates() {
    let m = manager_with(&["proj"], &[]);
    assert_eq!(m.generate_incremented_name("proj", "__"), "proj__2");
}

#[test]
fn exhausted_increments_fall_back_to_a_random_token() {
    let mut names: Vec<&str> = Vec::new();
    let owned: Vec<String> = (2..=1000).map(|n| format!("proj.{}", n)).collect();
    names.push("proj");
    for n in &owned {
        names.push(n.as_str());
    }
    let m = manager_with(&names, &[]);
    let r = m.generate_incremented_name("proj", ".");
    assert_eq!(r.len(), "proj.".len() + 8);
    assert!(r.starts_with("proj."));
    let token = &r["proj.".len()..];
    assert!(token.chars().all(|c| c.is_ascii_hexdigit() && !c.is_ascii_uppercase()));
}

#[test]
fn kill_decides_between_dead_and_live() {
    let m = manager_with(&["alive"], &["gone"]);
    match m.execute_action(SessionAction::Kill("gone".to_string())) {
        HostCommand::DeleteDead(n) => assert_eq!(n, "gone"),
        _ => panic!("expected a dead-session deletion"),
    }
    match m.execute_action(SessionAction::Kill("alive".to_string())) {
        HostCommand::KillLive(n) => assert_eq!(n, "alive"),
        _ => panic!("expected a live kill"),
    }
    match m.execute_action(SessionAction::Switch("alive".to_string())) {
        HostCommand::SwitchTo(n) => assert_eq!(n, "alive"),
        _ => panic!("expected a switch"),
    }
}

#[test]
fn deletion_confirmation_round_trip() {
    let mut m = manager_with(&["alive"], &[]);
    assert!(m.pending_deletion().is_none());
    m.start_deletion("alive".to_string());
    assert_eq!(m.pending_deletion().unwrap(), "alive");
    m.cancel_deletion();
    assert!(m.pending_deletion().is_none());
    assert!(m.confirm_deletion().is_none());
    m.start_deletion("alive".to_string());
    match m.confirm_deletion() {
        Some(HostCommand::KillLive(n)) => assert_eq!(n, "alive"),
        _ => panic!("expected a kill command"),
    }
    assert!(m.pending_deletion().is_none());
}
