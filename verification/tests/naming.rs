//! The naming stack: normalization, abbreviation, and the smart resolver.

use zoxide_sessions::naming::{abbreviate_segment, normalize_path, resolve_names};

fn resolve(paths: &[&str], base_paths: &[&str], home: Option<&str>, sep: &str) -> Vec<String> {
    let paths: Vec<String> = paths.iter().map(|p| p.to_string()).collect();
    let mut pairs: Vec<(String, String)> = Vec::new();
    if !base_paths.is_empty() {
        pairs.push(("base_paths".to_string(), base_paths.join("|")));
    }
    if sep != "." {
        pairs.push(("session_separator".to_string(), sep.to_string()));
    }
    let config = zoxide_sessions::config::Config::from_zellij_config(&pairs);
    let home = home.map(|h| h.to_string());
    resolve_names(&paths, &config, &home)
}

#[test]
fn abbreviate_keeps_short_segments() {
    assert_eq!(abbreviate_segment(""), "");
    assert_eq!(abbreviate_segment("a"), "a");
    assert_eq!(abbreviate_segment("ab"), "ab");
    assert_eq!(abbreviate_segment("abc"), "abc");
    assert_eq!(abbreviate_segment("a-b"), "a-b");
}

#[test]
fn abbreviate_hyphenated_words_to_initials() {
    assert_eq!(abbreviate_segment("lobster-watcher"), "l-w");
    assert_eq!(abbreviate_segment("one_two_three"), "o-t-t");
    assert_eq!(abbreviate_segment("mixed-style_name"), "m-s-n");
    // empty parts contribute a placeholder initial
    assert_eq!(abbreviate_segment("--ab"), "x-x-a");
}

#[test]
fn abbreviate_plain_words_to_three_letters() {
    assert_eq!(abbreviate_segment("project"), "pro");
    assert_eq!(abbreviate_segment("a1b2c3"), "abc");
    // only one letter available: the second character is appended anyway
    assert_eq!(abbreviate_segment("a123"), "a1");
}

#[test]
fn normalize_strips_longest_base_path() {
    let bases: Vec<String> = vec!["/work".to_string(), "/work/deep".to_string()];
    assert_eq!(normalize_path("/work/deep/app", &bases, &None), "app");
    assert_eq!(normalize_path("/work/other", &bases, &None), "other");
    // component boundary: "/workx" is not under "/work"
    assert_eq!(normalize_path("/workx/app", &bases, &None), "/workx/app");
    // exact match keeps the full path rather than going empty
    assert_eq!(normalize_path("/work", &bases, &None), "/work");
    // trailing slashes on the configured base are ignored
    let slashed: Vec<String> = vec!["/srv/".to_string()];
    assert_eq!(normalize_path("/srv/code", &slashed, &None), "code");
}

#[test]
fn normalize_strips_home_when_no_base_paths() {
    let none: Vec<String> = Vec::new();
    let home = Some("/home/alice".to_string());
    assert_eq!(normalize_path("/home/alice/code", &none, &home), "code");
    assert_eq!(normalize_path("/etc/conf", &none, &home), "/etc/conf");
    assert_eq!(normalize_path("/home/alice", &none, &home), "/home/alice");
    assert_eq!(normalize_path("/home/alice/x", &none, &None), "/home/alice/x");
}

#[test]
fn nested_candidate_gets_three_segments_of_context() {
    // basenames do not collide, but the second path is nested in the first
    let names = resolve(
        &["/home/alice/code/project", "/home/alice/code/project/frontend"],
        &[],
        Some("/home/alice"),
        ".",
    );
    assert_eq!(names, vec!["project".to_string(), "code.project.frontend".to_string()]);
}

#[test]
fn colliding_basenames_take_minimal_context() {
    let names = resolve(&["work/api", "personal/api"], &[], None, ".");
    assert_eq!(names, vec!["work.api".to_string(), "personal.api".to_string()]);
}

#[test]
fn deep_collisions_walk_up_until_unique() {
    let names = resolve(&["a/x/b", "c/x/b"], &[], None, ".");
    assert_eq!(names, vec!["a.x.b".to_string(), "c.x.b".to_string()]);
}

#[test]
fn single_long_basename_is_abbreviated_into_budget() {
    let names = resolve(&["/x/averyveryverylongdirectoryname"], &[], None, ".");
    assert_eq!(names, vec!["ave".to_string()]);
    assert!(names[0].len() <= 29);
}

#[test]
fn every_name_is_within_the_byte_budget() {
    let names = resolve(
        &[
            "/deep/eee/ffff/gggg/hhhh/projectnamethatkeepsgoing",
            "/deep/eee/ffff/gggg/iiii/projectnamethatkeepsgoing",
            "/another/projectnamethatkeepsgoing/even/longer/tail/projectnamethatkeepsgoing",
        ],
        &[],
        None,
        ".",
    );
    for n in &names {
        assert!(n.len() <= 29, "{} is over budget", n);
    }
    assert_ne!(names[0], names[1]);
}

#[test]
fn empty_path_resolves_to_root() {
    let names = resolve(&["/"], &[], None, ".");
    assert_eq!(names, vec!["root".to_string()]);
}

#[test]
fn custom_separator_is_used_between_segments() {
    let names = resolve(&["work/api", "personal/api"], &[], None, "_");
    assert_eq!(names, vec!["work_api".to_string(), "personal_api".to_string()]);
}
