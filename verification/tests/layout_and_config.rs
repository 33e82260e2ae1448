//! Configuration parsing and the pure layout arithmetic.

use zoxide_sessions::config::Config;
use zoxide_sessions::naming::resolve_names;
use zoxide_sessions::render::PluginRenderer;

#[test]
fn config_defaults_apply_when_options_are_missing() {
    let c = Config::from_zellij_config(&Vec::new());
    assert!(c.default_layout.is_none());
    assert_eq!(c.session_separator, ".");
    assert!(!c.show_resurrectable_sessions);
    assert!(c.base_paths.is_empty());
}

#[test]
fn config_reads_all_four_options() {
    let pairs: Vec<(String, String)> = vec![
        ("default_layout".to_string(), "compact".to_string()),
        ("session_separator".to_string(), "_".to_string()),
        ("show_resurrectable_sessions".to_string(), "true".to_string()),
        ("base_paths".to_string(), " /work | |/home/alice ".to_string()),
    ];
    let c = Config::from_zellij_config(&pairs);
    assert_eq!(c.default_layout.as_deref(), Some("compact"));
    assert_eq!(c.session_separator, "_");
    assert!(c.show_resurrectable_sessions);
    assert_eq!(c.base_paths, vec!["/work".to_string(), "/home/alice".to_string()]);
}

#[test]
fn show_recoverable_needs_the_exact_word_true() {
    let pairs: Vec<(String, String)> =
        vec![("show_resurrectable_sessions".to_string(), "yes".to_string())];
    let c = Config::from_zellij_config(&pairs);
    assert!(!c.show_resurrectable_sessions);
}

#[test]
fn names_with_multibyte_characters_stay_within_the_byte_budget() {
    let paths: Vec<String> = vec!["/data/s\u{e9}jour\u{e9}\u{e9}\u{e9}\u{e9}\u{e9}\u{e9}\u{e9}\u{e9}\u{e9}\u{e9}\u{e9}\u{e9}\u{e9}\u{e9}\u{e9}".to_string()];
    let config = Config::from_zellij_config(&Vec::new());
    let names = resolve_names(&paths, &config, &None);
    assert!(names[0].len() <= 29);
    // the result is valid text: no character was cut in half
    assert!(String::from_utf8(names[0].as_bytes().to_vec()).is_ok());
}

#[test]
fn render_range_windows_around_the_selection() {
    // list fits: everything is drawn
    assert_eq!(PluginRenderer::calculate_render_range(10, 4, Some(2)), (0, 4));
    // list longer than the table: a window of one less than the table height
    assert_eq!(PluginRenderer::calculate_render_range(5, 20, None), (0, 4));
    assert_eq!(PluginRenderer::calculate_render_range(5, 20, Some(10)), (8, 12));
    // near the top the window saturates at zero
    assert_eq!(PluginRenderer::calculate_render_range(5, 20, Some(1)), (0, 4));
}

#[test]
fn long_lines_are_truncated_around_an_ellipsis() {
    assert_eq!(PluginRenderer::get_truncated_text("short", 40), "short");
    let long = "abcdefghijKLMNOPQRSTuvwxyz0123456789";
    let cut = PluginRenderer::get_truncated_text(long, 20);
    assert_eq!(cut, "abcdefghij...3456789");
    // width at most ten: the text is left alone
    assert_eq!(PluginRenderer::get_truncated_text(long, 10), long);
}

#[test]
fn main_size_covers_the_whole_pane() {
    assert_eq!(PluginRenderer::calculate_main_size(24, 80), (0, 0, 80, 24));
}
