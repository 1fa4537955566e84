use animbg::tui::{trim_chars, App, InputMode, KeyInput, MenuStep};

fn chars(s: &str) -> Vec<char> {
    s.chars().collect()
}

fn text(v: &[char]) -> String {
    v.iter().collect()
}

#[test]
fn a_fresh_menu_is_empty_and_normal() {
    let app = App::new(vec!["Screen 0".to_string()]);
    assert!(matches!(app.input_mode, InputMode::Normal));
    assert_eq!(app.highlighted_index, 0);
    assert!(app.selected_indices.is_empty());
    assert!(app.paths.is_empty());
    assert!(app.current_monitor.is_none());
    assert!(app.error_message.is_none());
}

#[test]
fn arrows_move_the_highlight_with_wraparound() {
    let mut app = App::new(vec!["a".to_string(), "b".to_string(), "c".to_string()]);
    let mut buf: Vec<char> = Vec::new();
    app.handle_key(&mut buf, KeyInput::Down);
    assert_eq!(app.highlighted_index, 1);
    app.handle_key(&mut buf, KeyInput::Down);
    app.handle_key(&mut buf, KeyInput::Down);
    assert_eq!(app.highlighted_index, 0);
    app.handle_key(&mut buf, KeyInput::Up);
    assert_eq!(app.highlighted_index, 2);
    app.handle_key(&mut buf, KeyInput::Up);
    assert_eq!(app.highlighted_index, 1);
}

#[test]
fn enter_selects_the_highlighted_monitor() {
    let mut app = App::new(vec!["a".to_string(), "b".to_string()]);
    let mut buf: Vec<char> = Vec::new();
    app.handle_key(&mut buf, KeyInput::Down);
    let step = app.handle_key(&mut buf, KeyInput::Enter);
    assert_eq!(step, MenuStep::Continue);
    assert_eq!(app.selected_indices, vec![1]);
    assert_eq!(app.current_monitor, Some(1));
    assert!(matches!(app.input_mode, InputMode::PathInput));
}

#[test]
fn typing_a_path_and_entering_finishes_a_single_selection() {
    let mut app = App::new(vec!["a".to_string()]);
    let mut buf: Vec<char> = Vec::new();
    app.handle_key(&mut buf, KeyInput::Enter);
    for c in " /tmp/frames ".chars() {
        app.handle_key(&mut buf, KeyInput::Character(c));
    }
    let step = app.handle_key(&mut buf, KeyInput::Enter);
    assert_eq!(step, MenuStep::Finished);
    assert!(matches!(app.input_mode, InputMode::Normal));
    assert!(app.current_monitor.is_none());
    assert_eq!(app.paths.len(), 1);
    assert_eq!(app.paths[0].0, 0);
    // The recorded path is trimmed.
    assert_eq!(text(&app.paths[0].1), "/tmp/frames");
}

#[test]
fn a_blank_path_raises_the_error_message() {
    let mut app = App::new(vec!["a".to_string()]);
    let mut buf: Vec<char> = Vec::new();
    app.handle_key(&mut buf, KeyInput::Enter);
    app.handle_key(&mut buf, KeyInput::Character(' '));
    let step = app.handle_key(&mut buf, KeyInput::Enter);
    assert_eq!(step, MenuStep::Continue);
    assert_eq!(app.error_message, Some("Path cannot be empty.".to_string()));
    assert_eq!(app.paths.len(), 0);
}

#[test]
fn backspace_edits_the_buffer() {
    let mut app = App::new(vec!["a".to_string()]);
    let mut buf: Vec<char> = Vec::new();
    app.handle_key(&mut buf, KeyInput::Enter);
    app.handle_key(&mut buf, KeyInput::Character('x'));
    app.handle_key(&mut buf, KeyInput::Character('y'));
    app.handle_key(&mut buf, KeyInput::Backspace);
    assert_eq!(buf, vec!['x']);
    app.handle_key(&mut buf, KeyInput::Backspace);
    app.handle_key(&mut buf, KeyInput::Backspace);
    assert_eq!(buf.len(), 0);
}

#[test]
fn pending_selections_are_served_in_turn() {
    // With two monitors waiting for paths, saving the first moves the
    // menu on to the second instead of finishing.
    let mut app = App::new(vec!["a".to_string(), "b".to_string()]);
    app.selected_indices = vec![0, 1];
    app.start_path_input();
    assert_eq!(app.current_monitor, Some(0));
    let done = app.save_path(&chars("one"));
    assert!(!done);
    assert_eq!(app.current_monitor, Some(1));
    let done = app.save_path(&chars("two"));
    assert!(done);
    assert_eq!(app.paths.len(), 2);
    assert_eq!(text(&app.paths[0].1), "one");
    assert_eq!(text(&app.paths[1].1), "two");
    assert!(app.current_monitor.is_none());
}

#[test]
fn saving_again_replaces_the_monitors_path() {
    let mut app = App::new(vec!["a".to_string()]);
    let mut buf = chars("first");
    app.handle_key(&mut buf, KeyInput::Enter);
    assert!(matches!(app.input_mode, InputMode::PathInput));
    app.save_path(&chars("first"));
    // Select the same monitor again and enter a new path.
    app.handle_key(&mut buf, KeyInput::Enter);
    app.save_path(&chars("  second  "));
    assert_eq!(app.paths.len(), 1);
    assert_eq!(text(&app.paths[0].1), "second");
}

#[test]
fn escape_finishes_from_both_modes() {
    let mut app = App::new(vec!["a".to_string()]);
    let mut buf: Vec<char> = Vec::new();
    assert_eq!(app.handle_key(&mut buf, KeyInput::Escape), MenuStep::Finished);
    app.handle_key(&mut buf, KeyInput::Enter);
    assert_eq!(app.handle_key(&mut buf, KeyInput::Escape), MenuStep::Finished);
}

#[test]
fn trimming_strips_the_whitespace_margin() {
    assert_eq!(trim_chars(&chars("  a b  ")), chars("a b"));
    assert_eq!(trim_chars(&chars("\t\n x \u{a0}")), chars("x"));
    assert_eq!(trim_chars(&chars("   ")), chars(""));
    assert_eq!(trim_chars(&chars("solid")), chars("solid"));
}
