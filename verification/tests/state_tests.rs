use indexmap::IndexMap;
use luncher::config::{Entry, Scripts};
use luncher::search::LauncherItem;
use luncher::state::{
    is_control, next_char_boundary, next_word_boundary, prev_char_boundary, prev_word_boundary,
    single_char_of, splice, AppState, BackgroundUpdate, KeyAction, KeyCode,
};

fn entry(command: &str) -> Entry {
    Entry { name: String::new(), command: command.to_string(), tag: vec![], inline_meta: None }
}

fn scripts(keys: &[&str]) -> Scripts {
    let mut entries = IndexMap::new();
    for k in keys {
        entries.insert(k.to_string(), entry(&format!("run {k}")));
    }
    Scripts { entries }
}

fn typed(app: &mut AppState, text: &str) {
    for c in text.chars() {
        app.handle_key(KeyCode::Other, Some(c.to_string()), false, false);
    }
}

#[test]
fn char_boundaries_step_over_multibyte_characters() {
    let s = "aé€b";
    assert_eq!(next_char_boundary(s, 0), 1);
    assert_eq!(next_char_boundary(s, 1), 3);
    assert_eq!(next_char_boundary(s, 3), 6);
    assert_eq!(next_char_boundary(s, 7), 7);
    assert_eq!(prev_char_boundary(s, 7), 6);
    assert_eq!(prev_char_boundary(s, 6), 3);
    assert_eq!(prev_char_boundary(s, 3), 1);
    assert_eq!(prev_char_boundary(s, 0), 0);
}

#[test]
fn word_boundaries_skip_spaces_then_words() {
    let s = "foo  bar baz";
    assert_eq!(prev_word_boundary(s, 12), 9);
    assert_eq!(prev_word_boundary(s, 9), 5);
    assert_eq!(prev_word_boundary(s, 5), 0);
    assert_eq!(next_word_boundary(s, 0), 5);
    assert_eq!(next_word_boundary(s, 5), 9);
    assert_eq!(next_word_boundary(s, 9), 12);
}

#[test]
fn splice_replaces_a_byte_range() {
    let q = "hello world".to_string();
    assert_eq!(splice(&q, 5, 11, "!"), "hello!");
    assert_eq!(splice(&q, 0, 0, ">"), ">hello world");
}

#[test]
fn single_character_text_and_controls() {
    assert_eq!(single_char_of(&Some("x".to_string())), Some('x'));
    assert_eq!(single_char_of(&Some("xy".to_string())), None);
    assert_eq!(single_char_of(&None), None);
    assert!(is_control('\n'));
    assert!(is_control('\u{7f}'));
    assert!(is_control('\u{9f}'));
    assert!(!is_control('a'));
    assert!(!is_control('\u{a0}'));
}

#[test]
fn new_window_over_scripts() {
    let app = AppState::new(None, scripts(&["a", "b", "c"]), false, 5);
    assert!(!app.dmenu_mode);
    assert_eq!(app.search.results.len(), 3);
    assert_eq!(app.query, "");
    assert_eq!(app.cursor, 0);
    assert_eq!(app.selected, 0);
    assert_eq!(app.visible, 5);
    assert!(app.needs_redraw);
    assert!(!app.exit);
}

#[test]
fn new_window_over_piped_items_is_dmenu() {
    let items = vec![LauncherItem::new("x".to_string(), entry("x"))];
    let app = AppState::new(Some(items), scripts(&[]), false, 5);
    assert!(app.dmenu_mode);
    assert_eq!(app.search.results.len(), 1);
}

#[test]
fn typing_moves_the_cursor_by_bytes() {
    let mut app = AppState::new(None, scripts(&["a"]), false, 5);
    typed(&mut app, "hé");
    assert_eq!(app.query, "hé");
    assert_eq!(app.cursor, 3);
    app.handle_key(KeyCode::Left, None, false, false);
    assert_eq!(app.cursor, 1);
    typed(&mut app, "x");
    assert_eq!(app.query, "hxé");
    assert_eq!(app.cursor, 2);
    app.handle_key(KeyCode::Home, None, false, false);
    assert_eq!(app.cursor, 0);
    app.handle_key(KeyCode::End, None, false, false);
    assert_eq!(app.cursor, 4);
}

#[test]
fn control_and_modified_text_is_ignored() {
    let mut app = AppState::new(None, scripts(&["a"]), false, 5);
    app.handle_key(KeyCode::Other, Some("\t".to_string()), false, false);
    app.handle_key(KeyCode::Other, Some("q".to_string()), true, false);
    app.handle_key(KeyCode::Other, Some("q".to_string()), false, true);
    app.handle_key(KeyCode::Other, Some("ab".to_string()), false, false);
    assert_eq!(app.query, "");
    assert_eq!(app.cursor, 0);
}

#[test]
fn backspace_delete_and_word_delete() {
    let mut app = AppState::new(None, scripts(&["a"]), false, 5);
    typed(&mut app, "foo bar");
    app.handle_key(KeyCode::BackSpace, None, false, false);
    assert_eq!(app.query, "foo ba");
    app.handle_key(KeyCode::BackSpace, None, true, false);
    assert_eq!(app.query, "foo ");
    assert_eq!(app.cursor, 4);
    app.handle_key(KeyCode::Home, None, false, false);
    app.handle_key(KeyCode::Delete, None, false, false);
    assert_eq!(app.query, "oo ");
    assert_eq!(app.cursor, 0);
    app.handle_key(KeyCode::Letter('k'), None, true, false);
    assert_eq!(app.query, "");
}

#[test]
fn selection_moves_within_results() {
    let mut app = AppState::new(None, scripts(&["a", "b", "c"]), false, 2);
    app.visible = 0;
    app.handle_key(KeyCode::Down, None, false, false);
    app.handle_key(KeyCode::Down, None, false, false);
    assert_eq!(app.selected, 2);
    assert_eq!(app.visible, 1);
    app.handle_key(KeyCode::Down, None, false, false);
    assert_eq!(app.selected, 2);
    app.handle_key(KeyCode::Up, None, false, false);
    app.handle_key(KeyCode::Up, None, false, false);
    assert_eq!(app.selected, 0);
    assert_eq!(app.visible, 0);
    app.handle_key(KeyCode::Up, None, false, false);
    assert_eq!(app.selected, 0);
}

#[test]
fn page_keys_move_by_a_page() {
    let mut app = AppState::new(None, scripts(&["a", "b", "c", "d", "e"]), false, 2);
    app.visible = 0;
    app.handle_key(KeyCode::PageDown, None, false, false);
    assert_eq!(app.selected, 2);
    assert_eq!(app.visible, 2);
    app.handle_key(KeyCode::PageDown, None, false, false);
    assert_eq!(app.selected, 4);
    assert_eq!(app.visible, 3);
    app.handle_key(KeyCode::PageUp, None, false, false);
    assert_eq!(app.selected, 2);
    assert_eq!(app.visible, 1);
}

#[test]
fn enter_runs_the_selected_command_and_exits() {
    let mut app = AppState::new(None, scripts(&["a", "b"]), false, 5);
    app.handle_key(KeyCode::Down, None, false, false);
    let action = app.handle_key(KeyCode::Return, None, false, false);
    match action {
        Some(KeyAction::Execute(c)) => assert_eq!(c, "run b"),
        other => panic!("unexpected action {other:?}"),
    }
    assert!(app.exit);
}

#[test]
fn enter_in_dmenu_mode_prints() {
    let items = vec![LauncherItem::new("x".to_string(), entry("chosen"))];
    let mut app = AppState::new(Some(items), scripts(&[]), false, 5);
    let action = app.handle_key(KeyCode::KpEnter, None, false, false);
    match action {
        Some(KeyAction::Print(c)) => assert_eq!(c, "chosen"),
        other => panic!("unexpected action {other:?}"),
    }
    assert!(app.exit);
}

#[test]
fn escape_and_ctrl_c_exit_without_action() {
    let mut app = AppState::new(None, scripts(&["a"]), false, 5);
    assert!(app.handle_key(KeyCode::Escape, None, false, false).is_none());
    assert!(app.exit);
    let mut app = AppState::new(None, scripts(&["a"]), false, 5);
    assert!(app.handle_key(KeyCode::Letter('c'), None, true, false).is_none());
    assert!(app.exit);
}

#[test]
fn enter_with_no_results_only_exits() {
    let mut app = AppState::new(None, scripts(&[]), false, 5);
    assert!(app.handle_key(KeyCode::Return, None, false, false).is_none());
    assert!(app.exit);
}

#[test]
fn scroll_keeps_the_selection_visible() {
    let mut app = AppState::new(None, scripts(&["a", "b", "c", "d", "e"]), false, 2);
    app.update_scroll();
    assert_eq!(app.visible, 0);
    assert_eq!(app.selected, 0);
    app.selected = 4;
    app.update_scroll();
    assert_eq!(app.visible, 3);
}

#[test]
fn background_updates_replace_items_and_log_errors_once() {
    let mut app = AppState::new(None, scripts(&["a"]), false, 5);
    let log = app.apply_update(BackgroundUpdate::Error("down".to_string()));
    assert_eq!(log, Some("down".to_string()));
    let log = app.apply_update(BackgroundUpdate::Error("down".to_string()));
    assert_eq!(log, None);
    let items = vec![
        LauncherItem::new("x".to_string(), entry("x")),
        LauncherItem::new("y".to_string(), entry("y")),
    ];
    let log = app.apply_update(BackgroundUpdate::Items(items));
    assert_eq!(log, None);
    assert!(app.last_background_error.is_none());
    assert_eq!(app.search.results.len(), 2);
}

#[test]
fn typing_then_backspace_restores_the_query() {
    let mut app = AppState::new(None, scripts(&["a"]), false, 5);
    typed(&mut app, "añb");
    app.handle_key(KeyCode::Left, None, false, false);
    let (query, cursor) = (app.query.clone(), app.cursor);
    for ch in ["€", "x", "😀"] {
        app.handle_key(KeyCode::Other, Some(ch.to_string()), false, false);
        assert_ne!(app.query, query);
        app.handle_key(KeyCode::BackSpace, None, false, false);
        assert_eq!(app.query, query);
        assert_eq!(app.cursor, cursor);
    }
}

#[test]
fn try_new_opens_like_new() {
    let app = AppState::try_new(None, scripts(&["a", "b"]), false, 3).unwrap();
    assert!(!app.dmenu_mode);
    assert_eq!(app.search.results.len(), 2);
    assert_eq!(app.visible, 3);
    let items = vec![LauncherItem::new("x".to_string(), entry("x"))];
    let app = AppState::try_new(Some(items), scripts(&[]), false, 3).unwrap();
    assert!(app.dmenu_mode);
    assert_eq!(app.search.results[0].entry.command, "x");
}
