use luncher::app::{update_from_reply, RemoteSource};
use luncher::cli::{Cli, HyprAction, Launch};
use luncher::clipboard::models::{EntryKind, EntryMeta};
use luncher::config::Entry;
use luncher::protocol::DaemonResponse;
use luncher::renderer::{blend_pixel, draw_rect, preview_lines, preview_window, row_meta, row_slots, visible_rows, WrapState};
use luncher::search::LauncherItem;
use luncher::state::BackgroundUpdate;

fn cli(mode: Option<&str>, fix: Option<&str>, daemon: bool) -> Cli {
    Cli {
        mode: mode.map(|m| m.to_string()),
        fix: fix.map(|f| f.to_string()),
        only_script: false,
        only_launcher: false,
        action: HyprAction::Switch,
        daemon,
    }
}

fn item(name: &str, entry_name: &str, command: &str, meta: Option<&str>) -> LauncherItem {
    LauncherItem {
        name: name.to_string(),
        entry: Entry {
            name: entry_name.to_string(),
            command: command.to_string(),
            tag: vec![],
            inline_meta: meta.map(|m| m.to_string()),
        },
    }
}

#[test]
fn refresh_intervals() {
    assert_eq!(RemoteSource::Clipboard.refresh_interval(), 50);
    assert_eq!(RemoteSource::Launcher.refresh_interval(), 5000);
}

#[test]
fn daemon_replies_become_updates() {
    let m = EntryMeta {
        id: 5,
        timestamp: 5,
        mime_type: "text/plain".to_string(),
        kind: EntryKind::Text,
        data_len: 2,
        sensitive: false,
        preview: "hi".to_string(),
        thumb: vec![],
        filename: None,
    };
    match update_from_reply(Ok(DaemonResponse::ClipboardHistory(vec![m]))) {
        Ok(BackgroundUpdate::Items(v)) => {
            assert_eq!(v.len(), 1);
            assert_eq!(v[0].name, "hi");
            assert_eq!(v[0].entry.command, "5");
        }
        other => panic!("unexpected {other:?}"),
    }
    match update_from_reply(Ok(DaemonResponse::LauncherItems(vec![item("a", "", "a", None)]))) {
        Ok(BackgroundUpdate::Items(v)) => assert_eq!(v[0].name, "a"),
        other => panic!("unexpected {other:?}"),
    }
    assert!(matches!(update_from_reply(Err("gone".to_string())), Ok(BackgroundUpdate::Error(e)) if e == "gone"));
    assert!(matches!(update_from_reply(Ok(DaemonResponse::Pong)), Err(DaemonResponse::Pong)));
}

#[test]
fn the_daemon_flag_wins() {
    assert!(matches!(cli(Some("launcher"), None, true).launch(false), Launch::Daemon));
}

#[test]
fn piped_input_without_a_mode_is_dmenu() {
    assert!(matches!(cli(None, None, false).launch(false), Launch::Dmenu));
    assert!(matches!(cli(None, None, false).launch(true), Launch::Script));
    assert!(matches!(cli(Some("script"), None, false).launch(false), Launch::Script));
}

#[test]
fn named_modes() {
    assert!(matches!(cli(Some("launcher"), None, false).launch(true), Launch::Launcher));
    assert!(matches!(cli(Some("clipboard"), None, false).launch(true), Launch::Clipboard));
    assert!(matches!(cli(Some("switcher"), None, false).launch(true), Launch::Switcher(HyprAction::Switch)));
    assert!(matches!(cli(Some("tool"), None, false).launch(true), Launch::Tool));
    assert!(matches!(cli(Some("exec"), Some("lock"), false).launch(true), Launch::Exec(n) if n == "lock"));
    assert!(matches!(cli(Some("fetch"), Some("fire"), false).launch(true), Launch::Fetch(p) if p == "fire"));
}

#[test]
fn mode_errors() {
    assert!(matches!(cli(Some("exec"), None, false).launch(true), Launch::Fail(m) if m == "exec mode requires -f/--fix argument"));
    assert!(matches!(cli(Some("fetch"), None, false).launch(true), Launch::Fail(m) if m == "fetch mode requires -f/--fix argument"));
    assert!(matches!(
        cli(Some("bogus"), None, false).launch(true),
        Launch::Fail(m) if m == "Unknown mode: 'bogus'. Valid modes: script, launcher, clipboard, switcher, tool, exec, fetch"
    ));
}

#[test]
fn blending_mixes_channels() {
    assert_eq!(blend_pixel(0xFF000000, 255, 255, 255, 255), 0xFFFFFFFF);
    assert_eq!(blend_pixel(0xFF102030, 0, 0, 0, 0), 0xFF102030);
    assert_eq!(blend_pixel(0x00FF0000, 0, 0, 255, 51), 0xFFCC0033);
}

#[test]
fn opaque_rectangles_replace_pixels_inside_only() {
    let mut buf = vec![0xFF000000u32; 4 * 3];
    draw_rect(&mut buf, 4, 3, 1, 1, 2, 5, 0xFF2A2A3E);
    let expected: Vec<u32> = (0..12)
        .map(|i| {
            let (col, row) = (i % 4, i / 4);
            if (1..3).contains(&col) && row >= 1 { 0xFF2A2A3E } else { 0xFF000000 }
        })
        .collect();
    assert_eq!(buf, expected);
}

#[test]
fn translucent_rectangles_blend() {
    let mut buf = vec![0xFF000000u32; 2 * 2];
    draw_rect(&mut buf, 2, 2, 0, 0, 1, 1, 0x80FF0000);
    assert_eq!(buf[0], 0xFF800000);
    assert_eq!(&buf[1..], &[0xFF000000, 0xFF000000, 0xFF000000]);
    let mut buf = vec![0xFF000000u32; 2 * 2];
    draw_rect(&mut buf, 2, 2, 5, 0, 1, 1, 0x80FF0000);
    assert_eq!(buf, vec![0xFF000000; 4]);
}

#[test]
fn row_secondary_text() {
    assert_eq!(row_meta(&item("a", "", "a", Some("meta"))), Some("meta".to_string()));
    assert_eq!(row_meta(&item("a", "b", "c", Some(""))), None);
    assert_eq!(row_meta(&item("a", "b", "c", None)), Some("b".to_string()));
    assert_eq!(row_meta(&item("a", "a", "c", None)), Some("c".to_string()));
    assert_eq!(row_meta(&item("a", "", "a", None)), None);
}

#[test]
fn rows_and_preview_lines_that_fit() {
    assert_eq!(visible_rows(800, 45, 58), 13);
    assert_eq!(visible_rows(40, 45, 58), 0);
    assert_eq!(preview_lines(800, 66, 20, 58), 12);
    assert_eq!(preview_lines(800, 66, 20, 0), 0);
    assert_eq!(preview_lines(10, 66, 20, 58), 0);
}

#[test]
fn preview_scrolling_is_clamped() {
    let w = preview_window(30, 10, 25);
    assert_eq!((w.start, w.end, w.max_scroll), (20, 30, 20));
    let w = preview_window(30, 10, 3);
    assert_eq!((w.start, w.end, w.max_scroll), (3, 13, 20));
    let w = preview_window(5, 10, 3);
    assert_eq!((w.start, w.end, w.max_scroll), (0, 5, 0));
}

#[test]
fn result_rows_stop_at_the_last_result_or_the_page() {
    let slots = row_slots(3, 0, 1, 800, 45, 58);
    let got: Vec<(usize, u32, bool, bool)> = slots.iter().map(|s| (s.index, s.y, s.selected, s.separator)).collect();
    assert_eq!(got, vec![(0, 46, false, true), (1, 104, true, true), (2, 162, false, true)]);
    let slots = row_slots(100, 10, 12, 200, 45, 58);
    let got: Vec<(usize, u32, bool, bool)> = slots.iter().map(|s| (s.index, s.y, s.selected, s.separator)).collect();
    assert_eq!(got, vec![(10, 46, false, true), (11, 104, false, false)]);
    assert!(row_slots(5, 7, 0, 800, 45, 58).is_empty());
    assert!(row_slots(5, 0, 0, 40, 45, 58).is_empty());
}

#[test]
fn greedy_wrapping() {
    let words = ["aa", "bb", "cc", "dd"];
    let mut st = WrapState::new();
    for w in words {
        let text = st.candidate(w);
        let width = (text.chars().count() * 10) as u32;
        st.step(w.to_string(), width, 50);
    }
    assert_eq!(st.finish(), vec!["aa bb".to_string(), "cc dd".to_string()]);
    let mut st = WrapState::new();
    assert_eq!(st.candidate("long"), "long");
    st.step("verylongword".to_string(), 1000, 50);
    assert_eq!(st.candidate("x"), "verylongword x");
    st.step("x".to_string(), 1000, 50);
    assert_eq!(st.finish(), vec!["verylongword".to_string(), "x".to_string()]);
    assert!(WrapState::new().finish().is_empty());
}
