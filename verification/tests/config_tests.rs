use luncher::config::{
    default_bg, default_false, default_fg, default_fg_dim, default_fg_hint, default_height,
    default_history_limit, default_input_h, default_line, default_pad_x, default_row_h,
    default_sel_bg, default_true, default_width, ClipboardConfig, Entry, ThemeConfig, WindowConfig,
};

#[test]
fn window_defaults_are_documented_sizes() {
    assert_eq!(default_width(), 1200);
    assert_eq!(default_height(), 800);
    let w = WindowConfig::default();
    assert_eq!(w.width, 1200);
    assert_eq!(w.height, 800);
}

#[test]
fn theme_defaults_are_documented_colours() {
    assert_eq!(default_bg(), 0xFF1E1E2E);
    assert_eq!(default_fg(), 0xE6E6E6FF);
    assert_eq!(default_fg_dim(), 0x73C0CAF5);
    assert_eq!(default_fg_hint(), 0x4DC0CAF5);
    assert_eq!(default_sel_bg(), 0x15C0CAF5);
    assert_eq!(default_line(), 0xFF2A2A3E);
    let t = ThemeConfig::default();
    assert_eq!(t.bg, 0xFF1E1E2E);
    assert_eq!(t.fg, 0xE6E6E6FF);
    assert_eq!(t.fg_dim, 0x73C0CAF5);
    assert_eq!(t.fg_hint, 0x4DC0CAF5);
    assert_eq!(t.sel_bg, 0x15C0CAF5);
    assert_eq!(t.line, 0xFF2A2A3E);
}

#[test]
fn layout_and_flag_defaults() {
    assert_eq!(default_row_h(), 58);
    assert_eq!(default_input_h(), 45);
    assert_eq!(default_pad_x(), 16);
    assert!(default_true());
    assert!(!default_false());
}

#[test]
fn clipboard_history_limit_defaults_to_fifty() {
    assert_eq!(default_history_limit(), 50);
    assert_eq!(ClipboardConfig::default().history_limit, 50);
}

#[test]
fn entry_clone_keeps_every_field() {
    let e = Entry {
        name: "reload waybar".to_string(),
        command: "pkill waybar".to_string(),
        tag: vec!["sys".to_string(), "waybar".to_string()],
        inline_meta: Some("meta".to_string()),
    };
    let c = e.clone();
    assert_eq!(c.name, "reload waybar");
    assert_eq!(c.command, "pkill waybar");
    assert_eq!(c.tag, vec!["sys".to_string(), "waybar".to_string()]);
    assert_eq!(c.inline_meta, Some("meta".to_string()));
}
