use indexmap::IndexMap;
use luncher::clipboard::models::{EntryKind, EntryMeta};
use luncher::config::{Entry, Scripts};
use luncher::modes::clipboard::{after_last_exec, display_kind, entries_to_items};
use luncher::modes::exec;
use luncher::modes::fetch;
use luncher::modes::launcher::{
    categories_to_tags, desktop_item, format_command, load_items, sort_by_name, strip_field_codes,
    terminal_candidates, DesktopFields,
};
use luncher::modes::script::{items_from_lines, run, run_dmenu};
use luncher::modes::switcher::{
    build_tags, format_label, items_from_clients, simplified_class_tag, simplify_class_label,
    sort_clients, HyprClient, HyprWorkspace,
};
use luncher::modes::tool::run_json;
use luncher::search::LauncherItem;

fn entry(name: &str, command: &str, tags: &[&str]) -> Entry {
    Entry {
        name: name.to_string(),
        command: command.to_string(),
        tag: tags.iter().map(|t| t.to_string()).collect(),
        inline_meta: None,
    }
}

fn scripts() -> Scripts {
    let mut entries = IndexMap::new();
    entries.insert("reload_waybar".to_string(), entry("reload waybar", "pkill waybar; waybar", &["sys", "waybar"]));
    entries.insert("lock".to_string(), entry("", "swaylock", &[]));
    Scripts { entries }
}

fn desktop(name: &str, exec: &str, terminal: bool, cats: &[&str]) -> DesktopFields {
    DesktopFields {
        no_display: false,
        hidden: false,
        kind: Some("Application".to_string()),
        name: Some(name.to_string()),
        exec_line: Some(exec.to_string()),
        terminal,
        categories: cats.iter().map(|c| c.to_string()).collect(),
    }
}

fn meta(id: u64, mime: &str, kind: EntryKind, filename: Option<&str>) -> EntryMeta {
    EntryMeta {
        id,
        timestamp: id,
        mime_type: mime.to_string(),
        kind,
        data_len: 1,
        sensitive: kind == EntryKind::Sensitive,
        preview: format!("preview {id}"),
        thumb: vec![],
        filename: filename.map(|s| s.to_string()),
    }
}

#[test]
fn script_mode_lists_scripts_in_file_order() {
    let items = run(scripts());
    let names: Vec<&str> = items.iter().map(|i| i.name.as_str()).collect();
    assert_eq!(names, vec!["reload waybar", "lock"]);
    assert_eq!(items[1].entry.command, "swaylock");
}

#[test]
fn piped_lines_become_rows() {
    let lines = vec!["first".to_string(), "   ".to_string(), "key\tshown".to_string(), "".to_string()];
    let items = items_from_lines(lines);
    assert_eq!(items.len(), 2);
    assert_eq!(items[0].name, "first");
    assert_eq!(items[0].entry.command, "first");
    assert_eq!(items[1].entry.name, "key\tshown");
    assert_eq!(items[1].entry.command, "key\tshown");
    assert_eq!(items[1].name, "key\tshown");
    assert!(items[1].entry.tag.is_empty());
    assert!(run_dmenu(None).is_empty());
    assert_eq!(run_dmenu(Some(vec!["a".to_string()])).len(), 1);
}

#[test]
fn exec_mode_finds_commands_by_key() {
    let s = scripts();
    assert_eq!(exec::run(&s, "lock"), Some("swaylock".to_string()));
    assert_eq!(exec::run(&s, "reload waybar"), None);
    assert_eq!(exec::run(&s, "reload_waybar"), Some("pkill waybar; waybar".to_string()));
}

#[test]
fn field_codes_are_stripped() {
    assert_eq!(strip_field_codes("firefox %u"), "firefox");
    assert_eq!(strip_field_codes("  app --flag %F  --x "), "app --flag   --x");
    assert_eq!(strip_field_codes("50%% off %"), "50 off");
}

#[test]
fn terminal_apps_use_the_first_installed_terminal() {
    assert_eq!(terminal_candidates(), vec!["foot", "kitty", "alacritty", "wezterm", "xterm"]);
    assert_eq!(format_command("htop", true, &vec![false, true, true, false, false]), "kitty -e htop");
    assert_eq!(format_command("htop", true, &vec![false, false, false, false, false]), "htop");
    assert_eq!(format_command("htop", true, &vec![]), "htop");
    assert_eq!(format_command("htop", false, &vec![true, true, true, true, true]), "htop");
}

#[test]
fn categories_become_tags() {
    let cats = vec!["Network;WebBrowser;".to_string(), " ; Utility ".to_string()];
    assert_eq!(categories_to_tags(&cats), vec!["Network", "WebBrowser", "Utility"]);
}

#[test]
fn desktop_entries_become_rows() {
    let f = desktop("Firefox", "firefox %u", false, &["Network;WebBrowser;"]);
    let it = desktop_item(&f, &vec![]).unwrap();
    assert_eq!(it.name, "Firefox");
    assert_eq!(it.entry.name, "");
    assert_eq!(it.entry.command, "firefox");
    assert_eq!(it.entry.tag, vec!["Network", "WebBrowser"]);
    assert!(it.entry.inline_meta.is_none());

    let mut hidden = desktop("X", "x", false, &[]);
    hidden.hidden = true;
    assert!(desktop_item(&hidden, &vec![]).is_none());
    let mut nodisplay = desktop("X", "x", false, &[]);
    nodisplay.no_display = true;
    assert!(desktop_item(&nodisplay, &vec![]).is_none());
    let mut link = desktop("X", "x", false, &[]);
    link.kind = Some("Link".to_string());
    assert!(desktop_item(&link, &vec![]).is_none());
    let unnamed = desktop("", "x", false, &[]);
    assert!(desktop_item(&unnamed, &vec![]).is_none());
    let mut noexec = desktop("Y", "", false, &[]);
    noexec.exec_line = None;
    assert_eq!(desktop_item(&noexec, &vec![]).unwrap().entry.command, "");
}

#[test]
fn applications_are_sorted_by_lowercase_name() {
    let entries = vec![
        desktop("zed", "zed", false, &[]),
        desktop("Alacritty", "alacritty", false, &[]),
        desktop("btop", "btop", true, &[]),
    ];
    let items = load_items(entries, &vec![true]);
    let names: Vec<&str> = items.iter().map(|i| i.name.as_str()).collect();
    assert_eq!(names, vec!["Alacritty", "btop", "zed"]);
    assert_eq!(items[1].entry.command, "foot -e btop");
    let sorted = sort_by_name(vec![
        LauncherItem::new("b".to_string(), entry("", "", &[])),
        LauncherItem::new("A".to_string(), entry("", "", &[])),
    ]);
    assert_eq!(sorted[0].name, "A");
}

#[test]
fn window_labels_and_tags() {
    assert_eq!(simplify_class_label("org.mozilla.firefox"), "firefox");
    assert_eq!(simplify_class_label("  kitty "), "kitty");
    assert_eq!(simplify_class_label("org.gnome-Nautilus"), "Nautilus");
    assert_eq!(simplify_class_label("   "), "");
    assert_eq!(simplified_class_tag("org.Mozilla.Firefox"), "firefox");
    assert_eq!(format_label("org.mozilla.firefox", " Page ", 2), "2: firefox - Page");
    assert_eq!(format_label("", "", -1), "-1: <unnamed window>");
    assert_eq!(format_label("kitty", "", 3), "3: kitty");
    assert_eq!(format_label("", "vim", 3), "3: vim");
    assert_eq!(build_tags(4, " kitty "), vec!["kitty", "4"]);
    assert_eq!(build_tags(4, ""), vec!["4"]);
}

fn client(ws: i32, class: &str, title: &str) -> HyprClient {
    HyprClient { workspace: HyprWorkspace { id: ws }, title: title.to_string(), class: class.to_string() }
}

#[test]
fn windows_are_ordered_by_workspace_class_title() {
    let clients = vec![client(2, "kitty", "b"), client(1, "zed", "x"), client(2, "Kitty", "a"), client(1, "alacritty", "y")];
    let sorted = sort_clients(clients);
    let keys: Vec<(i32, &str)> = sorted.iter().map(|c| (c.workspace.id, c.title.as_str())).collect();
    assert_eq!(keys, vec![(1, "y"), (1, "x"), (2, "a"), (2, "b")]);
    let items = items_from_clients(vec![client(3, "org.x.Term", "shell")]);
    assert_eq!(items[0].name, "3: Term - shell");
    assert_eq!(items[0].entry.command, "hyprctl dispatch workspace 3");
    assert_eq!(items[0].entry.tag, vec!["org.x.Term", "3"]);
    assert_eq!(items[0].entry.inline_meta, Some(String::new()));
}

#[test]
fn clipboard_rows() {
    assert_eq!(after_last_exec(&"a.b.c".chars().collect(), '.'), vec!['c']);
    assert_eq!(after_last_exec(&"abc".chars().collect(), '.'), vec!['a', 'b', 'c']);
    assert_eq!(display_kind(&meta(1, "text/uri-list", EntryKind::Text, Some("photo.PNG"))), EntryKind::Image);
    assert_eq!(display_kind(&meta(1, "text/uri-list", EntryKind::Text, Some("notes.md"))), EntryKind::Text);
    assert_eq!(display_kind(&meta(1, "text/uri-list", EntryKind::Text, Some("archive.zip"))), EntryKind::Binary);
    assert_eq!(display_kind(&meta(1, "text/uri-list", EntryKind::Text, None)), EntryKind::Binary);
    assert_eq!(display_kind(&meta(1, "image/png", EntryKind::Image, None)), EntryKind::Image);
    let items = entries_to_items(vec![meta(12, "text/plain", EntryKind::Text, None), meta(13, "text/plain", EntryKind::Sensitive, None)]);
    assert_eq!(items[0].name, "preview 12");
    assert_eq!(items[0].entry.command, "12");
    assert_eq!(items[0].entry.tag, vec!["text"]);
    assert_eq!(items[1].name, "\u{2022}\u{2022}\u{2022}\u{2022}\u{2022}\u{2022}\u{2022}\u{2022}");
    assert_eq!(items[1].entry.tag, vec!["sensitive"]);
}

#[test]
fn fetch_splits_results_by_where_they_came_from() {
    let scripts_list = vec![
        LauncherItem::new("lock".to_string(), entry("", "swaylock", &["a", "b"])),
        LauncherItem::new("k".to_string(), entry("Named script", "x", &[])),
    ];
    let results = vec![
        LauncherItem::new("k".to_string(), entry("Named script", "x", &[])),
        LauncherItem { name: "Firefox".to_string(), entry: entry("", "firefox", &[]) },
        LauncherItem::new("lock".to_string(), entry("", "swaylock", &["a", "b"])),
    ];
    let out = fetch::split_results(&results, &scripts_list);
    let names: Vec<&str> = out.script.iter().map(|r| r.name.as_str()).collect();
    assert_eq!(names, vec!["Named script", "lock"]);
    assert_eq!(out.script[1].command, "swaylock");
    assert_eq!(out.script[1].hashtag, "a b");
    assert_eq!(out.launcher.len(), 1);
    assert_eq!(out.launcher[0].name, "Firefox");
}

#[test]
fn fetch_with_an_empty_pattern_returns_everything() {
    let apps = vec![LauncherItem { name: "Zed".to_string(), entry: entry("", "zed", &["Dev"]) }];
    let out = fetch::run(scripts(), apps, "", false, false, false);
    let names: Vec<&str> = out.script.iter().map(|r| r.name.as_str()).collect();
    assert_eq!(names, vec!["reload waybar", "lock"]);
    let names: Vec<&str> = out.launcher.iter().map(|r| r.name.as_str()).collect();
    assert_eq!(names, vec!["Zed"]);
    let only = fetch::run(scripts(), vec![], "#sys", false, true, false);
    assert_eq!(only.script.len(), 1);
    assert_eq!(only.script[0].hashtag, "sys waybar");
    assert!(only.launcher.is_empty());
    let apps = vec![LauncherItem { name: "Zed".to_string(), entry: entry("", "zed", &["Dev"]) }];
    let only = fetch::run(scripts(), apps, "#dev", false, false, true);
    assert!(only.script.is_empty());
    assert_eq!(only.launcher.len(), 1);
}

#[test]
fn tool_mode_lists_scripts_by_key() {
    let apps = vec![LauncherItem { name: "Zed".to_string(), entry: entry("", "zed", &["Dev", "Editor"]) }];
    let out = run_json(scripts(), &apps);
    let names: Vec<&str> = out.script.iter().map(|r| r.name.as_str()).collect();
    assert_eq!(names, vec!["reload_waybar", "lock"]);
    assert_eq!(out.script[0].hashtag, "sys waybar");
    assert_eq!(out.launcher[0].name, "Zed");
    assert_eq!(out.launcher[0].hashtag, "Dev Editor");
}

#[test]
fn equal_names_keep_their_order() {
    let sorted = sort_by_name(vec![
        LauncherItem::new("b".to_string(), entry("", "1", &[])),
        LauncherItem::new("Foo".to_string(), entry("", "2", &[])),
        LauncherItem::new("a".to_string(), entry("", "3", &[])),
        LauncherItem::new("foo".to_string(), entry("", "4", &[])),
    ]);
    let commands: Vec<&str> = sorted.iter().map(|i| i.entry.command.as_str()).collect();
    assert_eq!(commands, vec!["3", "1", "2", "4"]);
    let clients = vec![client(1, "kitty", "Same"), client(1, "Kitty", "same"), client(0, "a", "z")];
    let sorted = sort_clients(clients);
    let classes: Vec<&str> = sorted.iter().map(|c| c.class.as_str()).collect();
    assert_eq!(classes, vec!["a", "kitty", "Kitty"]);
}
