use luncher::config::Entry;
use luncher::search::{filter_by_tags, matches_tags, FuzzySearch, LauncherItem, ParsedQuery};

fn entry(name: &str, command: &str, tags: &[&str]) -> Entry {
    Entry {
        name: name.to_string(),
        command: command.to_string(),
        tag: tags.iter().map(|t| t.to_string()).collect(),
        inline_meta: None,
    }
}

#[test]
fn item_takes_entry_name_when_present() {
    let it = LauncherItem::new("key".to_string(), entry("Shown", "cmd", &[]));
    assert_eq!(it.name, "Shown");
    assert_eq!(it.search_text(), "Shown");
}

#[test]
fn item_falls_back_to_key_without_entry_name() {
    let it = LauncherItem::new("key".to_string(), entry("", "cmd", &[]));
    assert_eq!(it.name, "key");
    assert_eq!(it.entry.command, "cmd");
}

#[test]
fn parse_splits_text_and_tags() {
    let q = ParsedQuery::parse("  fire #Web  fox #  #SYS ");
    assert_eq!(q.text, "fire fox");
    assert_eq!(q.tags, vec!["web".to_string(), "sys".to_string()]);
}

#[test]
fn parse_empty_query() {
    let q = ParsedQuery::parse("   ");
    assert_eq!(q.text, "");
    assert!(q.tags.is_empty());
}

#[test]
fn tags_match_by_lowercase_substring() {
    let it = LauncherItem::new("k".to_string(), entry("", "c", &["System", "Network"]));
    assert!(matches_tags(&it, &vec!["sys".to_string()]));
    assert!(matches_tags(&it, &vec!["work".to_string(), "sys".to_string()]));
    assert!(!matches_tags(&it, &vec!["web".to_string()]));
    assert!(matches_tags(&it, &vec![]));
}

#[test]
fn filter_keeps_tagged_items_in_order() {
    let items = vec![
        LauncherItem::new("a".to_string(), entry("", "a", &["sys"])),
        LauncherItem::new("b".to_string(), entry("", "b", &["web"])),
        LauncherItem::new("c".to_string(), entry("", "c", &["Sys", "web"])),
    ];
    let kept = filter_by_tags(items, &vec!["sys".to_string()]);
    let names: Vec<&str> = kept.iter().map(|i| i.name.as_str()).collect();
    assert_eq!(names, vec!["a", "c"]);
}

#[test]
fn search_without_query_shows_every_item() {
    let items = vec![
        LauncherItem::new("one".to_string(), entry("", "1", &[])),
        LauncherItem::new("two".to_string(), entry("", "2", &[])),
    ];
    let mut s = FuzzySearch::new(items, false);
    assert_eq!(s.results.len(), 2);
    s.update("   ");
    let names: Vec<&str> = s.result_list().iter().map(|i| i.name.as_str()).collect();
    assert_eq!(names, vec!["one", "two"]);
}

#[test]
fn search_with_tags_only_filters_in_order() {
    let items = vec![
        LauncherItem::new("one".to_string(), entry("", "1", &["sys"])),
        LauncherItem::new("two".to_string(), entry("", "2", &["web"])),
        LauncherItem::new("three".to_string(), entry("", "3", &["system"])),
    ];
    let mut s = FuzzySearch::new(items, false);
    s.update("#sys");
    let names: Vec<&str> = s.result_list().iter().map(|i| i.name.as_str()).collect();
    assert_eq!(names, vec!["one", "three"]);
}

#[test]
fn search_with_text_returns_only_matching_items() {
    let items = vec![
        LauncherItem::new("firefox".to_string(), entry("", "firefox", &["web"])),
        LauncherItem::new("terminal".to_string(), entry("", "foot", &["sys"])),
    ];
    let mut s = FuzzySearch::new(items, false);
    s.update("firefox");
    for _ in 0..100 {
        s.tick();
    }
    assert!(s.results.len() <= 1);
    for it in s.result_list() {
        assert_eq!(it.name, "firefox");
    }
}

#[test]
fn replace_items_reports_change() {
    let items = vec![LauncherItem::new("one".to_string(), entry("", "1", &[]))];
    let mut s = FuzzySearch::new(items, false);
    let same = vec![LauncherItem::new("one".to_string(), entry("", "1", &[]))];
    assert!(!s.replace_items(same));
    let other = vec![LauncherItem::new("two".to_string(), entry("", "2", &[]))];
    assert!(s.replace_items(other));
    assert_eq!(s.results.len(), 1);
    assert_eq!(s.results[0].name, "two");
}

#[test]
fn text_queries_return_at_most_fifty_results() {
    let items: Vec<LauncherItem> = (0..80)
        .map(|i| LauncherItem::new(format!("item {i}"), entry("", "c", &[])))
        .collect();
    let mut s = FuzzySearch::new(items, false);
    s.update("item");
    for _ in 0..200 {
        s.tick();
    }
    assert!(s.results.len() <= 50);
    for it in s.result_list() {
        assert!(it.name.starts_with("item "));
    }
}

#[test]
fn case_insensitive_search_ignores_the_query_case() {
    let items = vec![
        LauncherItem::new("Firefox".to_string(), entry("", "firefox", &[])),
        LauncherItem::new("Terminal".to_string(), entry("", "foot", &[])),
    ];
    let mut s = FuzzySearch::new(items, false);
    s.update("Fire");
    for _ in 0..5000 {
        if !s.results.is_empty() {
            break;
        }
        s.tick();
    }
    assert_eq!(s.results.len(), 1);
    assert_eq!(s.results[0].name, "Firefox");
}

#[test]
fn a_parsed_query_text_parses_to_itself() {
    for input in ["  fire #Web  fox #  #SYS ", "a\tb\nc", "#only #tags", ""] {
        let p = ParsedQuery::parse(input);
        let again = ParsedQuery::parse(&p.text);
        assert_eq!(again.text, p.text);
        assert!(again.tags.is_empty());
        assert!(p.tags.iter().all(|t| !t.is_empty()));
    }
    let p = ParsedQuery::parse("  fire #Web  fox #  #SYS ");
    assert_eq!(p.text, "fire fox");
    assert_eq!(p.tags, vec!["web".to_string(), "sys".to_string()]);
}
