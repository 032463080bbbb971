use luncher::clipboard::client::{expect_content, expect_history, expect_launcher_items, expect_pasted, expect_pong, Reply};
use luncher::clipboard::daemon::{bump_entry, content_reply, dispatch, merge_history, not_found_message, note_refresh, paste_reply, DaemonStep};
use luncher::clipboard::models::{ClipboardEntry, EntryKind, EntryMeta, LegacyClipboardEntryV1};
use luncher::clipboard::store::{evictions, take_recent, MAX_BYTES, MAX_ENTRIES};
use luncher::clipboard::watcher::{entry_from_contents, normalize_entry, parse_hex_pair, percent_decode, uri_list_filename};
use luncher::protocol::{decode_header, encode_frame, encode_header, DaemonRequest, DaemonResponse};

fn stored(id: u64, mime: &str, data: &[u8], kind: EntryKind, filename: Option<&str>) -> ClipboardEntry {
    ClipboardEntry {
        id,
        timestamp: id,
        mime_type: mime.to_string(),
        kind,
        data: data.to_vec(),
        thumb: vec![],
        hash: [0; 32],
        sensitive: kind == EntryKind::Sensitive,
        filename: filename.map(|s| s.to_string()),
    }
}

fn meta(id: u64, timestamp: u64) -> EntryMeta {
    EntryMeta {
        id,
        timestamp,
        mime_type: "text/plain".to_string(),
        kind: EntryKind::Text,
        data_len: 1,
        sensitive: false,
        preview: format!("entry {id}"),
        thumb: vec![],
        filename: None,
    }
}

#[test]
fn kinds_from_mime() {
    assert_eq!(EntryKind::from_mime("text/plain", false), EntryKind::Text);
    assert_eq!(EntryKind::from_mime("UTF8_STRING", false), EntryKind::Text);
    assert_eq!(EntryKind::from_mime("STRING", false), EntryKind::Text);
    assert_eq!(EntryKind::from_mime("TEXT", false), EntryKind::Text);
    assert_eq!(EntryKind::from_mime("image/png", false), EntryKind::Image);
    assert_eq!(EntryKind::from_mime("application/pdf", false), EntryKind::Binary);
    assert_eq!(EntryKind::from_mime("text/plain", true), EntryKind::Sensitive);
}

#[test]
fn new_entry_is_hashed_and_stamped() {
    let e = ClipboardEntry::with_filename("text/plain".to_string(), b"hi".to_vec(), false, vec![], None);
    assert_eq!(e.id, e.timestamp);
    assert_eq!(e.kind, EntryKind::Text);
    let mut h = blake3::Hasher::new();
    h.update(b"text/plain");
    h.update(b"hi");
    assert_eq!(e.hash, *h.finalize().as_bytes());
    let other = ClipboardEntry::with_filename("text/plain".to_string(), b"ho".to_vec(), false, vec![], None);
    assert_ne!(e.hash, other.hash);
}

#[test]
fn entry_stamped_at_a_given_time() {
    let e = ClipboardEntry::with_filename_at(1_700_000_000_000_000, "image/png".to_string(), b"px".to_vec(), false, vec![1], Some("a.png".to_string()));
    assert_eq!(e.id, 1_700_000_000_000_000);
    assert_eq!(e.timestamp, 1_700_000_000_000_000);
    assert_eq!(e.kind, EntryKind::Image);
    assert_eq!(e.filename, Some("a.png".to_string()));
    let same = ClipboardEntry::with_filename_at(5, "image/png".to_string(), b"px".to_vec(), true, vec![], None);
    assert_eq!(e.hash, same.hash);
}

#[test]
fn legacy_entries_are_upgraded() {
    let legacy = LegacyClipboardEntryV1 {
        id: 7,
        timestamp: 8,
        mime_type: "image/png".to_string(),
        data: vec![1, 2, 3],
        hash: [9; 32],
        sensitive: false,
    };
    let e = ClipboardEntry::from_legacy(legacy);
    assert_eq!(e.id, 7);
    assert_eq!(e.timestamp, 8);
    assert_eq!(e.kind, EntryKind::Image);
    assert!(e.thumb.is_empty());
    assert!(e.filename.is_none());
    assert_eq!(e.hash, [9; 32]);
}

#[test]
fn text_preview_flattens_and_cuts() {
    let e = stored(1, "text/plain", b"  hello \n  wide\tworld ", EntryKind::Text, None);
    assert_eq!(e.preview(120), "hello wide world");
    assert_eq!(e.preview(5), "hello\u{2026}");
    assert_eq!(e.full_content(), "  hello \n  wide\tworld ");
}

#[test]
fn previews_of_other_kinds() {
    let img = stored(1, "image/png", &[0u8; 2048], EntryKind::Image, None);
    assert_eq!(img.preview(120), "image/png \u{b7} 2 KB");
    let bin = stored(1, "application/pdf", &[0u8; 10], EntryKind::Binary, None);
    assert_eq!(bin.preview(120), "application/pdf \u{b7} 10 B");
    assert_eq!(bin.full_content(), "application/pdf \u{b7} 10 B");
    let secret = stored(1, "text/plain", b"pw", EntryKind::Sensitive, None);
    assert_eq!(secret.preview(120), "********");
    assert_eq!(secret.full_content(), "********");
}

#[test]
fn previews_of_copied_files() {
    let path = stored(1, "text/uri-list", b"file:///tmp/a.txt", EntryKind::Text, Some("a.txt"));
    assert_eq!(path.preview(120), "a.txt \u{b7} path");
    let text = stored(1, "text/plain", b"x", EntryKind::Text, Some("a.txt"));
    assert_eq!(text.preview(120), "a.txt \u{b7} text");
    let img = stored(1, "image/png", &[0u8; 4096], EntryKind::Image, Some("p.png"));
    assert_eq!(img.full_content(), "p.png \u{b7} 4 KB");
    let bin = stored(1, "application/zip", b"z", EntryKind::Binary, Some("z.zip"));
    assert_eq!(bin.preview(1), "z.zip \u{b7} application/zip");
}

#[test]
fn meta_of_an_entry() {
    let e = stored(3, "text/plain", b"abc", EntryKind::Text, None);
    let m = EntryMeta::from(&e);
    assert_eq!(m.id, 3);
    assert_eq!(m.data_len, 3);
    assert_eq!(m.preview, "abc");
}

#[test]
fn percent_decoding() {
    assert_eq!(percent_decode("/tmp/a%20b.txt"), "/tmp/a b.txt");
    assert_eq!(percent_decode("%e2%82%ac"), "\u{20ac}");
    assert_eq!(percent_decode("100%"), "100%");
    assert_eq!(percent_decode("%zz1"), "%zz1");
    assert_eq!(percent_decode("%+5x"), "\u{5}x");
    assert_eq!(parse_hex_pair('4', '1'), Some(0x41));
    assert_eq!(parse_hex_pair('+', 'f'), Some(15));
    assert_eq!(parse_hex_pair('g', '1'), None);
}

#[test]
fn uri_list_file_names() {
    assert_eq!(uri_list_filename(b"# comment\r\nfile:///home/u/My%20File.png\r\n"), Some("My File.png".to_string()));
    assert_eq!(uri_list_filename(b"file://relative%20name"), Some("relative%20name".to_string()));
    assert_eq!(uri_list_filename(b"https://example.com/x"), None);
    assert_eq!(uri_list_filename(b"file:///"), None);
}

#[test]
fn uri_list_file_names_follow_path_components() {
    assert_eq!(uri_list_filename(b"file:///home/u/dir/"), Some("dir".to_string()));
    assert_eq!(uri_list_filename(b"file:///home/u/dir/."), Some("dir".to_string()));
    assert_eq!(uri_list_filename(b"file:///home/u//x.txt"), Some("x.txt".to_string()));
    assert_eq!(uri_list_filename(b"file:///home/u/.."), None);
    assert_eq!(uri_list_filename(b"file:///."), None);
}

#[test]
fn normalizing_copied_paths() {
    let (mime, data, name) = normalize_entry("text/plain".to_string(), b"/home/u/notes.md".to_vec());
    assert_eq!(mime, "text/uri-list");
    assert_eq!(data, b"file:///home/u/notes.md".to_vec());
    assert_eq!(name, Some("notes.md".to_string()));

    let (mime, data, name) = normalize_entry("x-special/gnome-copied-files".to_string(), b"copy\nfile:///a/b.txt".to_vec());
    assert_eq!(mime, "text/uri-list");
    assert_eq!(data, b"copy\nfile:///a/b.txt".to_vec());
    assert_eq!(name, Some("b.txt".to_string()));

    let (mime, data, name) = normalize_entry("text/plain".to_string(), b"just text".to_vec());
    assert_eq!(mime, "text/plain");
    assert_eq!(data, b"just text".to_vec());
    assert_eq!(name, None);

    let (mime, _, name) = normalize_entry("text/uri-list".to_string(), b"no uri here".to_vec());
    assert_eq!(mime, "text/uri-list");
    assert_eq!(name, None);

    let (mime, data, name) = normalize_entry("application/x-kde-uri-list".to_string(), b"https://example.com/f.txt".to_vec());
    assert_eq!(mime, "text/uri-list");
    assert_eq!(data, b"https://example.com/f.txt".to_vec());
    assert_eq!(name, None);
}

#[test]
fn contents_become_entries() {
    assert!(entry_from_contents("text/plain".to_string(), vec![0, 0]).is_none());
    assert!(entry_from_contents("text/plain".to_string(), vec![]).is_none());
    let e = entry_from_contents("text/plain".to_string(), b"hey\0\0".to_vec()).unwrap();
    assert_eq!(e.data, b"hey".to_vec());
    assert_eq!(e.kind, EntryKind::Text);
    assert!(!e.sensitive);
    let s = entry_from_contents("x-kde-passwordManagerHint".to_string(), b"secret".to_vec()).unwrap();
    assert!(s.sensitive);
    assert_eq!(s.kind, EntryKind::Sensitive);
}

#[test]
fn store_caps() {
    assert_eq!(MAX_ENTRIES, 1000);
    assert_eq!(MAX_BYTES, 64 * 1024 * 1024);
    let small: Vec<(u64, u64)> = (1..=10).map(|i| (i, 100)).collect();
    assert!(evictions(&small).is_empty());
    let many: Vec<(u64, u64)> = (1..=1003).map(|i| (i, 1)).collect();
    assert_eq!(evictions(&many), vec![1, 2, 3]);
    let big = vec![(1, 40 * 1024 * 1024), (2, 30 * 1024 * 1024), (3, 10)];
    assert_eq!(evictions(&big), vec![1]);
    let huge = vec![(1, 10), (2, 70 * 1024 * 1024)];
    assert_eq!(evictions(&huge), vec![1, 2]);
}

#[test]
fn listing_skips_bad_rows_and_never_passes_the_limit() {
    let rows = vec![
        Some(stored(5, "text/plain", b"e", EntryKind::Text, None)),
        None,
        Some(stored(4, "text/plain", b"d", EntryKind::Text, None)),
        Some(stored(3, "text/plain", b"c", EntryKind::Text, None)),
    ];
    let got = take_recent(rows, 2);
    let ids: Vec<u64> = got.iter().map(|e| e.id).collect();
    assert_eq!(ids, vec![5, 4]);
    let rows = vec![Some(stored(2, "text/plain", b"b", EntryKind::Text, None)), Some(stored(1, "text/plain", b"a", EntryKind::Text, None))];
    assert!(take_recent(rows, 0).is_empty());
    let rows = vec![None, Some(stored(2, "text/plain", b"b", EntryKind::Text, None))];
    assert!(take_recent(rows, 0).is_empty());
}

#[test]
fn history_is_newest_first_deduplicated_and_limited() {
    let entries = vec![meta(1, 10), meta(2, 20), meta(3, 30)];
    let bumped = vec![meta(1, 50)];
    let h = merge_history(entries, bumped, 10);
    let got: Vec<(u64, u64)> = h.iter().map(|m| (m.id, m.timestamp)).collect();
    assert_eq!(got, vec![(1, 50), (3, 30), (2, 20)]);
    let h = merge_history(vec![meta(1, 10), meta(2, 20), meta(3, 30)], vec![], 2);
    let got: Vec<u64> = h.iter().map(|m| m.id).collect();
    assert_eq!(got, vec![3, 2]);
    assert!(merge_history(vec![meta(1, 1)], vec![], 0).is_empty());
}

#[test]
fn bumping_moves_an_entry_to_the_front() {
    let entries = vec![meta(1, 10), meta(2, 20)];
    let mut bumped = vec![meta(3, 5)];
    let r = bump_entry(&mut bumped, &entries, 1, 99);
    assert!(matches!(r, DaemonResponse::ClipboardBumped));
    let got: Vec<(u64, u64)> = bumped.iter().map(|m| (m.id, m.timestamp)).collect();
    assert_eq!(got, vec![(1, 99), (3, 5)]);
    let r = bump_entry(&mut bumped, &entries, 3, 100);
    assert!(matches!(r, DaemonResponse::ClipboardBumped));
    let got: Vec<(u64, u64)> = bumped.iter().map(|m| (m.id, m.timestamp)).collect();
    assert_eq!(got, vec![(3, 100), (1, 99)]);
    let r = bump_entry(&mut bumped, &entries, 42, 101);
    match r {
        DaemonResponse::Error(m) => assert_eq!(m, "entry 42 not found"),
        other => panic!("unexpected {other:?}"),
    }
    assert_eq!(bumped.len(), 2);
}

#[test]
fn dispatch_answers_requests() {
    let entries = vec![meta(1, 10), meta(2, 20)];
    let mut bumped = vec![];
    let launcher = vec![];
    assert!(matches!(dispatch(DaemonRequest::Ping, &entries, &mut bumped, &launcher), DaemonStep::Reply(DaemonResponse::Pong)));
    match dispatch(DaemonRequest::GetClipboardHistory { limit: 1 }, &entries, &mut bumped, &launcher) {
        DaemonStep::Reply(DaemonResponse::ClipboardHistory(h)) => {
            assert_eq!(h.len(), 1);
            assert_eq!(h[0].id, 2);
        }
        other => panic!("unexpected {other:?}"),
    }
    assert!(matches!(dispatch(DaemonRequest::PasteClipboard { id: 4 }, &entries, &mut bumped, &launcher), DaemonStep::Paste { id: 4 }));
    assert!(matches!(dispatch(DaemonRequest::GetClipboardContent { id: 5 }, &entries, &mut bumped, &launcher), DaemonStep::Content { id: 5 }));
    assert!(matches!(dispatch(DaemonRequest::GetLauncherItems, &entries, &mut bumped, &launcher), DaemonStep::Reply(DaemonResponse::LauncherItems(v)) if v.is_empty()));
}

#[test]
fn content_and_paste_replies() {
    assert_eq!(not_found_message(7), "entry 7 not found");
    let e = stored(1, "text/plain", b"full text", EntryKind::Text, None);
    assert!(matches!(content_reply(Ok(Some(e)), 1), DaemonResponse::ClipboardContent(c) if c == "full text"));
    assert!(matches!(content_reply(Ok(None), 9), DaemonResponse::Error(m) if m == "entry 9 not found"));
    assert!(matches!(content_reply(Err("db".to_string()), 9), DaemonResponse::Error(m) if m == "db"));
    assert!(matches!(paste_reply(Ok(())), DaemonResponse::ClipboardPasted));
    assert!(matches!(paste_reply(Err("no seat".to_string())), DaemonResponse::Error(m) if m == "no seat"));
}

#[test]
fn client_reply_checks() {
    assert!(matches!(expect_pong(DaemonResponse::Pong), Reply::Value(())));
    assert!(matches!(expect_pong(DaemonResponse::Error("x".to_string())), Reply::Failed(m) if m == "x"));
    assert!(matches!(expect_pong(DaemonResponse::ClipboardPasted), Reply::Unexpected(DaemonResponse::ClipboardPasted)));
    assert!(matches!(expect_history(DaemonResponse::ClipboardHistory(vec![meta(1, 1)])), Reply::Value(v) if v.len() == 1));
    assert!(matches!(expect_pasted(DaemonResponse::ClipboardPasted), Reply::Value(())));
    assert!(matches!(expect_content(DaemonResponse::ClipboardContent("c".to_string())), Reply::Value(c) if c == "c"));
    assert!(matches!(expect_launcher_items(DaemonResponse::Pong), Reply::Unexpected(DaemonResponse::Pong)));
}

#[test]
fn frames_carry_little_endian_lengths() {
    assert_eq!(encode_header(0x01020304), [4, 3, 2, 1]);
    assert_eq!(decode_header([4, 3, 2, 1]), 0x01020304);
    for n in [0usize, 1, 255, 256, 65535, 1 << 24, u32::MAX as usize] {
        assert_eq!(decode_header(encode_header(n)), n);
    }
    let f = encode_frame(&vec![9, 8, 7]);
    assert_eq!(f, vec![3, 0, 0, 0, 9, 8, 7]);
}

#[test]
fn refresh_errors_are_reported_once() {
    let mut last = None;
    assert_eq!(note_refresh(&mut last, Err("db locked".to_string())), Some("db locked".to_string()));
    assert_eq!(note_refresh(&mut last, Err("db locked".to_string())), None);
    assert_eq!(note_refresh(&mut last, Err("gone".to_string())), Some("gone".to_string()));
    assert_eq!(note_refresh(&mut last, Ok(())), None);
    assert!(last.is_none());
    assert_eq!(note_refresh(&mut last, Err("gone".to_string())), Some("gone".to_string()));
}

#[test]
fn a_freshly_bumped_entry_comes_first() {
    let entries = vec![meta(1, 10), meta(2, 20), meta(3, 30)];
    let mut bumped = vec![];
    assert!(matches!(bump_entry(&mut bumped, &entries, 1, 99), DaemonResponse::ClipboardBumped));
    let h = merge_history(entries, bumped, 2);
    assert_eq!(h.len(), 2);
    assert_eq!((h[0].id, h[0].timestamp), (1, 99));
    assert_eq!(h[1].id, 3);
}

#[test]
fn paths_without_percent_signs_decode_to_themselves() {
    for p in ["/home/ü/notes.md", "/tmp/a b", "", "plain"] {
        assert_eq!(percent_decode(p), p);
    }
}
