//! Clipboard mode: history entries shown as launcher rows whose command is the
//! entry's id.
use crate::clipboard::models::{meta_views, ClipboardEntry, EntryKind, EntryMeta, EntryMetaView};
use crate::config::{Entry, EntryView};
use crate::search::{item_views, LauncherItem, LauncherItemView};
use crate::text::{ascii_lower, ascii_lower_chars, chars_of, decimal, decimal_u64, eq_chars, string_from};
use vstd::prelude::*;

verus! {

/// The part of `s` after the last `c` (all of `s` when there is none), what
/// `rsplit(c).next()` yields.
pub open spec fn after_last(s: Seq<char>, c: char) -> Seq<char>
    decreases s.len(),
{
    if s.len() == 0 {
        s
    } else if s.last() == c {
        seq![]
    } else {
        after_last(s.drop_last(), c).push(s.last())
    }
}

/// File extensions shown as images.
pub open spec fn is_image_ext(e: Seq<char>) -> bool {
    e == "png"@ || e == "jpg"@ || e == "jpeg"@ || e == "webp"@ || e == "gif"@ || e == "bmp"@ || e
        == "svg"@
}

/// File extensions shown as text.
pub open spec fn is_text_ext(e: Seq<char>) -> bool {
    e == "txt"@ || e == "md"@ || e == "json"@ || e == "toml"@ || e == "yaml"@ || e == "yml"@ || e
        == "rs"@ || e == "c"@ || e == "h"@ || e == "cpp"@ || e == "py"@ || e == "js"@ || e == "ts"@
}

/// How an entry is shown: a copied file by its extension (image, text, or else
/// binary), anything else by its own kind.
pub open spec fn shown_kind(e: EntryMetaView) -> EntryKind {
    if e.mime_type == "text/uri-list"@ {
        match e.filename {
            Some(name) => {
                let ext = ascii_lower(after_last(name, '.'));
                if is_image_ext(ext) {
                    EntryKind::Image
                } else if is_text_ext(ext) {
                    EntryKind::Text
                } else {
                    EntryKind::Binary
                }
            },
            None => EntryKind::Binary,
        }
    } else {
        e.kind
    }
}

/// The part of `s` after the last `c`.
pub fn after_last_exec(s: &Vec<char>, c: char) -> (r: Vec<char>)
    ensures
        r@ == after_last(s@, c),
{
    let mut j = s.len();
    proof {
        assert(s@.take(j as int) =~= s@);
        assert(after_last(s@, c) + s@.skip(j as int) =~= after_last(s@, c));
    }
    while j > 0 && s[j - 1] != c
        invariant
            j <= s.len(),
            after_last(s@, c) == after_last(s@.take(j as int), c) + s@.skip(j as int),
        decreases j,
    {
        proof {
            let t = s@.take(j as int);
            assert(t.drop_last() =~= s@.take(j - 1));
            assert(t.last() == s@[j - 1]);
            assert(s@.skip(j - 1) =~= seq![s@[j - 1]] + s@.skip(j as int));
            assert(after_last(t, c) =~= after_last(s@.take(j - 1), c).push(s@[j - 1]));
            assert(after_last(s@.take(j - 1), c).push(s@[j - 1]) + s@.skip(j as int) =~= after_last(
                s@.take(j - 1),
                c,
            ) + s@.skip(j - 1));
        }
        j -= 1;
    }
    proof {
        if j > 0 {
            assert(s@.take(j as int).last() == c);
        } else {
            assert(s@.take(0).len() == 0);
        }
        assert(after_last(s@.take(j as int), c) =~= seq![]);
        assert(seq![] + s@.skip(j as int) =~= s@.subrange(j as int, s.len() as int));
    }
    crate::text::slice_chars(s, j, s.len())
}

fn in_list(e: &Vec<char>, list: &[&str]) -> (b: bool)
    ensures
        b == exists|i: int| 0 <= i < list@.len() && e@ == list@[i]@,
{
    for i in 0..list.len()
        invariant
            forall|k: int| 0 <= k < i ==> e@ != list@[k]@,
    {
        if eq_chars(e, &chars_of(list[i])) {
            return true;
        }
    }
    false
}

/// How an entry is shown.
pub fn display_kind(entry: &EntryMeta) -> (k: EntryKind)
    ensures
        k == shown_kind(entry@),
{
    if eq_chars(&chars_of(entry.mime_type.as_str()), &chars_of("text/uri-list")) {
        if let Some(name) = &entry.filename {
            let ext = ascii_lower_chars(&after_last_exec(&chars_of(name.as_str()), '.'));
            let images: [&str; 7] = ["png", "jpg", "jpeg", "webp", "gif", "bmp", "svg"];
            let texts: [&str; 13] = ["txt", "md", "json", "toml", "yaml", "yml", "rs", "c", "h", "cpp", "py", "js", "ts"];
            let is_image = in_list(&ext, &images);
            proof {
                assert(is_image == is_image_ext(ext@)) by {
                    if is_image_ext(ext@) {
                        if ext@ == "png"@ { assert(images@[0]@ == "png"@); }
                        else if ext@ == "jpg"@ { assert(images@[1]@ == "jpg"@); }
                        else if ext@ == "jpeg"@ { assert(images@[2]@ == "jpeg"@); }
                        else if ext@ == "webp"@ { assert(images@[3]@ == "webp"@); }
                        else if ext@ == "gif"@ { assert(images@[4]@ == "gif"@); }
                        else if ext@ == "bmp"@ { assert(images@[5]@ == "bmp"@); }
                        else { assert(images@[6]@ == "svg"@); }
                    }
                    if is_image {
                        let i = choose|i: int| 0 <= i < images@.len() && ext@ == images@[i]@;
                        assert(0 <= i < 7);
                    }
                }
            }
            if is_image {
                return EntryKind::Image;
            }
            let is_text = in_list(&ext, &texts);
            proof {
                assert(is_text == is_text_ext(ext@)) by {
                    if is_text_ext(ext@) {
                        if ext@ == "txt"@ { assert(texts@[0]@ == "txt"@); }
                        else if ext@ == "md"@ { assert(texts@[1]@ == "md"@); }
                        else if ext@ == "json"@ { assert(texts@[2]@ == "json"@); }
                        else if ext@ == "toml"@ { assert(texts@[3]@ == "toml"@); }
                        else if ext@ == "yaml"@ { assert(texts@[4]@ == "yaml"@); }
                        else if ext@ == "yml"@ { assert(texts@[5]@ == "yml"@); }
                        else if ext@ == "rs"@ { assert(texts@[6]@ == "rs"@); }
                        else if ext@ == "c"@ { assert(texts@[7]@ == "c"@); }
                        else if ext@ == "h"@ { assert(texts@[8]@ == "h"@); }
                        else if ext@ == "cpp"@ { assert(texts@[9]@ == "cpp"@); }
                        else if ext@ == "py"@ { assert(texts@[10]@ == "py"@); }
                        else if ext@ == "js"@ { assert(texts@[11]@ == "js"@); }
                        else { assert(texts@[12]@ == "ts"@); }
                    }
                    if is_text {
                        let i = choose|i: int| 0 <= i < texts@.len() && ext@ == texts@[i]@;
                        assert(0 <= i < 13);
                    }
                }
            }
            if is_text {
                return EntryKind::Text;
            }
        }
        return EntryKind::Binary;
    }
    entry.kind
}

/// The row shown for a history entry: its preview (masked when sensitive), tagged
/// with how it is shown, running the entry's id.
pub open spec fn entry_row(e: EntryMetaView) -> LauncherItemView {
    let k = shown_kind(e);
    let label = if k == EntryKind::Sensitive {
        masked()
    } else {
        e.preview
    };
    let tag = match k {
        EntryKind::Text => "text"@,
        EntryKind::Image => "image"@,
        EntryKind::Sensitive => "sensitive"@,
        EntryKind::Binary => "binary"@,
    };
    LauncherItemView {
        name: label,
        entry: EntryView { name: label, command: decimal(e.id as nat), tag: seq![tag], inline_meta: None },
    }
}

/// The label a sensitive entry is shown under: bullets.
pub open spec fn masked() -> Seq<char> {
    "\u{2022}\u{2022}\u{2022}\u{2022}\u{2022}\u{2022}\u{2022}\u{2022}"@
}

/// A sensitive clipboard entry never shows its content: the row for its metadata
/// (whose preview is the entry's preview) is labelled with bullets or with the
/// masked preview.
pub proof fn lemma_sensitive_rows_masked(c: ClipboardEntry, m: EntryMetaView, max_chars: nat)
    requires
        c.kind == EntryKind::Sensitive,
        m.preview == c.preview_spec(max_chars),
    ensures
        entry_row(m).name == masked() || entry_row(m).name == "********"@,
        entry_row(m).entry.name == entry_row(m).name,
{
}

/// The rows for history entries, in order.
pub fn entries_to_items(entries: Vec<EntryMeta>) -> (items: Vec<LauncherItem>)
    ensures
        item_views(items@) == meta_views(entries@).map_values(|e: EntryMetaView| entry_row(e)),
{
    let ghost ev = meta_views(entries@);
    let mut items: Vec<LauncherItem> = Vec::new();
    for entry in it: entries
        invariant
            ev == meta_views(it.seq()),
            item_views(items@) == ev.take(it.index() as int).map_values(|e: EntryMetaView| entry_row(e)),
    {
        let ghost i = it.index() as int;
        let kind = display_kind(&entry);
        let (preview, tag) = match kind {
            EntryKind::Text => (entry.preview.clone(), String::from_str("text")),
            EntryKind::Image => (entry.preview.clone(), String::from_str("image")),
            EntryKind::Sensitive => (
                String::from_str("\u{2022}\u{2022}\u{2022}\u{2022}\u{2022}\u{2022}\u{2022}\u{2022}"),
                String::from_str("sensitive"),
            ),
            EntryKind::Binary => (entry.preview.clone(), String::from_str("binary")),
        };
        let mut tags: Vec<String> = Vec::new();
        tags.push(tag);
        let item = LauncherItem {
            name: preview.clone(),
            entry: Entry {
                name: preview,
                command: string_from(&decimal_u64(entry.id)),
                tag: tags,
                inline_meta: None,
            },
        };
        let ghost prev = items@;
        items.push(item);
        proof {
            assert(ev[i] == entry@);
            assert(crate::text::string_views(tags@) =~= seq![tag@]);
            assert(item_views(items@) =~= item_views(prev).push(entry_row(ev[i])));
            assert(ev.take(i + 1).map_values(|e: EntryMetaView| entry_row(e)) =~= ev.take(i).map_values(
                |e: EntryMetaView| entry_row(e),
            ).push(entry_row(ev[i])));
        }
    }
    proof {
        assert(ev.take(ev.len() as int) =~= ev);
    }
    items
}

} // verus!
