//! Script mode: the configured scripts, or lines piped on standard input.
use crate::clipboard::watcher::shift;
use crate::config::{pairs_view, script_table, table_pairs, Entry, EntryView, Scripts};
use crate::search::{display_name, item_views, LauncherItem, LauncherItemView};
use crate::text::{chars_of, slice_chars, string_from, string_views, trim, trim_chars};
use vstd::prelude::*;

verus! {

/// The items shown for a script table: one per script, in file order, named by
/// the script's own name or else its key.
pub open spec fn script_items(t: Seq<(Seq<char>, EntryView)>) -> Seq<LauncherItemView> {
    t.map_values(|p: (Seq<char>, EntryView)| LauncherItemView { name: display_name(p.0, p.1), entry: p.1 })
}

/// The items of script mode.
pub fn run(scripts: Scripts) -> (items: Vec<LauncherItem>)
    ensures
        item_views(items@) == script_items(script_table(scripts.entries)),
{
    let pairs = table_pairs(scripts.entries);
    let ghost pv = pairs_view(pairs@);
    let mut items: Vec<LauncherItem> = Vec::new();
    for p in it: pairs
        invariant
            pv == pairs_view(it.seq()),
            item_views(items@) == script_items(pv.take(it.index() as int)),
    {
        let ghost i = it.index();
        let (name, entry) = p;
        let ghost prev = items@;
        items.push(LauncherItem::new(name, entry));
        proof {
            assert(pv.take(i + 1) =~= pv.take(i as int).push(pv[i as int]));
            assert(item_views(items@) =~= item_views(prev).push(items@[i as int]@));
            assert(script_items(pv.take(i + 1)) =~= script_items(pv.take(i as int)).push(
                script_items(pv)[i as int],
            ));
        }
    }
    proof {
        assert(pv.take(pv.len() as int) =~= pv);
    }
    items
}

/// The index of the first `c` in `s`.
pub open spec fn first_index(s: Seq<char>, c: char) -> Option<int>
    decreases s.len(),
{
    if s.len() == 0 {
        None
    } else if s[0] == c {
        Some(0)
    } else {
        shift(first_index(s.drop_first(), c), 1)
    }
}

/// The part of a line after its first tab, or the whole line when it has none.
pub open spec fn after_tab(line: Seq<char>) -> Seq<char> {
    match first_index(line, '\t') {
        Some(i) => line.skip(i + 1),
        None => line,
    }
}

/// The entry for a piped line: the line is its name and its command.
pub open spec fn line_entry(line: Seq<char>) -> EntryView {
    EntryView { name: line, command: line, tag: seq![], inline_meta: None }
}

/// The row for a piped line.
pub open spec fn line_row(line: Seq<char>) -> LauncherItemView {
    LauncherItemView { name: display_name(after_tab(line), line_entry(line)), entry: line_entry(line) }
}

/// The rows for piped lines: one per line that is not blank, in order.
pub open spec fn line_rows(lines: Seq<Seq<char>>) -> Seq<LauncherItemView>
    decreases lines.len(),
{
    if lines.len() == 0 {
        seq![]
    } else if trim(lines.last()).len() == 0 {
        line_rows(lines.drop_last())
    } else {
        line_rows(lines.drop_last()).push(line_row(lines.last()))
    }
}

/// The part of a line after its first tab (see `after_tab`).
fn display_part(line: &Vec<char>) -> (r: Vec<char>)
    ensures
        r@ == after_tab(line@),
{
    let mut i: usize = 0;
    proof {
        assert(line@.skip(0) =~= line@);
        assert(shift(first_index(line@, '\t'), 0) == first_index(line@, '\t'));
    }
    while i < line.len()
        invariant
            i <= line.len(),
            first_index(line@, '\t') == shift(first_index(line@.skip(i as int), '\t'), i as int),
        decreases line.len() - i,
    {
        proof {
            assert(line@.skip(i as int)[0] == line@[i as int]);
            assert(line@.skip(i as int).drop_first() =~= line@.skip(i + 1));
        }
        if line[i] == '\t' {
            proof {
                assert(first_index(line@, '\t') == Some(i as int));
                assert(line@.skip(i + 1) =~= line@.subrange(i + 1, line.len() as int));
            }
            return slice_chars(line, i + 1, line.len());
        }
        proof {
            let x = first_index(line@.skip(i + 1), '\t');
            assert(shift(shift(x, 1), i as int) == shift(x, i + 1));
        }
        i += 1;
    }
    proof {
        assert(line@.skip(line.len() as int).len() == 0);
    }
    crate::text::copy_chars(line)
}

/// The rows for lines piped on standard input (see `line_rows`).
pub fn items_from_lines(lines: Vec<String>) -> (items: Vec<LauncherItem>)
    ensures
        item_views(items@) == line_rows(string_views(lines@)),
{
    let ghost lv = string_views(lines@);
    let mut items: Vec<LauncherItem> = Vec::new();
    for i in 0..lines.len()
        invariant
            lv == string_views(lines@),
            item_views(items@) == line_rows(lv.take(i as int)),
    {
        proof {
            assert(lv.take(i + 1).drop_last() =~= lv.take(i as int));
            assert(lv.take(i + 1).last() == lines@[i as int]@);
        }
        let chars = chars_of(lines[i].as_str());
        let t = trim_chars(&chars);
        if t.len() > 0 {
            let display = string_from(&display_part(&chars));
            let line = lines[i].clone();
            let entry = Entry { name: line.clone(), command: line, tag: Vec::new(), inline_meta: None };
            proof {
                assert(entry@.tag =~= Seq::<Seq<char>>::empty());
            }
            let ghost prev = items@;
            items.push(LauncherItem::new(display, entry));
            proof {
                assert(item_views(items@) =~= item_views(prev).push(line_row(lines@[i as int]@)));
            }
        }
    }
    proof {
        assert(lv.take(lines.len() as int) =~= lv);
    }
    items
}

/// The items of dmenu mode: the rows for the piped lines, none when nothing was
/// piped.
pub fn run_dmenu(lines: Option<Vec<String>>) -> (items: Vec<LauncherItem>)
    ensures
        match lines {
            Some(ls) => item_views(items@) == line_rows(string_views(ls@)),
            None => items@.len() == 0,
        },
{
    match lines {
        Some(ls) => items_from_lines(ls),
        None => Vec::new(),
    }
}

} // verus!
