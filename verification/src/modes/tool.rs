//! Tool mode: every entry as a `(name, command, hashtag)` row, for JSON output.
use crate::config::{pairs_view, script_table, table_pairs, EntryView, Scripts};
use crate::modes::fetch::{entry_row, item_rows, row_views, rows_of, FetchOutput, FetchRow};
use crate::search::{item_views, LauncherItem};
use crate::text::join_strings;
use vstd::prelude::*;

verus! {

/// The rows of tool mode: every script under its key, in file order, and every
/// application under its name, in the given order.
pub fn run_json(scripts: Scripts, launcher_items: &Vec<LauncherItem>) -> (r: FetchOutput)
    ensures
        row_views(r.script@) == script_table(scripts.entries).map_values(
            |p: (Seq<char>, EntryView)| entry_row(p.0, p.1),
        ),
        row_views(r.launcher@) == item_rows(item_views(launcher_items@)),
{
    let pairs = table_pairs(scripts.entries);
    let ghost pv = pairs_view(pairs@);
    let mut script: Vec<FetchRow> = Vec::new();
    for i in 0..pairs.len()
        invariant
            pv == pairs_view(pairs@),
            row_views(script@) == pv.take(i as int).map_values(|p: (Seq<char>, EntryView)| entry_row(p.0, p.1)),
    {
        let (name, entry) = (&pairs[i].0, &pairs[i].1);
        let ghost prev = script@;
        script.push(FetchRow { name: name.clone(), command: entry.command.clone(), hashtag: join_strings(&entry.tag, " ") });
        proof {
            assert(pv[i as int] == (pairs@[i as int].0@, pairs@[i as int].1@));
            assert(row_views(script@) =~= row_views(prev).push(entry_row(pv[i as int].0, pv[i as int].1)));
            assert(pv.take(i + 1).map_values(|p: (Seq<char>, EntryView)| entry_row(p.0, p.1)) =~= pv.take(
                i as int,
            ).map_values(|p: (Seq<char>, EntryView)| entry_row(p.0, p.1)).push(entry_row(pv[i as int].0, pv[i as int].1)));
        }
    }
    proof {
        assert(pv.take(pairs.len() as int) =~= pv);
    }
    FetchOutput { script, launcher: rows_of(launcher_items) }
}

} // verus!
