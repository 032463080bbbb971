//! Fetch mode: the entries that match a search pattern, as
//! `(name, command, hashtag)` rows for JSON output.
use crate::config::{script_table, EntryView, Scripts};
use crate::modes::script::script_items;
use crate::search::{item_views, matched_outcome, same_item, FuzzySearch, LauncherItem, LauncherItemView, tag_tokens, text_tokens};
use crate::text::{join, join_strings, words};
use vstd::prelude::*;

verus! {

/// One output row: a name, its command and its tags joined by spaces.
#[derive(Debug)]
pub struct FetchRow {
    pub name: String,
    pub command: String,
    pub hashtag: String,
}

impl View for FetchRow {
    type V = (Seq<char>, Seq<char>, Seq<char>);

    open spec fn view(&self) -> (Seq<char>, Seq<char>, Seq<char>) {
        (self.name@, self.command@, self.hashtag@)
    }
}

/// The two groups of rows, in the order they are to be written.
#[derive(Debug)]
pub struct FetchOutput {
    pub script: Vec<FetchRow>,
    pub launcher: Vec<FetchRow>,
}

/// The views of a sequence of rows.
pub open spec fn row_views(v: Seq<FetchRow>) -> Seq<(Seq<char>, Seq<char>, Seq<char>)> {
    v.map_values(|r: FetchRow| r@)
}

/// The row for an entry shown under `name`.
pub open spec fn entry_row(name: Seq<char>, e: EntryView) -> (Seq<char>, Seq<char>, Seq<char>) {
    (name, e.command, join(e.tag, " "@))
}

/// The rows for items, in order.
pub open spec fn item_rows(items: Seq<LauncherItemView>) -> Seq<(Seq<char>, Seq<char>, Seq<char>)> {
    items.map_values(|it: LauncherItemView| entry_row(it.name, it.entry))
}

/// The results that are (`inside`) or are not (`!inside`) among `origin`, in
/// result order.
pub open spec fn from_group(res: Seq<LauncherItemView>, origin: Seq<LauncherItemView>, inside: bool) -> Seq<LauncherItemView>
    decreases res.len(),
{
    if res.len() == 0 {
        seq![]
    } else if origin.contains(res.last()) == inside {
        from_group(res.drop_last(), origin, inside).push(res.last())
    } else {
        from_group(res.drop_last(), origin, inside)
    }
}

/// Whether `it` is one of `list`.
fn is_one_of(it: &LauncherItem, list: &Vec<LauncherItem>) -> (b: bool)
    ensures
        b == item_views(list@).contains(it@),
{
    for k in 0..list.len()
        invariant
            forall|q: int| 0 <= q < k ==> list@[q]@ != it@,
    {
        if same_item(&list[k], it) {
            proof {
                assert(item_views(list@)[k as int] == it@);
            }
            return true;
        }
    }
    proof {
        if item_views(list@).contains(it@) {
            let q = choose|q: int| 0 <= q < item_views(list@).len() && item_views(list@)[q] == it@;
            assert(list@[q]@ == it@);
        }
    }
    false
}

/// The row for an item.
fn item_row(it: &LauncherItem) -> (r: FetchRow)
    ensures
        r@ == entry_row(it@.name, it@.entry),
{
    FetchRow { name: it.name.clone(), command: it.entry.command.clone(), hashtag: join_strings(&it.entry.tag, " ") }
}

/// The rows for items, in order.
pub fn rows_of(items: &Vec<LauncherItem>) -> (r: Vec<FetchRow>)
    ensures
        row_views(r@) == item_rows(item_views(items@)),
{
    let mut out: Vec<FetchRow> = Vec::new();
    for i in 0..items.len()
        invariant
            row_views(out@) == item_rows(item_views(items@.take(i as int))),
    {
        let ghost prev = out@;
        out.push(item_row(&items[i]));
        proof {
            assert(row_views(out@) =~= row_views(prev).push(entry_row(items@[i as int]@.name, items@[i as int]@.entry)));
            assert(item_views(items@.take(i + 1)) =~= item_views(items@.take(i as int)).push(items@[i as int]@));
        }
    }
    proof {
        assert(items@.take(items.len() as int) =~= items@);
    }
    out
}

/// Splits search results by where they came from: results that are among the
/// `scripts` become script rows, the others (applications) launcher rows, each
/// group in result order.
pub fn split_results(results: &Vec<LauncherItem>, scripts: &Vec<LauncherItem>) -> (r: FetchOutput)
    ensures
        row_views(r.script@) == item_rows(from_group(item_views(results@), item_views(scripts@), true)),
        row_views(r.launcher@) == item_rows(from_group(item_views(results@), item_views(scripts@), false)),
{
    let ghost sv = item_views(scripts@);
    let mut script: Vec<FetchRow> = Vec::new();
    let mut launcher: Vec<FetchRow> = Vec::new();
    for i in 0..results.len()
        invariant
            sv == item_views(scripts@),
            row_views(script@) == item_rows(from_group(item_views(results@.take(i as int)), sv, true)),
            row_views(launcher@) == item_rows(from_group(item_views(results@.take(i as int)), sv, false)),
    {
        let ghost rv = item_views(results@.take(i + 1));
        proof {
            assert(rv.drop_last() =~= item_views(results@.take(i as int)));
            assert(rv.last() == results@[i as int]@);
        }
        let it = &results[i];
        if is_one_of(it, scripts) {
            let ghost prev = script@;
            script.push(item_row(it));
            proof {
                assert(row_views(script@) =~= row_views(prev).push(entry_row(it@.name, it@.entry)));
                assert(item_rows(from_group(rv, sv, true)) =~= item_rows(from_group(rv.drop_last(), sv, true)).push(
                    entry_row(it@.name, it@.entry),
                ));
            }
        } else {
            let ghost prev = launcher@;
            launcher.push(item_row(it));
            proof {
                assert(row_views(launcher@) =~= row_views(prev).push(entry_row(it@.name, it@.entry)));
                assert(item_rows(from_group(rv, sv, false)) =~= item_rows(from_group(rv.drop_last(), sv, false)).push(
                    entry_row(it@.name, it@.entry),
                ));
            }
        }
    }
    proof {
        assert(results@.take(results.len() as int) =~= results@);
    }
    FetchOutput { script, launcher }
}

/// The query text and tags that a search pattern stands for.
pub open spec fn pattern_query(pattern: Seq<char>) -> (Seq<char>, Seq<Seq<char>>) {
    (join(text_tokens(words(pattern)), seq![' ']), tag_tokens(words(pattern)))
}

/// What a search over `items` returns for `pattern` (see `matched_outcome`).
pub open spec fn search_outcome(
    res: Seq<LauncherItemView>,
    items: Seq<LauncherItemView>,
    pattern: Seq<char>,
    case_sensitive: bool,
) -> bool {
    matched_outcome(res, items, pattern_query(pattern).0, pattern_query(pattern).1, case_sensitive)
}

/// Whether `script` and `launcher` are the rows of fetch mode when the search
/// returned `res`: with `only_script` the scripts are searched and all results
/// are script rows; else with `only_launcher` the applications are searched and
/// all results are launcher rows; else both are searched together (scripts
/// first) and each result is a script row when it is one of the scripts, a
/// launcher row otherwise.
pub open spec fn fetch_fits(
    script: Seq<(Seq<char>, Seq<char>, Seq<char>)>,
    launcher: Seq<(Seq<char>, Seq<char>, Seq<char>)>,
    res: Seq<LauncherItemView>,
    s_items: Seq<LauncherItemView>,
    l_items: Seq<LauncherItemView>,
    pattern: Seq<char>,
    case_sensitive: bool,
    only_script: bool,
    only_launcher: bool,
) -> bool {
    if only_script {
        &&& search_outcome(res, s_items, pattern, case_sensitive)
        &&& script == item_rows(res)
        &&& launcher.len() == 0
    } else if only_launcher {
        &&& search_outcome(res, l_items, pattern, case_sensitive)
        &&& script.len() == 0
        &&& launcher == item_rows(res)
    } else {
        &&& search_outcome(res, s_items + l_items, pattern, case_sensitive)
        &&& script == item_rows(from_group(res, s_items, true))
        &&& launcher == item_rows(from_group(res, s_items, false))
    }
}

/// The rows of fetch mode (see `fetch_fits`). Which fuzzy matches come back
/// rests on the matcher; what is claimed holds of every outcome that fits the
/// query.
pub fn run(
    scripts: Scripts,
    launcher_items: Vec<LauncherItem>,
    pattern: &str,
    case_sensitive: bool,
    only_script: bool,
    only_launcher: bool,
) -> (r: FetchOutput)
    ensures
        exists|res: Seq<LauncherItemView>| #[trigger] fetch_fits(
            row_views(r.script@),
            row_views(r.launcher@),
            res,
            script_items(script_table(scripts.entries)),
            item_views(launcher_items@),
            pattern@,
            case_sensitive,
            only_script,
            only_launcher,
        ),
{
    let script_list = crate::modes::script::run(scripts);
    if only_script {
        let mut search = FuzzySearch::new(script_list, case_sensitive);
        search.update(pattern);
        let script = rows_of(search.result_list());
        let r = FetchOutput { script, launcher: Vec::new() };
        proof {
            let res = search.result_views();
            assert(search_outcome(res, script_items(script_table(scripts.entries)), pattern@, case_sensitive));
            assert(fetch_fits(row_views(r.script@), row_views(r.launcher@), res, script_items(script_table(scripts.entries)), item_views(launcher_items@), pattern@, case_sensitive, only_script, only_launcher));
        }
        return r;
    } else if only_launcher {
        let mut search = FuzzySearch::new(launcher_items, case_sensitive);
        search.update(pattern);
        let launcher = rows_of(search.result_list());
        let r = FetchOutput { script: Vec::new(), launcher };
        proof {
            let res = search.result_views();
            assert(search_outcome(res, item_views(launcher_items@), pattern@, case_sensitive));
            assert(fetch_fits(row_views(r.script@), row_views(r.launcher@), res, script_items(script_table(scripts.entries)), item_views(launcher_items@), pattern@, case_sensitive, only_script, only_launcher));
        }
        return r;
    }
    let script_copy = crate::search::clone_items(&script_list);
    let mut all_items = script_list;
    let ghost sv = item_views(all_items@);
    let mut rest = launcher_items;
    all_items.append(&mut rest);
    proof {
        assert(item_views(all_items@) =~= sv + item_views(launcher_items@));
    }
    let mut search = FuzzySearch::new(all_items, case_sensitive);
    search.update(pattern);
    let r = split_results(search.result_list(), &script_copy);
    proof {
        let res = search.result_views();
        assert(search_outcome(res, sv + item_views(launcher_items@), pattern@, case_sensitive));
        assert(row_views(r.script@) == item_rows(from_group(res, sv, true)));
        assert(row_views(r.launcher@) == item_rows(from_group(res, sv, false)));
        assert(fetch_fits(row_views(r.script@), row_views(r.launcher@), res, script_items(script_table(scripts.entries)), item_views(launcher_items@), pattern@, case_sensitive, only_script, only_launcher));
    }
    r
}

} // verus!
