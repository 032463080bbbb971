//! Launcher mode: desktop applications as rows, sorted by name.
use crate::config::{Entry, EntryView};
use crate::search::{item_views, LauncherItem, LauncherItemView};
use crate::text::{
    chars_of, concat_chars, lex_le, lex_le_exec, lemma_lex_total,
    lemma_lex_transitive, lowercase, split_at_char, split_char, string_from,
    string_views, to_lowercase, trim, trim_chars, trim_end, trim_start, vec_views,
};
use vstd::prelude::*;

verus! {

broadcast use vstd::seq_lib::to_multiset_build, vstd::seq_lib::to_multiset_insert;

/// `s` with every `%` and the character after it removed (desktop-entry field
/// codes such as `%U`).
pub open spec fn without_codes(s: Seq<char>) -> Seq<char>
    decreases s.len(),
{
    if s.len() == 0 {
        seq![]
    } else if s[0] == '%' {
        if s.len() >= 2 {
            without_codes(s.skip(2))
        } else {
            seq![]
        }
    } else {
        seq![s[0]] + without_codes(s.skip(1))
    }
}

/// Removing field codes leaves no `%` behind.
proof fn lemma_without_codes_no_percent(s: Seq<char>)
    ensures
        !without_codes(s).contains('%'),
    decreases s.len(),
{
    if s.len() > 0 {
        if s[0] == '%' {
            if s.len() >= 2 {
                lemma_without_codes_no_percent(s.skip(2));
            }
        } else {
            lemma_without_codes_no_percent(s.skip(1));
            let w = without_codes(s.skip(1));
            assert forall|k: int| 0 <= k < (seq![s[0]] + w).len() implies (seq![s[0]] + w)[k] != '%' by {
                if k > 0 {
                    assert((seq![s[0]] + w)[k] == w[k - 1]);
                }
            }
        }
    }
}

/// Trimming keeps only characters that were there.
proof fn lemma_trim_keeps(s: Seq<char>, c: char)
    requires
        !s.contains(c),
    ensures
        !trim(s).contains(c),
{
    lemma_trim_start_keeps(s, c);
    lemma_trim_end_keeps(trim_start(s), c);
}

proof fn lemma_trim_start_keeps(s: Seq<char>, c: char)
    requires
        !s.contains(c),
    ensures
        !trim_start(s).contains(c),
    decreases s.len(),
{
    if s.len() > 0 && crate::text::is_ws(s[0]) {
        assert forall|k: int| 0 <= k < s.drop_first().len() implies s.drop_first()[k] != c by {
            assert(s.drop_first()[k] == s[k + 1]);
        }
        lemma_trim_start_keeps(s.drop_first(), c);
    }
}

proof fn lemma_trim_end_keeps(s: Seq<char>, c: char)
    requires
        !s.contains(c),
    ensures
        !trim_end(s).contains(c),
    decreases s.len(),
{
    if s.len() > 0 && crate::text::is_ws(s.last()) {
        assert forall|k: int| 0 <= k < s.drop_last().len() implies s.drop_last()[k] != c by {
            assert(s.drop_last()[k] == s[k]);
        }
        lemma_trim_end_keeps(s.drop_last(), c);
    }
}

/// The command line of an `Exec` value: field codes removed, then trimmed; no
/// `%` is left in it.
pub fn strip_field_codes(exec: &str) -> (r: String)
    ensures
        r@ == trim(without_codes(exec@)),
        !r@.contains('%'),
{
    proof {
        lemma_without_codes_no_percent(exec@);
        lemma_trim_keeps(without_codes(exec@), '%');
    }
    let s = chars_of(exec);
    let mut out: Vec<char> = Vec::new();
    let mut i: usize = 0;
    proof {
        assert(s@.skip(0) =~= s@);
        assert(out@ + without_codes(s@) =~= without_codes(s@));
    }
    while i < s.len()
        invariant
            i <= s.len(),
            without_codes(s@) == out@ + without_codes(s@.skip(i as int)),
        decreases s.len() - i,
    {
        let ghost t = s@.skip(i as int);
        proof {
            assert(t[0] == s@[i as int]);
        }
        if s[i] == '%' {
            if s.len() - i >= 2 {
                proof {
                    assert(t.skip(2) =~= s@.skip(i + 2));
                }
                i = i + 2;
            } else {
                proof {
                    assert(out@ + seq![] =~= out@);
                    assert(s@.skip(s.len() as int).len() == 0);
                }
                i = s.len();
            }
        } else {
            let ghost o = out@;
            out.push(s[i]);
            proof {
                assert(t.skip(1) =~= s@.skip(i + 1));
                assert(o + (seq![s@[i as int]] + without_codes(s@.skip(i + 1))) =~= out@ + without_codes(
                    s@.skip(i + 1),
                ));
            }
            i = i + 1;
        }
    }
    proof {
        assert(s@.skip(s.len() as int).len() == 0);
        assert(out@ + seq![] =~= out@);
    }
    string_from(&trim_chars(&out))
}

/// The terminals tried, in order, for applications that want one.
pub open spec fn terminals() -> Seq<Seq<char>> {
    seq!["foot"@, "kitty"@, "alacritty"@, "wezterm"@, "xterm"@]
}

/// The terminals tried, in order.
pub fn terminal_candidates() -> (r: Vec<String>)
    ensures
        string_views(r@) == terminals(),
{
    let mut r: Vec<String> = Vec::new();
    r.push(String::from_str("foot"));
    r.push(String::from_str("kitty"));
    r.push(String::from_str("alacritty"));
    r.push(String::from_str("wezterm"));
    r.push(String::from_str("xterm"));
    proof {
        assert(string_views(r@) =~= terminals());
    }
    r
}

/// The first index whose terminal is installed.
pub open spec fn first_installed(installed: Seq<bool>) -> Option<int>
    decreases installed.len(),
{
    if installed.len() == 0 {
        None
    } else if installed[0] {
        Some(0)
    } else {
        match first_installed(installed.drop_first()) {
            Some(i) => Some(i + 1),
            None => None,
        }
    }
}

/// How many of the terminals have an answer in `installed`.
pub open spec fn checked_count(n: nat) -> int {
    if n < 5 { n as int } else { 5 }
}

/// The command to run: wrapped in the first installed terminal when the
/// application wants a terminal; `installed[i]` tells whether terminal `i` of
/// `terminals()` is installed.
pub open spec fn command_for(cmd: Seq<char>, terminal: bool, installed: Seq<bool>) -> Seq<char> {
    if terminal {
        match first_installed(installed.take(checked_count(installed.len()))) {
            Some(i) => terminals()[i] + " -e "@ + cmd,
            None => cmd,
        }
    } else {
        cmd
    }
}

proof fn lemma_first_installed(s: Seq<bool>)
    ensures
        first_installed(s) matches Some(i) ==> 0 <= i < s.len() && s[i],
        first_installed(s) is None ==> forall|k: int| 0 <= k < s.len() ==> !s[k],
    decreases s.len(),
{
    if s.len() > 0 && !s[0] {
        lemma_first_installed(s.drop_first());
        assert forall|k: int| 0 < k < s.len() implies s.drop_first()[k - 1] == s[k] by {}
    }
}

/// The command to run for an application (see `command_for`).
pub fn format_command(cmd: &str, terminal: bool, installed: &Vec<bool>) -> (r: String)
    ensures
        r@ == command_for(cmd@, terminal, installed@),
{
    if terminal {
        let terms = terminal_candidates();
        let n: usize = if installed.len() < 5 { installed.len() } else { 5 };
        let ghost w = installed@.take(checked_count(installed@.len()));
        let mut i: usize = 0;
        proof {
            assert(string_views(terms@).len() == 5);
            assert(w.len() == n);
            assert(w.skip(0) =~= w);
        }
        while i < n
            invariant
                terminal,
                i <= n,
                n <= 5,
                n <= installed.len(),
                terms@.len() == 5,
                string_views(terms@) == terminals(),
                w == installed@.take(checked_count(installed@.len())),
                w.len() == n,
                first_installed(w) == crate::clipboard::watcher::shift(first_installed(w.skip(i as int)), i as int),
            decreases n - i,
        {
            proof {
                assert(w.skip(i as int)[0] == installed@[i as int]);
                assert(w.skip(i as int).drop_first() =~= w.skip(i + 1));
            }
            if installed[i] {
                proof {
                    assert(string_views(terms@)[i as int] == terms@[i as int]@);
                    assert(first_installed(w.skip(i as int)) == Some(0int));
                    assert(first_installed(w) == Some(i as int));
                }
                let r = concat_chars(&concat_chars(&chars_of(terms[i].as_str()), &chars_of(" -e ")), &chars_of(cmd));
                let out = string_from(&r);
                proof {
                    assert(out@ == terminals()[i as int] + " -e "@ + cmd@);
                }
                return out;
            }
            proof {
                let x = first_installed(w.skip(i + 1));
                assert(crate::clipboard::watcher::shift(crate::clipboard::watcher::shift(x, 1), i as int)
                    == crate::clipboard::watcher::shift(x, i + 1));
            }
            i += 1;
        }
        proof {
            assert(w.skip(i as int).len() == 0);
        }
    }
    String::from_str(cmd)
}


/// What a desktop entry file says of one application, as far as the launcher
/// reads it.
#[derive(Debug)]
pub struct DesktopFields {
    pub no_display: bool,
    pub hidden: bool,
    pub kind: Option<String>,
    pub name: Option<String>,
    pub exec_line: Option<String>,
    pub terminal: bool,
    pub categories: Vec<String>,
}

/// The trimmed, non-empty pieces, in order.
pub open spec fn nonempty_trimmed(parts: Seq<Seq<char>>) -> Seq<Seq<char>>
    decreases parts.len(),
{
    if parts.len() == 0 {
        seq![]
    } else if trim(parts.last()).len() > 0 {
        nonempty_trimmed(parts.drop_last()).push(trim(parts.last()))
    } else {
        nonempty_trimmed(parts.drop_last())
    }
}

/// The tags of an application: each category value split at `;`, trimmed, the
/// empty pieces left out.
pub open spec fn category_tags(cats: Seq<Seq<char>>) -> Seq<Seq<char>>
    decreases cats.len(),
{
    if cats.len() == 0 {
        seq![]
    } else {
        category_tags(cats.drop_last()) + nonempty_trimmed(split_char(cats.last(), ';'))
    }
}

/// The character view of an optional string, empty when absent.
pub open spec fn text_or_empty(o: Option<String>) -> Seq<char> {
    match o {
        Some(s) => s@,
        None => seq![],
    }
}

/// The row for a desktop entry, if it is shown: a visible `Application` with a
/// non-empty name, running its `Exec` line without field codes.
pub open spec fn desktop_row(f: DesktopFields, installed: Seq<bool>) -> Option<LauncherItemView> {
    if f.no_display || f.hidden {
        None
    } else if !(f.kind matches Some(k) && k@ == "Application"@) {
        None
    } else if !(f.name matches Some(n) && n@.len() > 0) {
        None
    } else {
        Some(LauncherItemView {
            name: text_or_empty(f.name),
            entry: EntryView {
                name: seq![],
                command: command_for(trim(without_codes(text_or_empty(f.exec_line))), f.terminal, installed),
                tag: category_tags(string_views(f.categories@)),
                inline_meta: None,
            },
        })
    }
}

/// The rows of the entries that are shown, in the entries' order.
pub open spec fn desktop_rows(fs: Seq<DesktopFields>, installed: Seq<bool>) -> Seq<LauncherItemView>
    decreases fs.len(),
{
    if fs.len() == 0 {
        seq![]
    } else {
        match desktop_row(fs.last(), installed) {
            Some(r) => desktop_rows(fs.drop_last(), installed).push(r),
            None => desktop_rows(fs.drop_last(), installed),
        }
    }
}

/// Splits, trims and filters one category value.
fn category_pieces(cat: &str) -> (r: Vec<String>)
    ensures
        string_views(r@) == nonempty_trimmed(split_char(cat@, ';')),
{
    let parts = split_at_char(&chars_of(cat), ';');
    let ghost pv = vec_views(parts@);
    let mut out: Vec<String> = Vec::new();
    for i in 0..parts.len()
        invariant
            pv == vec_views(parts@),
            string_views(out@) == nonempty_trimmed(pv.take(i as int)),
    {
        proof {
            assert(pv.take(i + 1).drop_last() =~= pv.take(i as int));
            assert(pv.take(i + 1).last() == parts@[i as int]@);
        }
        let t = trim_chars(&parts[i]);
        if t.len() > 0 {
            let ghost prev = out@;
            out.push(string_from(&t));
            proof {
                assert(string_views(out@) =~= string_views(prev).push(t@));
            }
        }
    }
    proof {
        assert(pv.take(parts.len() as int) =~= pv);
    }
    out
}

/// The tags of an application (see `category_tags`).
pub fn categories_to_tags(cats: &Vec<String>) -> (r: Vec<String>)
    ensures
        string_views(r@) == category_tags(string_views(cats@)),
{
    let ghost cv = string_views(cats@);
    let mut out: Vec<String> = Vec::new();
    for i in 0..cats.len()
        invariant
            cv == string_views(cats@),
            string_views(out@) == category_tags(cv.take(i as int)),
    {
        proof {
            assert(cv.take(i + 1).drop_last() =~= cv.take(i as int));
            assert(cv.take(i + 1).last() == cats@[i as int]@);
        }
        let pieces = category_pieces(cats[i].as_str());
        let ghost prev = out@;
        let mut k: usize = 0;
        while k < pieces.len()
            invariant
                k <= pieces.len(),
                string_views(out@) == string_views(prev) + string_views(pieces@.take(k as int)),
            decreases pieces.len() - k,
        {
            let ghost before = out@;
            out.push(pieces[k].clone());
            proof {
                assert(string_views(out@) =~= string_views(before).push(pieces@[k as int]@));
                assert(string_views(pieces@.take(k + 1)) =~= string_views(pieces@.take(k as int)).push(
                    pieces@[k as int]@,
                ));
            }
            k += 1;
        }
        proof {
            assert(pieces@.take(pieces.len() as int) =~= pieces@);
        }
    }
    proof {
        assert(cv.take(cats.len() as int) =~= cv);
    }
    out
}

/// The row for a desktop entry, if it is shown (see `desktop_row`).
pub fn desktop_item(f: &DesktopFields, installed: &Vec<bool>) -> (r: Option<LauncherItem>)
    ensures
        match r {
            Some(it) => desktop_row(*f, installed@) == Some(it@),
            None => desktop_row(*f, installed@) is None,
        },
{
    if f.no_display || f.hidden {
        return None;
    }
    let is_app = match &f.kind {
        Some(k) => crate::text::str_eq(k.as_str(), "Application"),
        None => false,
    };
    if !is_app {
        return None;
    }
    let name = match &f.name {
        Some(n) => n.clone(),
        None => return None,
    };
    if name.as_str().is_empty() {
        return None;
    }
    let exec = match &f.exec_line {
        Some(e) => e.clone(),
        None => String::new(),
    };
    proof {
        assert(exec@ == text_or_empty(f.exec_line));
    }
    let command = format_command(strip_field_codes(exec.as_str()).as_str(), f.terminal, installed);
    let tag = categories_to_tags(&f.categories);
    let item = LauncherItem {
        name,
        entry: Entry { name: String::new(), command, tag, inline_meta: None },
    };
    proof {
        assert(item@.entry.name =~= Seq::<char>::empty());
    }
    Some(item)
}

/// Items in name order: each item's lowercased name is at most the next one's.
pub open spec fn sorted_by_name(s: Seq<LauncherItemView>) -> bool {
    forall|i: int, j: int| 0 <= i < j < s.len() ==> lex_le(lowercase((#[trigger] s[i]).name), lowercase((#[trigger] s[j]).name))
}

/// How many leading items of `s` have a lowercased name at most `k`: where an
/// item with key `k` goes so that it follows every item it is not before.
pub open spec fn place_of(s: Seq<LauncherItemView>, k: Seq<char>) -> int
    decreases s.len(),
{
    if s.len() == 0 {
        0
    } else if lex_le(lowercase(s[0].name), k) {
        1 + place_of(s.drop_first(), k)
    } else {
        0
    }
}

/// The stable sort of `s` by lowercased name: each item in turn inserted after
/// the items placed before it whose names are not greater.
pub open spec fn name_sorted(s: Seq<LauncherItemView>) -> Seq<LauncherItemView>
    decreases s.len(),
{
    if s.len() == 0 {
        seq![]
    } else {
        let p = name_sorted(s.drop_last());
        p.insert(place_of(p, lowercase(s.last().name)), s.last())
    }
}

proof fn lemma_place_of(s: Seq<LauncherItemView>, k: Seq<char>, j: int)
    requires
        0 <= j <= s.len(),
        forall|m: int| 0 <= m < j ==> lex_le(lowercase((#[trigger] s[m]).name), k),
        j < s.len() ==> !lex_le(lowercase(s[j].name), k),
    ensures
        place_of(s, k) == j,
    decreases j,
{
    if j > 0 {
        assert forall|m: int| 0 <= m < j - 1 implies lex_le(lowercase((#[trigger] s.drop_first()[m]).name), k) by {
            assert(s.drop_first()[m] == s[m + 1]);
        }
        if j < s.len() {
            assert(s.drop_first()[j - 1] == s[j]);
        }
        assert(lex_le(lowercase(s[0].name), k));
        lemma_place_of(s.drop_first(), k, j - 1);
    }
}

/// Sorts items by lowercased name, keeping items with equal names in their order
/// (a stable insertion sort).
pub fn sort_by_name(items: Vec<LauncherItem>) -> (r: Vec<LauncherItem>)
    ensures
        item_views(r@) == name_sorted(item_views(items@)),
        item_views(r@).to_multiset() == item_views(items@).to_multiset(),
        sorted_by_name(item_views(r@)),
{
    let ghost cs = item_views(items@);
    let mut keys: Vec<Vec<char>> = Vec::new();
    let mut out: Vec<LauncherItem> = Vec::new();
    proof {
        assert(item_views(out@) =~= cs.take(0));
    }
    for c in it: items
        invariant
            cs == item_views(it.seq()),
            item_views(out@).to_multiset() == cs.take(it.index() as int).to_multiset(),
            item_views(out@) == name_sorted(cs.take(it.index() as int)),
            sorted_by_name(item_views(out@)),
            keys.len() == out.len(),
            forall|k: int| 0 <= k < keys.len() ==> (#[trigger] keys@[k])@ == lowercase(out@[k].name@),
    {
        let ghost i = it.index() as int;
        let key = chars_of(to_lowercase(c.name.as_str()).as_str());
        let mut j: usize = 0;
        while j < out.len() && lex_le_exec(&keys[j], &key)
            invariant
                j <= out.len(),
                keys.len() == out.len(),
                forall|k: int| 0 <= k < keys.len() ==> (#[trigger] keys@[k])@ == lowercase(out@[k].name@),
                forall|k: int| 0 <= k < j ==> lex_le(lowercase((#[trigger] out@[k]).name@), lowercase(c.name@)),
                key@ == lowercase(c.name@),
            decreases out.len() - j,
        {
            proof {
                assert(keys@[j as int]@ == lowercase(out@[j as int].name@));
            }
            j += 1;
        }
        let ghost s = out@;
        let ghost sv = item_views(s);
        proof {
            assert(cs.take(i + 1) =~= cs.take(i).push(c@));
            assert(cs.take(i + 1).drop_last() =~= cs.take(i));
            assert forall|m: int| 0 <= m < j implies lex_le(lowercase((#[trigger] sv[m]).name), lowercase(c@.name)) by {
                assert(sv[m] == s[m]@);
            }
            if j < s.len() {
                assert(keys@[j as int]@ == lowercase(out@[j as int].name@));
                lemma_lex_total(lowercase(s[j as int].name@), lowercase(c.name@));
                assert(sv[j as int] == s[j as int]@);
            }
            lemma_place_of(sv, lowercase(c@.name), j as int);
            assert(item_views(s.insert(j as int, c)) =~= sv.insert(j as int, c@));
            assert forall|a: int, b: int| 0 <= a < b < sv.insert(j as int, c@).len() implies lex_le(
                lowercase((#[trigger] sv.insert(j as int, c@)[a]).name),
                lowercase((#[trigger] sv.insert(j as int, c@)[b]).name),
            ) by {
                let ns = sv.insert(j as int, c@);
                let kc = lowercase(c.name@);
                if b < j {
                    assert(ns[a] == sv[a] && ns[b] == sv[b]);
                } else if b == j {
                    assert(ns[a] == sv[a]);
                    assert(lex_le(lowercase(s[a].name@), kc));
                } else if a < j {
                    assert(ns[a] == sv[a] && ns[b] == sv[b - 1]);
                    assert(lex_le(lowercase(s[a].name@), kc));
                    assert(lex_le(kc, lowercase(sv[j as int].name)));
                    if j < b - 1 {
                        lemma_lex_transitive(kc, lowercase(sv[j as int].name), lowercase(sv[b - 1].name));
                    }
                    lemma_lex_transitive(lowercase(sv[a].name), kc, lowercase(sv[b - 1].name));
                } else if a == j {
                    assert(ns[b] == sv[b - 1]);
                    assert(lex_le(kc, lowercase(sv[j as int].name)));
                    if j < b - 1 {
                        lemma_lex_transitive(kc, lowercase(sv[j as int].name), lowercase(sv[b - 1].name));
                    }
                } else {
                    assert(ns[a] == sv[a - 1] && ns[b] == sv[b - 1]);
                }
            }
        }
        let ghost ok = keys@;
        out.insert(j, c);
        keys.insert(j, key);
        proof {
            assert(item_views(out@) =~= sv.insert(j as int, c@));
            assert forall|k: int| 0 <= k < keys.len() implies (#[trigger] keys@[k])@ == lowercase(out@[k].name@) by {
                if k < j {
                    assert(keys@[k] == ok[k] && out@[k] == s[k]);
                } else if k > j {
                    assert(keys@[k] == ok[k - 1] && out@[k] == s[k - 1]);
                }
            }
        }
    }
    proof {
        assert(cs.take(cs.len() as int) =~= cs);
    }
    out
}

/// The launcher's rows: one for each desktop entry that is shown, ordered by
/// lowercased name. `installed` tells which of `terminals()` are installed.
pub fn load_items(entries: Vec<DesktopFields>, installed: &Vec<bool>) -> (items: Vec<LauncherItem>)
    ensures
        item_views(items@) == name_sorted(desktop_rows(entries@, installed@)),
        item_views(items@).to_multiset() == desktop_rows(entries@, installed@).to_multiset(),
        sorted_by_name(item_views(items@)),
{
    let mut rows: Vec<LauncherItem> = Vec::new();
    for i in 0..entries.len()
        invariant
            item_views(rows@) == desktop_rows(entries@.take(i as int), installed@),
    {
        proof {
            assert(entries@.take(i + 1).drop_last() =~= entries@.take(i as int));
            assert(entries@.take(i + 1).last() == entries@[i as int]);
        }
        match desktop_item(&entries[i], installed) {
            Some(it) => {
                let ghost prev = rows@;
                rows.push(it);
                proof {
                    assert(item_views(rows@) =~= item_views(prev).push(it@));
                }
            },
            None => {},
        }
    }
    proof {
        assert(entries@.take(entries.len() as int) =~= entries@);
    }
    sort_by_name(rows)
}

} // verus!
