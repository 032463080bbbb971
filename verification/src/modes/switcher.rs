//! Switcher mode: Hyprland windows as rows that switch to the window's workspace,
//! ordered by workspace, then application, then title.
use crate::config::{Entry, EntryView};
use crate::search::{item_views, LauncherItem, LauncherItemView};
use crate::text::{
    chars_of, concat_chars, decimal_i32, lex_le, lex_le_exec, lemma_lex_antisymmetric, lemma_lex_reflexive,
    lemma_lex_total, lemma_lex_transitive, lowercase, signed_decimal,
    slice_chars, string_from, string_views, to_lowercase, trim, trim_chars,
};
use vstd::prelude::*;

verus! {

broadcast use vstd::seq_lib::to_multiset_build, vstd::seq_lib::to_multiset_insert;

/// The workspace a window is on.
#[derive(Debug)]
pub struct HyprWorkspace {
    pub id: i32,
}

/// A window as `hyprctl clients -j` lists it.
#[derive(Debug)]
pub struct HyprClient {
    pub workspace: HyprWorkspace,
    pub title: String,
    pub class: String,
}

/// The part of `s` after its last `.` or `-` (all of `s` when there is none).
pub open spec fn after_last_sep(s: Seq<char>) -> Seq<char>
    decreases s.len(),
{
    if s.len() == 0 {
        s
    } else if s.last() == '.' || s.last() == '-' {
        seq![]
    } else {
        after_last_sep(s.drop_last()).push(s.last())
    }
}

/// A window class shortened to its last dotted or dashed part
/// (`org.mozilla.firefox` becomes `firefox`), trimmed.
pub open spec fn simplified_class(class: Seq<char>) -> Seq<char> {
    let t = trim(class);
    if t.len() == 0 {
        seq![]
    } else {
        trim(after_last_sep(t))
    }
}

/// The label of a window: its workspace, then its short class and title as far as
/// they are present.
pub open spec fn window_label(class: Seq<char>, title: Seq<char>, ws: int) -> Seq<char> {
    let c = simplified_class(class);
    let t = trim(title);
    let prefix = signed_decimal(ws) + ": "@;
    if c.len() == 0 && t.len() == 0 {
        prefix + "<unnamed window>"@
    } else if t.len() == 0 {
        prefix + c
    } else if c.len() == 0 {
        prefix + t
    } else {
        prefix + c + " - "@ + t
    }
}

/// The tags of a window: its trimmed class when it has one, then its workspace.
pub open spec fn window_tags(ws: int, class: Seq<char>) -> Seq<Seq<char>> {
    let c = trim(class);
    if c.len() > 0 {
        seq![c, signed_decimal(ws)]
    } else {
        seq![signed_decimal(ws)]
    }
}

/// The part of `s` after its last `.` or `-`.
fn after_last_sep_exec(s: &Vec<char>) -> (r: Vec<char>)
    ensures
        r@ == after_last_sep(s@),
{
    let mut j = s.len();
    proof {
        assert(s@.take(j as int) =~= s@);
        assert(after_last_sep(s@) + s@.skip(j as int) =~= after_last_sep(s@));
    }
    while j > 0 && s[j - 1] != '.' && s[j - 1] != '-'
        invariant
            j <= s.len(),
            after_last_sep(s@) == after_last_sep(s@.take(j as int)) + s@.skip(j as int),
        decreases j,
    {
        proof {
            let t = s@.take(j as int);
            assert(t.drop_last() =~= s@.take(j - 1));
            assert(t.last() == s@[j - 1]);
            assert(s@.skip(j - 1) =~= seq![s@[j - 1]] + s@.skip(j as int));
            assert(after_last_sep(s@.take(j - 1)).push(s@[j - 1]) + s@.skip(j as int) =~= after_last_sep(
                s@.take(j - 1),
            ) + s@.skip(j - 1));
        }
        j -= 1;
    }
    proof {
        if j == 0 {
            assert(s@.take(0).len() == 0);
        }
        assert(after_last_sep(s@.take(j as int)) =~= seq![]);
        assert(seq![] + s@.skip(j as int) =~= s@.subrange(j as int, s.len() as int));
    }
    slice_chars(s, j, s.len())
}

/// The short form of a window class.
pub fn simplify_class_label(class: &str) -> (r: String)
    ensures
        r@ == simplified_class(class@),
{
    let t = trim_chars(&chars_of(class));
    if t.len() == 0 {
        return String::new();
    }
    string_from(&trim_chars(&after_last_sep_exec(&t)))
}

/// The lowercased short form of a window class, used for ordering.
pub fn simplified_class_tag(class: &str) -> (r: String)
    ensures
        r@ == lowercase(simplified_class(class@)),
{
    to_lowercase(simplify_class_label(class).as_str())
}

/// The label of a window.
pub fn format_label(class: &str, title: &str, workspace_id: i32) -> (r: String)
    ensures
        r@ == window_label(class@, title@, workspace_id as int),
{
    let simple = chars_of(simplify_class_label(class).as_str());
    let t = trim_chars(&chars_of(title));
    let prefix = concat_chars(&decimal_i32(workspace_id), &chars_of(": "));
    let out = if simple.len() == 0 && t.len() == 0 {
        concat_chars(&prefix, &chars_of("<unnamed window>"))
    } else if t.len() == 0 {
        concat_chars(&prefix, &simple)
    } else if simple.len() == 0 {
        concat_chars(&prefix, &t)
    } else {
        concat_chars(&concat_chars(&concat_chars(&prefix, &simple), &chars_of(" - ")), &t)
    };
    string_from(&out)
}

/// The tags of a window.
pub fn build_tags(workspace_id: i32, class: &str) -> (tags: Vec<String>)
    ensures
        string_views(tags@) == window_tags(workspace_id as int, class@),
{
    let mut tags: Vec<String> = Vec::new();
    let c = trim_chars(&chars_of(class));
    if c.len() > 0 {
        tags.push(string_from(&c));
    }
    tags.push(string_from(&decimal_i32(workspace_id)));
    proof {
        assert(string_views(tags@) =~= window_tags(workspace_id as int, class@));
    }
    tags
}

/// The sort key of a window: workspace, lowercased short class, lowercased title.
pub open spec fn client_key(c: HyprClient) -> (int, Seq<char>, Seq<char>) {
    (c.workspace.id as int, lowercase(simplified_class(c.class@)), lowercase(c.title@))
}

/// The order of sort keys.
pub open spec fn key_le(a: (int, Seq<char>, Seq<char>), b: (int, Seq<char>, Seq<char>)) -> bool {
    a.0 < b.0 || (a.0 == b.0 && ((lex_le(a.1, b.1) && a.1 != b.1) || (a.1 == b.1 && lex_le(a.2, b.2))))
}

proof fn lemma_key_total(a: (int, Seq<char>, Seq<char>), b: (int, Seq<char>, Seq<char>))
    ensures
        key_le(a, b) || key_le(b, a),
{
    lemma_lex_total(a.1, b.1);
    lemma_lex_total(a.2, b.2);
}

proof fn lemma_key_transitive(a: (int, Seq<char>, Seq<char>), b: (int, Seq<char>, Seq<char>), c: (int, Seq<char>, Seq<char>))
    requires
        key_le(a, b),
        key_le(b, c),
    ensures
        key_le(a, c),
{
    if a.0 == b.0 && b.0 == c.0 {
        if lex_le(a.1, b.1) && lex_le(b.1, c.1) {
            lemma_lex_transitive(a.1, b.1, c.1);
            if a.1 == c.1 {
                lemma_lex_antisymmetric(a.1, b.1);
            }
        }
        if a.1 == b.1 && b.1 == c.1 {
            lemma_lex_transitive(a.2, b.2, c.2);
        }
    }
}

/// Windows in key order: every window once, ordered by `client_key`.
pub open spec fn sorted_clients(s: Seq<HyprClient>) -> bool {
    forall|i: int, j: int| 0 <= i < j < s.len() ==> key_le(client_key(#[trigger] s[i]), client_key(#[trigger] s[j]))
}

/// Windows in key order go by workspace; within a workspace by short class (the
/// class after its last `.` or `-`, trimmed), lowercased; within one short class
/// by title, lowercased.
pub proof fn lemma_sorted_windows_order(s: Seq<HyprClient>, i: int, j: int)
    requires
        sorted_clients(s),
        0 <= i < j < s.len(),
    ensures
        s[i].workspace.id <= s[j].workspace.id,
        s[i].workspace.id == s[j].workspace.id ==> lex_le(
            lowercase(simplified_class(s[i].class@)),
            lowercase(simplified_class(s[j].class@)),
        ),
        s[i].workspace.id == s[j].workspace.id && lowercase(simplified_class(s[i].class@)) == lowercase(
            simplified_class(s[j].class@),
        ) ==> lex_le(lowercase(s[i].title@), lowercase(s[j].title@)),
{
    assert(key_le(client_key(s[i]), client_key(s[j])));
    lemma_lex_reflexive(lowercase(simplified_class(s[i].class@)));
}

/// The part after the last separator is what follows the last `.` or `-` of `s`
/// (all of `s` when there is none): a suffix of `s` without separators.
pub proof fn lemma_after_last_sep(s: Seq<char>)
    ensures
        ({
            let a = after_last_sep(s);
            &&& a.len() <= s.len()
            &&& s.skip(s.len() - a.len()) == a
            &&& forall|k: int| 0 <= k < a.len() ==> #[trigger] a[k] != '.' && a[k] != '-'
            &&& (a.len() == s.len() || s[s.len() - a.len() - 1] == '.' || s[s.len() - a.len() - 1] == '-')
        }),
    decreases s.len(),
{
    if s.len() > 0 && !(s.last() == '.' || s.last() == '-') {
        let p = s.drop_last();
        lemma_after_last_sep(p);
        let a = after_last_sep(s);
        let ap = after_last_sep(p);
        assert(a == ap.push(s.last()));
        assert(s.skip(s.len() - a.len()) =~= p.skip(p.len() - ap.len()).push(s.last()));
        assert forall|k: int| 0 <= k < a.len() implies #[trigger] a[k] != '.' && a[k] != '-' by {
            if k < ap.len() {
                assert(a[k] == ap[k]);
            }
        }
        if ap.len() < p.len() {
            assert(s[s.len() - a.len() - 1] == p[p.len() - ap.len() - 1]);
        }
    } else if s.len() > 0 {
        assert(s.skip(s.len() as int) =~= Seq::<char>::empty());
    } else {
        assert(s.skip(0) =~= s);
    }
}

/// The lowercased parts of a window's key.
struct ClientKey {
    ws: i32,
    class: Vec<char>,
    title: Vec<char>,
}

fn key_of(c: &HyprClient) -> (k: ClientKey)
    ensures
        (k.ws as int, k.class@, k.title@) == client_key(*c),
{
    ClientKey {
        ws: c.workspace.id,
        class: chars_of(simplified_class_tag(c.class.as_str()).as_str()),
        title: chars_of(to_lowercase(c.title.as_str()).as_str()),
    }
}

fn key_le_exec(a: &ClientKey, b: &ClientKey) -> (r: bool)
    ensures
        r == key_le((a.ws as int, a.class@, a.title@), (b.ws as int, b.class@, b.title@)),
{
    if a.ws != b.ws {
        return a.ws < b.ws;
    }
    let same_class = crate::text::eq_chars(&a.class, &b.class);
    if !same_class {
        return lex_le_exec(&a.class, &b.class);
    }
    lex_le_exec(&a.title, &b.title)
}

/// How many leading windows of `s` have a key at most `k`: where a window with
/// key `k` goes so that it follows every window it is not before.
pub open spec fn client_place(s: Seq<HyprClient>, k: (int, Seq<char>, Seq<char>)) -> int
    decreases s.len(),
{
    if s.len() == 0 {
        0
    } else if key_le(client_key(s[0]), k) {
        1 + client_place(s.drop_first(), k)
    } else {
        0
    }
}

/// The stable sort of `s` by key: each window in turn inserted after the windows
/// placed before it whose keys are not greater.
pub open spec fn key_sorted(s: Seq<HyprClient>) -> Seq<HyprClient>
    decreases s.len(),
{
    if s.len() == 0 {
        seq![]
    } else {
        let p = key_sorted(s.drop_last());
        p.insert(client_place(p, client_key(s.last())), s.last())
    }
}

proof fn lemma_client_place(s: Seq<HyprClient>, k: (int, Seq<char>, Seq<char>), j: int)
    requires
        0 <= j <= s.len(),
        forall|m: int| 0 <= m < j ==> key_le(client_key(#[trigger] s[m]), k),
        j < s.len() ==> !key_le(client_key(s[j]), k),
    ensures
        client_place(s, k) == j,
    decreases j,
{
    if j > 0 {
        assert forall|m: int| 0 <= m < j - 1 implies key_le(client_key(#[trigger] s.drop_first()[m]), k) by {
            assert(s.drop_first()[m] == s[m + 1]);
        }
        if j < s.len() {
            assert(s.drop_first()[j - 1] == s[j]);
        }
        assert(key_le(client_key(s[0]), k));
        lemma_client_place(s.drop_first(), k, j - 1);
    }
}

/// The windows in key order, windows with equal keys in their order (a stable
/// insertion sort).
pub fn sort_clients(clients: Vec<HyprClient>) -> (r: Vec<HyprClient>)
    ensures
        r@ == key_sorted(clients@),
        r@.to_multiset() == clients@.to_multiset(),
        sorted_clients(r@),
        forall|i: int, j: int|
            0 <= i < j < r.len() ==> (#[trigger] r@[i]).workspace.id <= (#[trigger] r@[j]).workspace.id && (
            r@[i].workspace.id == r@[j].workspace.id ==> lex_le(
                lowercase(simplified_class(r@[i].class@)),
                lowercase(simplified_class(r@[j].class@)),
            )),
{
    let ghost cs = clients@;
    let mut keys: Vec<ClientKey> = Vec::new();
    let mut out: Vec<HyprClient> = Vec::new();
    proof {
        assert(out@ =~= cs.take(0));
    }
    for c in it: clients
        invariant
            cs == it.seq(),
            out@.to_multiset() == cs.take(it.index() as int).to_multiset(),
            out@ == key_sorted(cs.take(it.index() as int)),
            sorted_clients(out@),
            keys.len() == out.len(),
            forall|k: int| 0 <= k < keys.len() ==> (#[trigger] keys@[k].ws as int, keys@[k].class@, keys@[k].title@) == client_key(out@[k]),
    {
        let ghost i = it.index() as int;
        let key = key_of(&c);
        proof {
            assert forall|k: int| 0 <= k < out@.len() implies (#[trigger] keys@[k].ws as int, keys@[k].class@, keys@[k].title@) == client_key(out@[k]) by {}
        }
        let mut j: usize = 0;
        while j < out.len() && key_le_exec(&keys[j], &key)
            invariant
                j <= out.len(),
                keys.len() == out.len(),
                forall|k: int| 0 <= k < keys.len() ==> (#[trigger] keys@[k].ws as int, keys@[k].class@, keys@[k].title@) == client_key(out@[k]),
                forall|k: int| 0 <= k < j ==> key_le(client_key(#[trigger] out@[k]), client_key(c)),
                (key.ws as int, key.class@, key.title@) == client_key(c),
            decreases out.len() - j,
        {
            proof {
                assert((keys@[j as int].ws as int, keys@[j as int].class@, keys@[j as int].title@) == client_key(out@[j as int]));
            }
            j += 1;
        }
        let ghost s = out@;
        proof {
            assert(cs.take(i + 1) =~= cs.take(i).push(c));
            assert(cs.take(i + 1).drop_last() =~= cs.take(i));
            if j < s.len() {
                assert(!key_le(client_key(s[j as int]), client_key(c)));
                lemma_key_total(client_key(s[j as int]), client_key(c));
            }
            lemma_client_place(s, client_key(c), j as int);
            assert forall|a: int, b: int| 0 <= a < b < s.insert(j as int, c).len() implies key_le(
                client_key(#[trigger] s.insert(j as int, c)[a]),
                client_key(#[trigger] s.insert(j as int, c)[b]),
            ) by {
                let ns = s.insert(j as int, c);
                if b < j {
                    assert(ns[a] == s[a] && ns[b] == s[b]);
                } else if b == j {
                    assert(ns[a] == s[a]);
                } else if a < j {
                    assert(ns[a] == s[a] && ns[b] == s[b - 1]);
                    assert(key_le(client_key(c), client_key(s[j as int])));
                    if j < b - 1 {
                        lemma_key_transitive(client_key(c), client_key(s[j as int]), client_key(s[b - 1]));
                    }
                    lemma_key_transitive(client_key(s[a]), client_key(c), client_key(s[b - 1]));
                } else if a == j {
                    assert(ns[b] == s[b - 1]);
                    if j < b - 1 {
                        lemma_key_transitive(client_key(c), client_key(s[j as int]), client_key(s[b - 1]));
                    }
                } else {
                    assert(ns[a] == s[a - 1] && ns[b] == s[b - 1]);
                }
            }
        }
        let ghost ok = keys@;
        let ghost kv = (key.ws as int, key.class@, key.title@);
        out.insert(j, c);
        keys.insert(j, key);
        proof {
            assert forall|k: int| 0 <= k < keys.len() implies (#[trigger] keys@[k].ws as int, keys@[k].class@, keys@[k].title@) == client_key(out@[k]) by {
                if k < j {
                    assert(keys@[k] == ok[k] && out@[k] == s[k]);
                } else if k > j {
                    assert(keys@[k] == ok[k - 1] && out@[k] == s[k - 1]);
                } else {
                    assert(out@[k] == c);
                }
            }
        }
    }
    proof {
        assert(cs.take(cs.len() as int) =~= cs);
        assert forall|i: int, j: int|
            0 <= i < j < out.len() implies (#[trigger] out@[i]).workspace.id <= (#[trigger] out@[j]).workspace.id && (
            out@[i].workspace.id == out@[j].workspace.id ==> lex_le(
                lowercase(simplified_class(out@[i].class@)),
                lowercase(simplified_class(out@[j].class@)),
            )) by {
            lemma_sorted_windows_order(out@, i, j);
        }
    }
    out
}


/// The row for a window: labelled and tagged as above, running the command that
/// switches to its workspace.
pub open spec fn client_row(c: HyprClient) -> LauncherItemView {
    let ws = c.workspace.id as int;
    LauncherItemView {
        name: window_label(c.class@, c.title@, ws),
        entry: EntryView {
            name: seq![],
            command: "hyprctl dispatch workspace "@ + signed_decimal(ws),
            tag: window_tags(ws, c.class@),
            inline_meta: Some(seq![]),
        },
    }
}

/// The row for a window.
fn client_item(c: &HyprClient) -> (r: LauncherItem)
    ensures
        r@ == client_row(*c),
{
    let label = format_label(c.class.as_str(), c.title.as_str(), c.workspace.id);
    let command = string_from(&concat_chars(&chars_of("hyprctl dispatch workspace "), &decimal_i32(c.workspace.id)));
    let item = LauncherItem::new(
        label,
        Entry {
            name: String::new(),
            command,
            tag: build_tags(c.workspace.id, c.class.as_str()),
            inline_meta: Some(String::new()),
        },
    );
    proof {
        assert(item@.entry.name =~= Seq::<char>::empty());
    }
    item
}

/// The rows for the windows that `hyprctl` listed, in key order.
pub fn items_from_clients(clients: Vec<HyprClient>) -> (items: Vec<LauncherItem>)
    ensures
        item_views(items@) == key_sorted(clients@).map_values(|c: HyprClient| client_row(c)),
        key_sorted(clients@).to_multiset() == clients@.to_multiset(),
        sorted_clients(key_sorted(clients@)),
{
    let sorted = sort_clients(clients);
    let mut items: Vec<LauncherItem> = Vec::new();
    for i in 0..sorted.len()
        invariant
            item_views(items@) == sorted@.take(i as int).map_values(|c: HyprClient| client_row(c)),
    {
        let ghost prev = items@;
        items.push(client_item(&sorted[i]));
        proof {
            assert(item_views(items@) =~= item_views(prev).push(client_row(sorted@[i as int])));
            assert(sorted@.take(i + 1).map_values(|c: HyprClient| client_row(c)) =~= sorted@.take(i as int).map_values(
                |c: HyprClient| client_row(c),
            ).push(client_row(sorted@[i as int])));
        }
    }
    proof {
        assert(sorted@.take(sorted.len() as int) =~= sorted@);
    }
    items
}

} // verus!
