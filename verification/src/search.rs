//! Launcher items, query parsing and the fuzzy search over items.
use crate::config::{Entry, EntryView};
use crate::text::{contains_chars, contains_seq, chars_of, is_ws, lemma_words_last, copy_chars, join, join_chars, lowercase, slice_chars, split_whitespace, string_from, string_views, to_lowercase, vec_views, words};
use nucleo::pattern::{CaseMatching, Normalization};
use nucleo::Nucleo;
use vstd::prelude::*;

verus! {

/// One row that the launcher can show and run.
#[derive(Debug)]
pub struct LauncherItem {
    pub name: String,
    pub entry: Entry,
}

/// The content of a `LauncherItem`.
pub struct LauncherItemView {
    pub name: Seq<char>,
    pub entry: EntryView,
}

impl View for LauncherItem {
    type V = LauncherItemView;

    open spec fn view(&self) -> LauncherItemView {
        LauncherItemView { name: self.name@, entry: self.entry@ }
    }
}

impl Clone for LauncherItem {
    fn clone(&self) -> (r: Self)
        ensures
            r@ == self@,
    {
        LauncherItem { name: self.name.clone(), entry: self.entry.clone() }
    }
}

/// The views of a sequence of items.
pub open spec fn item_views(v: Seq<LauncherItem>) -> Seq<LauncherItemView> {
    v.map_values(|it: LauncherItem| it@)
}

/// The name an item is shown under: the entry's own name when it has one,
/// the given key otherwise.
pub open spec fn display_name(key: Seq<char>, entry: EntryView) -> Seq<char> {
    if entry.name.len() == 0 {
        key
    } else {
        entry.name
    }
}

impl LauncherItem {
    pub fn new(name: String, entry: Entry) -> (r: Self)
        ensures
            r.name@ == display_name(name@, entry@),
            r.entry@ == entry@,
    {
        let display_name = if entry.name.as_str().is_empty() {
            name
        } else {
            entry.name.clone()
        };
        LauncherItem { name: display_name, entry }
    }

    pub fn search_text(&self) -> (r: String)
        ensures
            r@ == self.name@,
    {
        self.name.clone()
    }
}

/// A query split into free text and `#tag` filters.
#[derive(Debug)]
pub struct ParsedQuery {
    pub text: String,
    pub tags: Vec<String>,
}

/// A token that starts with `#`.
pub open spec fn is_tag_token(t: Seq<char>) -> bool {
    t.len() > 0 && t[0] == '#'
}

/// The tokens that are not `#` tokens, in order.
pub open spec fn text_tokens(ts: Seq<Seq<char>>) -> Seq<Seq<char>>
    decreases ts.len(),
{
    if ts.len() == 0 {
        seq![]
    } else if is_tag_token(ts.last()) {
        text_tokens(ts.drop_last())
    } else {
        text_tokens(ts.drop_last()).push(ts.last())
    }
}

/// The lowercased names of the non-empty `#` tokens, in order.
pub open spec fn tag_tokens(ts: Seq<Seq<char>>) -> Seq<Seq<char>>
    decreases ts.len(),
{
    if ts.len() == 0 {
        seq![]
    } else if is_tag_token(ts.last()) && ts.last().len() > 1 {
        tag_tokens(ts.drop_last()).push(lowercase(ts.last().drop_first()))
    } else {
        tag_tokens(ts.drop_last())
    }
}

/// The free text of a parsed query: its non-`#` words joined by single spaces.
pub open spec fn parsed_text(s: Seq<char>) -> Seq<char> {
    join(text_tokens(words(s)), seq![' '])
}

/// The tag filters of a parsed query: its non-empty `#` words without the `#`,
/// lowercased, in order.
pub open spec fn parsed_tags(s: Seq<char>) -> Seq<Seq<char>> {
    tag_tokens(words(s))
}

impl ParsedQuery {
    pub fn parse(input: &str) -> (r: Self)
        ensures
            r.text@ == parsed_text(input@),
            string_views(r.tags@) == parsed_tags(input@),
            forall|i: int| 0 <= i < r.tags.len() ==> (#[trigger] r.tags@[i])@.len() > 0,
    {
        let chars = chars_of(input);
        let tokens = split_whitespace(&chars);
        let ghost ts = vec_views(tokens@);
        let mut text_parts: Vec<Vec<char>> = Vec::new();
        let mut tags: Vec<String> = Vec::new();
        for i in 0..tokens.len()
            invariant
                ts == vec_views(tokens@),
                vec_views(text_parts@) == text_tokens(ts.take(i as int)),
                string_views(tags@) == tag_tokens(ts.take(i as int)),
                forall|j: int| 0 <= j < tags.len() ==> (#[trigger] tags@[j])@.len() > 0,
        {
            let token = &tokens[i];
            proof {
                assert(ts.take(i + 1).drop_last() =~= ts.take(i as int));
                assert(ts.take(i + 1).last() == token@);
            }
            if token.len() > 0 && token[0] == '#' {
                if token.len() > 1 {
                    let rest = slice_chars(token, 1, token.len());
                    let rest_s = string_from(&rest);
                    let lower = to_lowercase(rest_s.as_str());
                    let ghost prev = tags@;
                    tags.push(lower);
                    proof {
                        assert(rest@ =~= token@.drop_first());
                        assert(string_views(tags@) =~= string_views(prev).push(lower@));
                    }
                }
            } else {
                let ghost prev = text_parts@;
                text_parts.push(copy_chars(token));
                proof {
                    assert(vec_views(text_parts@) =~= vec_views(prev).push(token@));
                }
            }
        }
        proof {
            assert(ts.take(tokens.len() as int) =~= ts);
        }
        let mut sep: Vec<char> = Vec::new();
        sep.push(' ');
        proof {
            assert(sep@ =~= seq![' ']);
        }
        let text = join_chars(&text_parts, &sep);
        ParsedQuery { text: string_from(&text), tags }
    }
}


/// A word: not empty, no whitespace in it.
pub open spec fn is_word(w: Seq<char>) -> bool {
    w.len() > 0 && forall|i: int| 0 <= i < w.len() ==> !is_ws(#[trigger] w[i])
}

proof fn lemma_words_are_words(s: Seq<char>)
    ensures
        forall|k: int| 0 <= k < words(s).len() ==> is_word(#[trigger] words(s)[k]),
    decreases s.len(),
{
    if s.len() > 0 {
        lemma_words_are_words(s.drop_last());
        let prev = words(s.drop_last());
        let c = s.last();
        if !is_ws(c) && s.len() >= 2 && !is_ws(s[s.len() - 2]) {
            lemma_words_last(s.drop_last());
            assert(s.drop_last().last() == s[s.len() - 2]);
            let w = prev.last().push(c);
            assert(is_word(prev[prev.len() - 1]));
            assert forall|i: int| 0 <= i < w.len() implies !is_ws(#[trigger] w[i]) by {
                if i < w.len() - 1 {
                    assert(w[i] == prev[prev.len() - 1][i]);
                }
            }
            assert forall|k: int| 0 <= k < words(s).len() implies is_word(#[trigger] words(s)[k]) by {
                if k < prev.len() - 1 {
                    assert(words(s)[k] == prev[k]);
                }
            }
        }
    }
}

proof fn lemma_words_append_word(a: Seq<char>, w: Seq<char>)
    requires
        is_word(w),
        a.len() == 0 || is_ws(a.last()),
    ensures
        words(a + w) == words(a).push(w),
    decreases w.len(),
{
    let s = a + w;
    let c = w.last();
    assert(s.drop_last() =~= a + w.drop_last());
    assert(s.last() == c);
    if w.len() == 1 {
        assert(a + w.drop_last() =~= a);
        assert(w =~= seq![c]);
        if s.len() >= 2 {
            assert(s[s.len() - 2] == a.last());
        }
    } else {
        let w0 = w.drop_last();
        assert forall|i: int| 0 <= i < w0.len() implies !is_ws(#[trigger] w0[i]) by {
            assert(w0[i] == w[i]);
        }
        lemma_words_append_word(a, w0);
        assert(s[s.len() - 2] == w[w.len() - 2]);
        assert(w0.push(c) =~= w);
        assert(words(a).push(w0).update(words(a).len() as int, w0.push(c)) =~= words(a).push(w));
    }
}

proof fn lemma_words_of_join(ts: Seq<Seq<char>>)
    requires
        forall|k: int| 0 <= k < ts.len() ==> is_word(#[trigger] ts[k]),
    ensures
        words(join(ts, seq![' '])) == ts,
    decreases ts.len(),
{
    if ts.len() == 1 {
        lemma_words_append_word(seq![], ts[0]);
        assert(Seq::<char>::empty() + ts[0] =~= ts[0]);
        assert(seq![ts[0]] =~= ts);
    } else if ts.len() > 1 {
        let p = ts.drop_last();
        lemma_words_of_join(p);
        let a = join(p, seq![' ']) + seq![' '];
        assert(a.drop_last() =~= join(p, seq![' ']));
        assert(words(a) == words(join(p, seq![' '])));
        assert(is_word(ts[ts.len() - 1]));
        lemma_words_append_word(a, ts.last());
        assert(p.push(ts.last()) =~= ts);
    } else {
        assert(words(Seq::<char>::empty()) =~= Seq::<Seq<char>>::empty());
    }
}

proof fn lemma_text_tokens_words(ts: Seq<Seq<char>>)
    requires
        forall|k: int| 0 <= k < ts.len() ==> is_word(#[trigger] ts[k]),
    ensures
        forall|k: int| 0 <= k < text_tokens(ts).len() ==> is_word(#[trigger] text_tokens(ts)[k])
            && !is_tag_token(text_tokens(ts)[k]),
    decreases ts.len(),
{
    if ts.len() > 0 {
        assert forall|k: int| 0 <= k < ts.drop_last().len() implies is_word(#[trigger] ts.drop_last()[k]) by {
            assert(ts.drop_last()[k] == ts[k]);
        }
        lemma_text_tokens_words(ts.drop_last());
        assert(is_word(ts[ts.len() - 1]));
        let p = text_tokens(ts.drop_last());
        if !is_tag_token(ts.last()) {
            assert forall|k: int| 0 <= k < text_tokens(ts).len() implies is_word(#[trigger] text_tokens(ts)[k])
                && !is_tag_token(text_tokens(ts)[k]) by {
                if k < p.len() {
                    assert(text_tokens(ts)[k] == p[k]);
                }
            }
        }
    }
}

proof fn lemma_no_tag_tokens(ts: Seq<Seq<char>>)
    requires
        forall|k: int| 0 <= k < ts.len() ==> !is_tag_token(#[trigger] ts[k]),
    ensures
        text_tokens(ts) == ts,
        tag_tokens(ts) == Seq::<Seq<char>>::empty(),
    decreases ts.len(),
{
    if ts.len() > 0 {
        assert forall|k: int| 0 <= k < ts.drop_last().len() implies !is_tag_token(#[trigger] ts.drop_last()[k]) by {
            assert(ts.drop_last()[k] == ts[k]);
        }
        lemma_no_tag_tokens(ts.drop_last());
        assert(!is_tag_token(ts[ts.len() - 1]));
        assert(ts.drop_last().push(ts.last()) =~= ts);
    }
}

/// A parsed query's text is in normal form: it is its own words joined by single
/// spaces, none of them a `#` word, and parsing it again gives the same text and
/// no tags.
pub proof fn lemma_parse_normal_form(s: Seq<char>)
    ensures
        join(words(parsed_text(s)), seq![' ']) == parsed_text(s),
        forall|k: int|
            0 <= k < words(parsed_text(s)).len() ==> !is_tag_token(#[trigger] words(parsed_text(s))[k]),
        parsed_text(parsed_text(s)) == parsed_text(s),
        parsed_tags(parsed_text(s)) == Seq::<Seq<char>>::empty(),
{
    let ts = text_tokens(words(s));
    lemma_words_are_words(s);
    lemma_text_tokens_words(words(s));
    lemma_words_of_join(ts);
    lemma_no_tag_tokens(ts);
}

// ---------------------------------------------------------------------------
// The fuzzy matcher
// ---------------------------------------------------------------------------

#[verifier::external_type_specification]
#[verifier::external_body]
#[verifier::reject_recursive_types(T)]
pub struct ExNucleo<T: Sync + Send + 'static>(Nucleo<T>);

/// The items pushed into a matcher, in push order.
pub uninterp spec fn matcher_items(m: Nucleo<LauncherItem>) -> Seq<LauncherItemView>;

/// The column texts handed to the matcher with the pushed items, in push order.
/// (The matcher itself keeps each as a UTF-32 string with one character per
/// grapheme, which this name does not describe.)
pub uninterp spec fn matcher_texts(m: Nucleo<LauncherItem>) -> Seq<Seq<char>>;

/// The atoms of the matcher's one-column pattern, each taken as the characters of
/// its needle. The matcher keeps only these atoms, not the query they came from.
pub uninterp spec fn matcher_pattern(m: Nucleo<LauncherItem>) -> Seq<Seq<char>>;

/// The atoms, each taken as the characters of its needle, that nucleo's
/// `Pattern::reparse` parses from `query` when case is respected or ignored and
/// with smart or no normalisation. Only the same arguments are claimed to give
/// the same atoms.
pub uninterp spec fn parsed_pattern(query: Seq<char>, case_sensitive: bool, smart_normalization: bool) -> Seq<Seq<char>>;

/// The items that the matcher's current snapshot holds as matches, best first.
pub uninterp spec fn matched_seq(m: Nucleo<LauncherItem>) -> Seq<LauncherItemView>;

/// A fresh single-column matcher. Calls `Nucleo::new`; a new matcher holds no
/// items and its snapshot no matches.
#[verifier::external_body]
fn matcher_new() -> (m: Nucleo<LauncherItem>)
    ensures
        matcher_items(m) == Seq::<LauncherItemView>::empty(),
        matcher_texts(m) == Seq::<Seq<char>>::empty(),
        matched_seq(m) == Seq::<LauncherItemView>::empty(),
{
    Nucleo::new(nucleo::Config::DEFAULT, std::sync::Arc::new(|| {}), None, 1)
}

/// Adds an item with `text` as its column text. Calls `Injector::push` on the matcher's
/// injector, which appends the item after the ones already pushed, and hands it
/// `text` as the column text; the pattern and the snapshot are untouched until
/// the next tick.
#[verifier::external_body]
fn matcher_push(m: &mut Nucleo<LauncherItem>, item: LauncherItem, text: String)
    ensures
        matcher_items(*final(m)) == matcher_items(*old(m)).push(item@),
        matcher_texts(*final(m)) == matcher_texts(*old(m)).push(text@),
        matcher_pattern(*final(m)) == matcher_pattern(*old(m)),
        matched_seq(*final(m)) == matched_seq(*old(m)),
{
    m.injector().push(item, move |_data, cols| {
        cols[0] = text.into();
    });
}

/// Sets the pattern of the matcher's one column to the atoms parsed from `query`,
/// respecting case or ignoring it, with smart or no normalisation. Calls
/// `MultiPattern::reparse`, which (without `append`) replaces the column's atoms
/// by those that `Pattern::reparse` parses from these arguments; the pushed items
/// and the snapshot are untouched until the next tick.
#[verifier::external_body]
fn matcher_reparse(m: &mut Nucleo<LauncherItem>, query: &str, case_sensitive: bool, smart_normalization: bool)
    ensures
        matcher_items(*final(m)) == matcher_items(*old(m)),
        matcher_texts(*final(m)) == matcher_texts(*old(m)),
        matched_seq(*final(m)) == matched_seq(*old(m)),
        matcher_pattern(*final(m)) == parsed_pattern(query@, case_sensitive, smart_normalization),
{
    let case = if case_sensitive {
        CaseMatching::Respect
    } else {
        CaseMatching::Ignore
    };
    let normalization = if smart_normalization {
        Normalization::Smart
    } else {
        Normalization::Never
    };
    m.pattern.reparse(0, query, case, normalization, false);
}

/// Lets the matcher work for up to `timeout` milliseconds and reports whether its
/// snapshot changed. Calls `Nucleo::tick`, which replaces the snapshot only when
/// it reports a change; what the new snapshot holds depends on timing.
#[verifier::external_body]
fn matcher_tick(m: &mut Nucleo<LauncherItem>, timeout: u64) -> (changed: bool)
    ensures
        matcher_items(*final(m)) == matcher_items(*old(m)),
        matcher_texts(*final(m)) == matcher_texts(*old(m)),
        matcher_pattern(*final(m)) == matcher_pattern(*old(m)),
        !changed ==> matched_seq(*final(m)) == matched_seq(*old(m)),
{
    m.tick(timeout).changed
}

/// The number of matches in the snapshot, as a `u32`. Calls
/// `Snapshot::matched_item_count`, which truncates the count to 32 bits.
#[verifier::external_body]
fn matched_count(m: &Nucleo<LauncherItem>) -> (n: u32)
    ensures
        n as int == matched_seq(*m).len() % 0x1_0000_0000,
{
    m.snapshot().matched_item_count()
}

/// The first `n` matches, best first. Calls `Snapshot::matched_items`, which panics
/// past the match count and yields items that were pushed into the matcher.
#[verifier::external_body]
fn matched_prefix(m: &Nucleo<LauncherItem>, n: u32) -> (r: Vec<LauncherItem>)
    requires
        n <= matched_seq(*m).len(),
    ensures
        item_views(r@) == matched_seq(*m).take(n as int),
        forall|i: int| 0 <= i < r.len() ==> matcher_items(*m).contains(#[trigger] r@[i]@),
{
    m.snapshot().matched_items(..n).map(|it| it.data.clone()).collect()
}

// ---------------------------------------------------------------------------
// Tag filtering
// ---------------------------------------------------------------------------

/// One of the item's tags, lowercased, contains `tag`.
pub open spec fn item_has_tag(item: LauncherItemView, tag: Seq<char>) -> bool {
    exists|j: int| 0 <= j < item.entry.tag.len() && contains_seq(lowercase(item.entry.tag[j]), tag)
}

/// The item carries every tag of the filter.
pub open spec fn item_has_tags(item: LauncherItemView, tags: Seq<Seq<char>>) -> bool {
    forall|k: int| 0 <= k < tags.len() ==> item_has_tag(item, #[trigger] tags[k])
}

/// The items that carry every tag, in their order.
pub open spec fn tagged(items: Seq<LauncherItemView>, tags: Seq<Seq<char>>) -> Seq<LauncherItemView>
    decreases items.len(),
{
    if items.len() == 0 {
        seq![]
    } else if item_has_tags(items.last(), tags) {
        tagged(items.drop_last(), tags).push(items.last())
    } else {
        tagged(items.drop_last(), tags)
    }
}

/// Filtering keeps only items of the input that carry every tag.
pub proof fn lemma_tagged_subset(items: Seq<LauncherItemView>, tags: Seq<Seq<char>>)
    ensures
        tagged(items, tags).len() <= items.len(),
        forall|i: int| 0 <= i < tagged(items, tags).len() ==> items.contains(#[trigger] tagged(items, tags)[i])
            && item_has_tags(tagged(items, tags)[i], tags),
    decreases items.len(),
{
    if items.len() > 0 {
        lemma_tagged_subset(items.drop_last(), tags);
        let p = tagged(items.drop_last(), tags);
        assert forall|i: int| 0 <= i < tagged(items, tags).len() implies items.contains(#[trigger] tagged(items, tags)[i]) by {
            if i < p.len() {
                let k = choose|k: int| 0 <= k < items.drop_last().len() && items.drop_last()[k] == p[i];
                assert(items[k] == p[i]);
            } else {
                assert(items[items.len() - 1] == items.last());
            }
        }
    }
}

/// An item that the tag filter admits carries each tag of the filter: the `k`th
/// tag is contained in one of the item's own tags, lowercased.
pub proof fn lemma_tag_filter_each(item: LauncherItemView, tags: Seq<Seq<char>>, k: int)
    requires
        0 <= k < tags.len(),
        item_has_tags(item, tags),
    ensures
        exists|j: int| 0 <= j < item.entry.tag.len() && contains_seq(lowercase(#[trigger] item.entry.tag[j]), tags[k]),
{
    assert(item_has_tag(item, tags[k]));
}

/// A tag of the filter that none of the item's own tags (lowercased) contains
/// shuts the item out.
pub proof fn lemma_tag_filter_missing(item: LauncherItemView, tags: Seq<Seq<char>>, k: int)
    requires
        0 <= k < tags.len(),
        forall|j: int| 0 <= j < item.entry.tag.len() ==> !contains_seq(lowercase(#[trigger] item.entry.tag[j]), tags[k]),
    ensures
        !item_has_tags(item, tags),
{
    if item_has_tags(item, tags) {
        lemma_tag_filter_each(item, tags, k);
    }
}

/// An item of which each tag of the filter is contained in one of its own tags
/// (lowercased) passes the filter.
pub proof fn lemma_tag_filter_admits(item: LauncherItemView, tags: Seq<Seq<char>>)
    requires
        forall|k: int|
            #![trigger tags[k]]
            0 <= k < tags.len() ==> exists|j: int|
                0 <= j < item.entry.tag.len() && contains_seq(lowercase(#[trigger] item.entry.tag[j]), tags[k]),
    ensures
        item_has_tags(item, tags),
{
    assert forall|k: int| 0 <= k < tags.len() implies item_has_tag(item, #[trigger] tags[k]) by {
        assert(tags[k] == tags[k]);
    }
}

/// Each item that filtering by tags keeps carries each tag of the filter: the
/// `k`th tag is contained in one of its own tags, lowercased; and it is one of
/// the items.
pub proof fn lemma_tagged_each(items: Seq<LauncherItemView>, tags: Seq<Seq<char>>, i: int, k: int)
    requires
        0 <= i < tagged(items, tags).len(),
        0 <= k < tags.len(),
    ensures
        items.contains(tagged(items, tags)[i]),
        exists|j: int|
            0 <= j < tagged(items, tags)[i].entry.tag.len() && contains_seq(
                lowercase(#[trigger] tagged(items, tags)[i].entry.tag[j]),
                tags[k],
            ),
{
    lemma_tagged_subset(items, tags);
    lemma_tag_filter_each(tagged(items, tags)[i], tags, k);
}

/// Filtering by tags keeps every item of which each tag of the filter is
/// contained in one of its own tags, lowercased.
pub proof fn lemma_tagged_keeps(items: Seq<LauncherItemView>, tags: Seq<Seq<char>>, x: LauncherItemView)
    requires
        items.contains(x),
        forall|k: int|
            #![trigger tags[k]]
            0 <= k < tags.len() ==> exists|j: int|
                0 <= j < x.entry.tag.len() && contains_seq(lowercase(#[trigger] x.entry.tag[j]), tags[k]),
    ensures
        tagged(items, tags).contains(x),
    decreases items.len(),
{
    lemma_tag_filter_admits(x, tags);
    let p = tagged(items.drop_last(), tags);
    let w = choose|w: int| 0 <= w < items.len() && items[w] == x;
    if w < items.len() - 1 {
        assert(items.drop_last()[w] == x);
        lemma_tagged_keeps(items.drop_last(), tags, x);
        let z = choose|z: int| 0 <= z < p.len() && p[z] == x;
        assert(tagged(items, tags)[z] == x);
    } else {
        assert(tagged(items, tags)[p.len() as int] == x);
    }
}

/// With no tags, filtering keeps everything.
pub proof fn lemma_tagged_no_tags(items: Seq<LauncherItemView>)
    ensures
        tagged(items, seq![]) == items,
    decreases items.len(),
{
    if items.len() > 0 {
        lemma_tagged_no_tags(items.drop_last());
        assert(items.drop_last().push(items.last()) =~= items);
    }
}

/// Whether the item carries every tag of `tags`.
pub fn matches_tags(item: &LauncherItem, tags: &Vec<String>) -> (b: bool)
    ensures
        b == item_has_tags(item@, string_views(tags@)),
{
    let mut lowered: Vec<Vec<char>> = Vec::new();
    for j in 0..item.entry.tag.len()
        invariant
            lowered.len() == j,
            forall|q: int| 0 <= q < j ==> #[trigger] lowered@[q]@ == lowercase(item.entry.tag@[q]@),
    {
        let l = to_lowercase(item.entry.tag[j].as_str());
        lowered.push(chars_of(l.as_str()));
    }
    for k in 0..tags.len()
        invariant
            lowered.len() == item.entry.tag.len(),
            forall|q: int| 0 <= q < lowered.len() ==> #[trigger] lowered@[q]@ == lowercase(item.entry.tag@[q]@),
            forall|q: int| 0 <= q < k ==> item_has_tag(item@, #[trigger] string_views(tags@)[q]),
    {
        let want = chars_of(tags[k].as_str());
        let mut found = false;
        for j in 0..lowered.len()
            invariant
                lowered.len() == item.entry.tag.len(),
                forall|q: int| 0 <= q < lowered.len() ==> #[trigger] lowered@[q]@ == lowercase(item.entry.tag@[q]@),
                want@ == tags@[k as int]@,
                found ==> item_has_tag(item@, want@),
                !found ==> forall|q: int| 0 <= q < j ==> !contains_seq(lowercase(item.entry.tag@[q]@), want@),
        {
            if !found && contains_chars(&lowered[j], &want) {
                found = true;
                proof {
                    assert(item@.entry.tag[j as int] == item.entry.tag@[j as int]@);
                }
            }
        }
        if !found {
            proof {
                assert forall|q: int| 0 <= q < item@.entry.tag.len() implies !contains_seq(lowercase(item@.entry.tag[q]), want@) by {
                    assert(item@.entry.tag[q] == item.entry.tag@[q]@);
                }
                assert(string_views(tags@)[k as int] == want@);
            }
            return false;
        }
        proof {
            assert(string_views(tags@)[k as int] == want@);
        }
    }
    true
}

/// The items that carry every tag, in their order.
pub fn filter_by_tags(cands: Vec<LauncherItem>, tags: &Vec<String>) -> (r: Vec<LauncherItem>)
    ensures
        item_views(r@) == tagged(item_views(cands@), string_views(tags@)),
{
    let ghost cv = item_views(cands@);
    let mut r: Vec<LauncherItem> = Vec::new();
    for i in 0..cands.len()
        invariant
            cv == item_views(cands@),
            item_views(r@) == tagged(cv.take(i as int), string_views(tags@)),
    {
        proof {
            assert(cv.take(i + 1).drop_last() =~= cv.take(i as int));
            assert(cv.take(i + 1).last() == cands@[i as int]@);
        }
        if matches_tags(&cands[i], tags) {
            let ghost prev = r@;
            r.push(cands[i].clone());
            proof {
                assert(item_views(r@) =~= item_views(prev).push(cands@[i as int]@));
            }
        }
    }
    proof {
        assert(cv.take(cands.len() as int) =~= cv);
    }
    r
}

/// A copy of a list of items.
pub fn clone_items(v: &Vec<LauncherItem>) -> (r: Vec<LauncherItem>)
    ensures
        item_views(r@) == item_views(v@),
{
    let mut r: Vec<LauncherItem> = Vec::new();
    for i in 0..v.len()
        invariant
            item_views(r@) == item_views(v@.take(i as int)),
    {
        let ghost prev = r@;
        r.push(v[i].clone());
        proof {
            assert(item_views(r@) =~= item_views(prev).push(v@[i as int]@));
            assert(v@.take(i + 1) =~= v@.take(i as int).push(v@[i as int]));
        }
    }
    proof {
        assert(v@.take(v.len() as int) =~= v@);
    }
    r
}

/// What results may be for a query with free text `query` and tag filters `tags`:
/// with no text, exactly the items that carry every tag, in their order; with
/// text, at most fifty of the items, each carrying every tag.
pub open spec fn results_fit(
    res: Seq<LauncherItemView>,
    items: Seq<LauncherItemView>,
    query: Seq<char>,
    tags: Seq<Seq<char>>,
) -> bool {
    if query.len() == 0 {
        res == tagged(items, tags)
    } else {
        &&& res.len() <= 50
        &&& forall|i: int| 0 <= i < res.len() ==> items.contains(#[trigger] res[i]) && item_has_tags(res[i], tags)
    }
}

/// The column texts handed to the matcher for items: their names, lowercased unless the search is
/// case sensitive.
pub open spec fn haystack(items: Seq<LauncherItemView>, case_sensitive: bool) -> Seq<Seq<char>> {
    items.map_values(|it: LauncherItemView| if case_sensitive { it.name } else { lowercase(it.name) })
}

/// The matches a search shows: the first fifty of the snapshot's matches, or
/// fewer when the snapshot (counted in 32 bits) holds fewer.
pub open spec fn top_matches(ms: Seq<LauncherItemView>) -> Seq<LauncherItemView> {
    let n: int = (ms.len() % 0x1_0000_0000) as int;
    ms.take(if n < 50 { n } else { 50int })
}

/// What a search shows for free text `query` and tag filters `tags`: without
/// text, the items that carry every tag, in their order; with text, of the best
/// matches that a matcher over `items` (handed `haystack(items, case_sensitive)`
/// as their texts, with the atoms parsed from `query`, case as asked, smart
/// normalisation) holds, the first fifty that carry every tag.
pub open spec fn matched_outcome(
    res: Seq<LauncherItemView>,
    items: Seq<LauncherItemView>,
    query: Seq<char>,
    tags: Seq<Seq<char>>,
    case_sensitive: bool,
) -> bool {
    if query.len() == 0 {
        res == tagged(items, tags)
    } else {
        exists|m: Nucleo<LauncherItem>|
            #[trigger] matcher_pattern(m) == parsed_pattern(query, case_sensitive, true) && matcher_items(m) == items
                && matcher_texts(m) == haystack(items, case_sensitive) && res == tagged(
                top_matches(matched_seq(m)),
                tags,
            )
    }
}

/// A matcher holding `items`, handed `haystack(items, case_sensitive)` as texts, with
/// no matches yet.
fn matcher_with(items: &Vec<LauncherItem>, case_sensitive: bool) -> (m: Nucleo<LauncherItem>)
    ensures
        matcher_items(m) == item_views(items@),
        matcher_texts(m) == haystack(item_views(items@), case_sensitive),
        matched_seq(m) == Seq::<LauncherItemView>::empty(),
{
    let mut matcher = matcher_new();
    for i in 0..items.len()
        invariant
            matcher_items(matcher) == item_views(items@.take(i as int)),
            matcher_texts(matcher) == haystack(item_views(items@.take(i as int)), case_sensitive),
            matched_seq(matcher) == Seq::<LauncherItemView>::empty(),
    {
        let text = if case_sensitive {
            items[i].search_text()
        } else {
            to_lowercase(items[i].search_text().as_str())
        };
        let owned = items[i].clone();
        matcher_push(&mut matcher, owned, text);
        proof {
            assert(item_views(items@.take(i + 1)) =~= item_views(items@.take(i as int)).push(
                items@[i as int]@,
            ));
            assert(haystack(item_views(items@.take(i + 1)), case_sensitive) =~= haystack(
                item_views(items@.take(i as int)),
                case_sensitive,
            ).push(text@));
        }
    }
    proof {
        assert(items@.take(items.len() as int) =~= items@);
    }
    matcher
}

/// Whether two strings hold the same characters.
fn same_string(a: &String, b: &String) -> (r: bool)
    ensures
        r == (a@ == b@),
{
    *a == *b
}

/// Whether two items have the same content.
pub fn same_item(a: &LauncherItem, b: &LauncherItem) -> (r: bool)
    ensures
        r == (a@ == b@),
{
    if !same_string(&a.name, &b.name) || !same_string(&a.entry.name, &b.entry.name)
        || !same_string(&a.entry.command, &b.entry.command) {
        return false;
    }
    let same_meta = match (&a.entry.inline_meta, &b.entry.inline_meta) {
        (Some(x), Some(y)) => same_string(x, y),
        (None, None) => true,
        _ => false,
    };
    if !same_meta {
        return false;
    }
    if a.entry.tag.len() != b.entry.tag.len() {
        proof {
            assert(a@.entry.tag.len() != b@.entry.tag.len());
        }
        return false;
    }
    for i in 0..a.entry.tag.len()
        invariant
            a.entry.tag.len() == b.entry.tag.len(),
            forall|j: int| 0 <= j < i ==> a.entry.tag@[j]@ == b.entry.tag@[j]@,
    {
        if !same_string(&a.entry.tag[i], &b.entry.tag[i]) {
            proof {
                assert(a@.entry.tag[i as int] != b@.entry.tag[i as int]);
            }
            return false;
        }
    }
    proof {
        assert(a@.entry.tag =~= b@.entry.tag);
    }
    true
}

/// Whether two item lists have the same content.
pub fn same_items(a: &Vec<LauncherItem>, b: &Vec<LauncherItem>) -> (r: bool)
    ensures
        r == (item_views(a@) == item_views(b@)),
{
    if a.len() != b.len() {
        proof {
            assert(item_views(a@).len() != item_views(b@).len());
        }
        return false;
    }
    for i in 0..a.len()
        invariant
            a.len() == b.len(),
            forall|j: int| 0 <= j < i ==> a@[j]@ == b@[j]@,
    {
        if !same_item(&a[i], &b[i]) {
            proof {
                assert(item_views(a@)[i as int] != item_views(b@)[i as int]);
            }
            return false;
        }
    }
    proof {
        assert(item_views(a@) =~= item_views(b@));
    }
    true
}

/// Matches of a query. Without a query (no text and no tags) the results are all
/// items; otherwise they are the best fuzzy matches of the text, at most fifty,
/// that carry every tag, or, with tags alone, every item that carries them.
/// Unless the search is case sensitive, names are lowercased and the text is
/// matched ignoring case.
pub struct FuzzySearch {
    matcher: Nucleo<LauncherItem>,
    pub results: Vec<LauncherItem>,
    all_items: Vec<LauncherItem>,
    has_query: bool,
    current_query: String,
    current_tags: Vec<String>,
    case_sensitive: bool,
}

impl FuzzySearch {
    /// The items searched, in their order.
    pub closed spec fn items(&self) -> Seq<LauncherItemView> {
        item_views(self.all_items@)
    }

    /// The current results, in order.
    pub closed spec fn result_views(&self) -> Seq<LauncherItemView> {
        item_views(self.results@)
    }

    /// The current results.
    pub fn result_list(&self) -> (r: &Vec<LauncherItem>)
        ensures
            item_views(r@) == self.result_views(),
    {
        &self.results
    }

    /// The free text of the current query.
    pub closed spec fn query(&self) -> Seq<char> {
        self.current_query@
    }

    /// The tag filters of the current query.
    pub closed spec fn tags(&self) -> Seq<Seq<char>> {
        string_views(self.current_tags@)
    }

    /// Whether a query (text or tags) is in force.
    pub closed spec fn is_querying(&self) -> bool {
        self.has_query
    }

    /// Whether matching respects case.
    pub closed spec fn is_case_sensitive(&self) -> bool {
        self.case_sensitive
    }

    /// The atoms of the matcher's pattern (see `matcher_pattern`).
    pub closed spec fn pattern(&self) -> Seq<Seq<char>> {
        matcher_pattern(self.matcher)
    }

    /// The column texts handed to the matcher with the items.
    pub closed spec fn texts(&self) -> Seq<Seq<char>> {
        matcher_texts(self.matcher)
    }

    /// The matches in the matcher's latest snapshot, best first.
    pub closed spec fn matches(&self) -> Seq<LauncherItemView> {
        matched_seq(self.matcher)
    }

    /// What the results are: without text, the items carrying every tag; with
    /// text, those of the snapshot's first fifty matches that carry every tag.
    pub open spec fn shown(&self) -> Seq<LauncherItemView> {
        if self.query().len() == 0 {
            tagged(self.items(), self.tags())
        } else {
            tagged(top_matches(self.matches()), self.tags())
        }
    }

    /// The matcher holds exactly the items, handed their haystack texts; while
    /// a query is in force its pattern is the atoms parsed from the query; the results are what
    /// `shown` says and fit the query.
    pub closed spec fn wf(&self) -> bool {
        &&& matcher_items(self.matcher) == item_views(self.all_items@)
        &&& matcher_texts(self.matcher) == haystack(self.items(), self.case_sensitive)
        &&& (self.has_query ==> matcher_pattern(self.matcher) == parsed_pattern(self.query(), self.case_sensitive, true))
        &&& item_views(self.results@) == self.shown()
        &&& results_fit(item_views(self.results@), self.items(), self.query(), self.tags())
        &&& (!self.has_query ==> self.current_query@.len() == 0 && self.current_tags.len() == 0)
    }

    /// What a well-formed search states of its results and its matcher.
    pub proof fn lemma_shown(&self)
        requires
            self.wf(),
        ensures
            self.result_views() == self.shown(),
            results_fit(self.result_views(), self.items(), self.query(), self.tags()),
            self.texts() == haystack(self.items(), self.is_case_sensitive()),
            self.is_querying() ==> self.pattern() == parsed_pattern(self.query(), self.is_case_sensitive(), true),
            !self.is_querying() ==> self.query().len() == 0 && self.tags().len() == 0,
            matched_outcome(self.result_views(), self.items(), self.query(), self.tags(), self.is_case_sensitive()),
    {
        if self.query().len() > 0 {
            assert(matcher_pattern(self.matcher) == parsed_pattern(self.query(), self.case_sensitive, true));
        }
    }

    /// Every result carries every tag of the query: the `k`th tag is contained in
    /// one of the `i`th result's own tags, lowercased.
    pub proof fn lemma_results_carry_tags(&self, i: int, k: int)
        requires
            self.wf(),
            0 <= i < self.result_views().len(),
            0 <= k < self.tags().len(),
        ensures
            exists|j: int|
                0 <= j < self.result_views()[i].entry.tag.len() && contains_seq(
                    lowercase(#[trigger] self.result_views()[i].entry.tag[j]),
                    self.tags()[k],
                ),
    {
        let src = if self.query().len() == 0 {
            self.items()
        } else {
            top_matches(self.matches())
        };
        assert(self.result_views() == tagged(src, self.tags()));
        lemma_tagged_each(src, self.tags(), i, k);
    }

    /// There are never more results than items plus fifty.
    pub proof fn lemma_results_len(&self)
        requires
            self.wf(),
        ensures
            self.result_views().len() <= self.items().len() + 50,
    {
        lemma_tagged_subset(self.items(), self.tags());
    }

    pub fn new(items: Vec<LauncherItem>, case_sensitive: bool) -> (r: Self)
        ensures
            r.wf(),
            r.items() == item_views(items@),
            r.result_views() == item_views(items@),
            r.result_views() == r.shown(),
            results_fit(r.result_views(), r.items(), r.query(), r.tags()),
            r.query().len() == 0,
            r.tags().len() == 0,
            !r.is_querying(),
            r.is_case_sensitive() == case_sensitive,
            r.texts() == haystack(item_views(items@), case_sensitive),
            r.matches().len() == 0,
    {
        let matcher = matcher_with(&items, case_sensitive);
        proof {
            lemma_tagged_no_tags(item_views(items@));
        }
        let results = clone_items(&items);
        let r = FuzzySearch {
            matcher,
            results,
            all_items: items,
            has_query: false,
            current_query: String::new(),
            current_tags: Vec::new(),
            case_sensitive,
        };
        proof {
            assert(r.tags() =~= seq![]);
        }
        r
    }

    /// Sets the query: its free text and `#tag` filters. Without either, every
    /// item is shown; otherwise the matcher is given the text as its pattern and
    /// ticked, and the results are rebuilt (see `shown`).
    pub fn update(&mut self, raw_query: &str)
        requires
            old(self).wf(),
        ensures
            final(self).wf(),
            final(self).items() == old(self).items(),
            final(self).query() == join(text_tokens(words(raw_query@)), seq![' ']),
            final(self).tags() == tag_tokens(words(raw_query@)),
            final(self).is_querying() == (final(self).query().len() > 0 || final(self).tags().len() > 0),
            final(self).is_case_sensitive() == old(self).is_case_sensitive(),
            final(self).texts() == old(self).texts(),
            final(self).is_querying() ==> final(self).pattern() == parsed_pattern(
                final(self).query(),
                final(self).is_case_sensitive(),
                true,
            ),
            !final(self).is_querying() ==> final(self).result_views() == final(self).items(),
            final(self).result_views() == final(self).shown(),
            results_fit(final(self).result_views(), final(self).items(), final(self).query(), final(self).tags()),
            matched_outcome(
                final(self).result_views(),
                final(self).items(),
                final(self).query(),
                final(self).tags(),
                final(self).is_case_sensitive(),
            ),
    {
        let parsed = ParsedQuery::parse(raw_query);
        self.current_query = parsed.text;
        self.current_tags = parsed.tags;
        if self.current_query.as_str().is_empty() && self.current_tags.len() == 0 {
            self.results = clone_items(&self.all_items);
            self.has_query = false;
            proof {
                assert(self.tags() =~= seq![]);
                lemma_tagged_no_tags(self.items());
                self.lemma_shown();
            }
            return;
        }
        self.has_query = true;
        self.rebuild_results();
        proof {
            self.lemma_shown();
        }
    }

    fn rebuild_results(&mut self)
        requires
            matcher_items(old(self).matcher) == item_views(old(self).all_items@),
            matcher_texts(old(self).matcher) == haystack(old(self).items(), old(self).case_sensitive),
            old(self).has_query,
        ensures
            final(self).wf(),
            final(self).all_items == old(self).all_items,
            final(self).current_query == old(self).current_query,
            final(self).current_tags == old(self).current_tags,
            final(self).has_query == old(self).has_query,
            final(self).case_sensitive == old(self).case_sensitive,
            matcher_items(final(self).matcher) == matcher_items(old(self).matcher),
            matcher_texts(final(self).matcher) == matcher_texts(old(self).matcher),
    {
        matcher_reparse(&mut self.matcher, self.current_query.as_str(), self.case_sensitive, true);
        let _changed = matcher_tick(&mut self.matcher, 50);
        let candidates = if self.current_query.as_str().is_empty() {
            clone_items(&self.all_items)
        } else {
            let count = matched_count(&self.matcher);
            let n = if count < 50 {
                count
            } else {
                50
            };
            matched_prefix(&self.matcher, n)
        };
        let ghost cv = item_views(candidates@);
        proof {
            if self.current_query@.len() != 0 {
                assert(cv == top_matches(matched_seq(self.matcher)));
                assert forall|i: int| 0 <= i < cv.len() implies self.items().contains(#[trigger] cv[i]) by {
                    assert(cv[i] == candidates@[i]@);
                }
            }
        }
        self.results = filter_by_tags(candidates, &self.current_tags);
        proof {
            lemma_tagged_subset(cv, self.tags());
            if self.current_query@.len() != 0 {
                let res = item_views(self.results@);
                assert forall|i: int| 0 <= i < res.len() implies self.items().contains(#[trigger] res[i])
                    && item_has_tags(res[i], self.tags()) by {
                    let k = choose|k: int| 0 <= k < cv.len() && cv[k] == res[i];
                    assert(self.items().contains(cv[k]));
                }
            }
        }
    }

    /// Replaces the items searched, keeping the query, and reports whether the items
    /// changed; when they did not, nothing changes. A new matcher is built over the
    /// new items and, while a query is in force, the results are rebuilt from it.
    pub fn replace_items(&mut self, items: Vec<LauncherItem>) -> (changed: bool)
        requires
            old(self).wf(),
        ensures
            final(self).wf(),
            final(self).items() == item_views(items@),
            final(self).query() == old(self).query(),
            final(self).tags() == old(self).tags(),
            final(self).is_querying() == old(self).is_querying(),
            final(self).is_case_sensitive() == old(self).is_case_sensitive(),
            final(self).texts() == haystack(item_views(items@), old(self).is_case_sensitive()),
            final(self).is_querying() ==> final(self).pattern() == parsed_pattern(
                final(self).query(),
                final(self).is_case_sensitive(),
                true,
            ),
            changed == (item_views(items@) != old(self).items()),
            !changed ==> *final(self) == *old(self),
            !final(self).is_querying() ==> final(self).result_views() == final(self).items(),
            final(self).result_views() == final(self).shown(),
            matched_outcome(
                final(self).result_views(),
                final(self).items(),
                final(self).query(),
                final(self).tags(),
                final(self).is_case_sensitive(),
            ),
    {
        proof {
            if !self.has_query {
                assert(self.tags() =~= seq![]);
                lemma_tagged_no_tags(self.items());
            }
            self.lemma_shown();
        }
        if same_items(&self.all_items, &items) {
            return false;
        }
        self.matcher = matcher_with(&items, self.case_sensitive);
        self.all_items = items;
        if self.has_query {
            self.rebuild_results();
        } else {
            self.results = clone_items(&self.all_items);
            proof {
                lemma_tagged_no_tags(self.items());
            }
        }
        proof {
            self.lemma_shown();
        }
        true
    }

    /// Lets the matcher work briefly; when it reports new matches for a query,
    /// the results are rebuilt from its snapshot. Without a query nothing
    /// changes. Whether the matcher has news rests on its background threads.
    pub fn tick(&mut self)
        requires
            old(self).wf(),
        ensures
            final(self).wf(),
            final(self).items() == old(self).items(),
            final(self).query() == old(self).query(),
            final(self).tags() == old(self).tags(),
            final(self).is_querying() == old(self).is_querying(),
            final(self).is_case_sensitive() == old(self).is_case_sensitive(),
            final(self).texts() == old(self).texts(),
            final(self).pattern() == old(self).pattern(),
            !old(self).is_querying() ==> final(self).result_views() == old(self).result_views(),
            !old(self).is_querying() ==> *final(self) == *old(self),
            final(self).matches() == old(self).matches() ==> final(self).result_views() == old(self).result_views(),
            final(self).result_views() == final(self).shown(),
            results_fit(final(self).result_views(), final(self).items(), final(self).query(), final(self).tags()),
            matched_outcome(
                final(self).result_views(),
                final(self).items(),
                final(self).query(),
                final(self).tags(),
                final(self).is_case_sensitive(),
            ),
    {
        if self.has_query && matcher_tick(&mut self.matcher, 0) {
            self.rebuild_results();
        }
        proof {
            self.lemma_shown();
        }
    }
}

} // verus!
