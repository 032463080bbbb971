//! Configuration values with their documented defaults, and the script table.
use indexmap::IndexMap;
use vstd::prelude::*;
use crate::text::string_views;

verus! {

/// Window size in logical pixels.
#[derive(Debug)]
pub struct WindowConfig {
    pub width: u32,
    pub height: u32,
}

impl Default for WindowConfig {
    fn default() -> (r: Self)
        ensures
            r.width == 1200,
            r.height == 800,
    {
        WindowConfig { width: default_width(), height: default_height() }
    }
}

/// Colours as `0xAARRGGBB`.
#[derive(Debug)]
pub struct ThemeConfig {
    pub bg: u32,
    pub fg: u32,
    pub fg_dim: u32,
    pub fg_hint: u32,
    pub sel_bg: u32,
    pub line: u32,
}

impl Default for ThemeConfig {
    fn default() -> (r: Self)
        ensures
            r.bg == 0xFF1E1E2E,
            r.fg == 0xE6E6E6FF,
            r.fg_dim == 0x73C0CAF5,
            r.fg_hint == 0x4DC0CAF5,
            r.sel_bg == 0x15C0CAF5,
            r.line == 0xFF2A2A3E,
    {
        ThemeConfig {
            bg: default_bg(),
            fg: default_fg(),
            fg_dim: default_fg_dim(),
            fg_hint: default_fg_hint(),
            sel_bg: default_sel_bg(),
            line: default_line(),
        }
    }
}

/// Clipboard history settings.
#[derive(Debug)]
pub struct ClipboardConfig {
    pub history_limit: usize,
}

impl Default for ClipboardConfig {
    fn default() -> (r: Self)
        ensures
            r.history_limit == 50,
    {
        ClipboardConfig { history_limit: default_history_limit() }
    }
}

pub fn default_width() -> (r: u32)
    ensures
        r == 1200,
{
    1200
}

pub fn default_height() -> (r: u32)
    ensures
        r == 800,
{
    800
}

pub fn default_true() -> (r: bool)
    ensures
        r,
{
    true
}

pub fn default_false() -> (r: bool)
    ensures
        !r,
{
    false
}

pub fn default_history_limit() -> (r: usize)
    ensures
        r == 50,
{
    50
}

pub fn default_row_h() -> (r: u32)
    ensures
        r == 58,
{
    58
}

pub fn default_input_h() -> (r: u32)
    ensures
        r == 45,
{
    45
}

pub fn default_pad_x() -> (r: u32)
    ensures
        r == 16,
{
    16
}

pub fn default_bg() -> (r: u32)
    ensures
        r == 0xFF1E1E2E,
{
    0xFF1E1E2E
}

pub fn default_fg() -> (r: u32)
    ensures
        r == 0xE6E6E6FF,
{
    0xE6E6E6FF
}

pub fn default_fg_dim() -> (r: u32)
    ensures
        r == 0x73C0CAF5,
{
    0x73C0CAF5
}

pub fn default_fg_hint() -> (r: u32)
    ensures
        r == 0x4DC0CAF5,
{
    0x4DC0CAF5
}

pub fn default_sel_bg() -> (r: u32)
    ensures
        r == 0x15C0CAF5,
{
    0x15C0CAF5
}

pub fn default_line() -> (r: u32)
    ensures
        r == 0xFF2A2A3E,
{
    0xFF2A2A3E
}

/// One configured script (or, in general, one launchable entry).
#[derive(Debug)]
pub struct Entry {
    pub name: String,
    pub command: String,
    pub tag: Vec<String>,
    pub inline_meta: Option<String>,
}

/// The content of an `Entry`, with strings as character sequences.
pub struct EntryView {
    pub name: Seq<char>,
    pub command: Seq<char>,
    pub tag: Seq<Seq<char>>,
    pub inline_meta: Option<Seq<char>>,
}

/// The character view of an optional string.
pub open spec fn opt_view(o: Option<String>) -> Option<Seq<char>> {
    match o {
        Some(s) => Some(s@),
        None => None,
    }
}

impl View for Entry {
    type V = EntryView;

    open spec fn view(&self) -> EntryView {
        EntryView {
            name: self.name@,
            command: self.command@,
            tag: string_views(self.tag@),
            inline_meta: opt_view(self.inline_meta),
        }
    }
}

impl Clone for Entry {
    fn clone(&self) -> (r: Self)
        ensures
            r@ == self@,
    {
        let tag = self.tag.clone();
        proof {
            assert(string_views(tag@) =~= string_views(self.tag@));
        }
        let inline_meta = match &self.inline_meta {
            Some(m) => Some(m.clone()),
            None => None,
        };
        Entry { name: self.name.clone(), command: self.command.clone(), tag, inline_meta }
    }
}

#[verifier::external_type_specification]
#[verifier::external_body]
#[verifier::reject_recursive_types(K)]
#[verifier::reject_recursive_types(V)]
#[verifier::reject_recursive_types(S)]
pub struct ExIndexMap<K, V, S>(IndexMap<K, V, S>);

/// The key/entry pairs that an `IndexMap` of scripts holds, in insertion order.
pub uninterp spec fn script_table(m: IndexMap<String, Entry>) -> Seq<(Seq<char>, EntryView)>;

/// The key views of a sequence of key/entry pairs.
pub open spec fn pairs_view(v: Seq<(String, Entry)>) -> Seq<(Seq<char>, EntryView)> {
    v.map_values(|p: (String, Entry)| (p.0@, p.1@))
}

/// No key occurs twice.
pub open spec fn keys_unique(t: Seq<(Seq<char>, EntryView)>) -> bool {
    forall|i: int, j: int| 0 <= i < t.len() && 0 <= j < t.len() && t[i].0 == t[j].0 ==> i == j
}

/// The scripts file: script keys mapped to entries, in file order.
#[derive(Debug)]
pub struct Scripts {
    pub entries: IndexMap<String, Entry>,
}

/// Looks a key up. Calls `IndexMap::get`, which finds the entry stored under an
/// equal key, if any.
#[verifier::external_body]
pub(crate) fn table_get<'a>(m: &'a IndexMap<String, Entry>, key: &str) -> (r: Option<&'a Entry>)
    ensures
        r matches Some(e) ==> exists|i: int|
            0 <= i < script_table(*m).len() && script_table(*m)[i] == (key@, e@),
        r is None ==> forall|i: int|
            0 <= i < script_table(*m).len() ==> script_table(*m)[i].0 != key@,
{
    m.get(key)
}

/// The pairs of a table in their order. Calls `IndexMap::into_iter`, which yields
/// every pair once, in insertion order; keys of an `IndexMap` are unique.
#[verifier::external_body]
pub(crate) fn table_pairs(m: IndexMap<String, Entry>) -> (r: Vec<(String, Entry)>)
    ensures
        pairs_view(r@) == script_table(m),
        keys_unique(pairs_view(r@)),
{
    m.into_iter().collect()
}

} // verus!
