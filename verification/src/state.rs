//! The launcher window's editing and selection state, and how keys change it.
use crate::config::{opt_view, script_table, Scripts};
use crate::modes::script::{run as script_run, script_items};
use crate::search::{item_views, matched_outcome, results_fit, tag_tokens, text_tokens, FuzzySearch, LauncherItem, LauncherItemView};
use crate::text::{chars_of, join, words};
use crate::text::{byte_len, owned, push_char};
use vstd::string::StringExecFns;
use vstd::prelude::*;
use vstd::string::StringSliceAdditionalSpecFns;
use vstd::utf8::{
    encode_scalar, encode_utf8, is_char_boundary, is_char_boundary_iff_not_is_continuation_byte,
    is_char_boundary_start_end_of_seq, is_continuation_byte, length_of_first_scalar,
    pop_first_scalar, valid_utf8,
};

verus! {

broadcast use vstd::utf8::encode_utf8_valid_utf8;

// ---------------------------------------------------------------------------
// Byte positions in a UTF-8 string
// ---------------------------------------------------------------------------

/// Walking down from `i`, the first character boundary.
pub open spec fn boundary_at_or_below(b: Seq<u8>, i: int) -> int
    decreases i,
{
    if i <= 0 {
        0
    } else if is_char_boundary(b, i) {
        i
    } else {
        boundary_at_or_below(b, i - 1)
    }
}

/// Walking up from `i`, the first character boundary (or the end).
pub open spec fn boundary_at_or_above(b: Seq<u8>, i: int) -> int
    decreases b.len() - i,
{
    if i >= b.len() {
        i
    } else if is_char_boundary(b, i) {
        i
    } else {
        boundary_at_or_above(b, i + 1)
    }
}

/// The start of the character before byte position `pos`.
pub open spec fn prev_char_pos(b: Seq<u8>, pos: int) -> int {
    if pos == 0 {
        0
    } else {
        boundary_at_or_below(b, pos - 1)
    }
}

/// The end of the character at byte position `pos` (or the end of the string).
pub open spec fn next_char_pos(b: Seq<u8>, pos: int) -> int {
    if pos >= b.len() {
        b.len() as int
    } else {
        boundary_at_or_above(b, pos + 1)
    }
}

/// Moving down from `i` over spaces.
pub open spec fn skip_spaces_back(b: Seq<u8>, i: int) -> int
    decreases i,
{
    if i > 0 && b[i - 1] == 32 {
        skip_spaces_back(b, i - 1)
    } else {
        i
    }
}

/// Moving down from `i` over non-spaces.
pub open spec fn skip_word_back(b: Seq<u8>, i: int) -> int
    decreases i,
{
    if i > 0 && b[i - 1] != 32 {
        skip_word_back(b, i - 1)
    } else {
        i
    }
}

/// Moving up from `i` over non-spaces.
pub open spec fn skip_word_fwd(b: Seq<u8>, i: int) -> int
    decreases b.len() - i,
{
    if i < b.len() && b[i] != 32 {
        skip_word_fwd(b, i + 1)
    } else {
        i
    }
}

/// Moving up from `i` over spaces.
pub open spec fn skip_spaces_fwd(b: Seq<u8>, i: int) -> int
    decreases b.len() - i,
{
    if i < b.len() && b[i] == 32 {
        skip_spaces_fwd(b, i + 1)
    } else {
        i
    }
}

/// The start of the word before byte position `pos`.
pub open spec fn prev_word_pos(b: Seq<u8>, pos: int) -> int {
    skip_word_back(b, skip_spaces_back(b, pos))
}

/// The start of the word after the one at byte position `pos`.
pub open spec fn next_word_pos(b: Seq<u8>, pos: int) -> int {
    skip_spaces_fwd(b, skip_word_fwd(b, pos))
}

/// The position just after an ASCII byte of valid UTF-8 is a character boundary.
pub proof fn lemma_after_ascii_is_boundary(b: Seq<u8>, i: int)
    requires
        valid_utf8(b),
        0 < i <= b.len(),
        b[i - 1] < 0x80,
    ensures
        is_char_boundary(b, i),
    decreases b.len(),
{
    if i == b.len() {
        is_char_boundary_start_end_of_seq(b);
    } else {
        let l = length_of_first_scalar(b);
        let p = pop_first_scalar(b);
        assert(1 <= l <= b.len());
        assert(p.len() == b.len() - l);
        if i - 1 < l {
            // inside the first scalar only its first byte can be ASCII
            assert(i - 1 == 0);
            assert(l == 1);
            assert(is_char_boundary(p, 0));
        } else {
            assert(p[i - l - 1] == b[i - 1]);
            lemma_after_ascii_is_boundary(p, i - l);
        }
    }
}

/// Walking down always ends on a boundary, at or below the start.
pub proof fn lemma_boundary_below(b: Seq<u8>, i: int)
    requires
        valid_utf8(b),
    ensures
        is_char_boundary(b, boundary_at_or_below(b, i)),
        boundary_at_or_below(b, i) <= i || i < 0,
        0 <= boundary_at_or_below(b, i),
    decreases i,
{
    is_char_boundary_start_end_of_seq(b);
    if i > 0 && !is_char_boundary(b, i) {
        lemma_boundary_below(b, i - 1);
    }
}

/// Walking up from a position within the string ends on a boundary, at or above
/// the start and at most at the end.
pub proof fn lemma_boundary_above(b: Seq<u8>, i: int)
    requires
        valid_utf8(b),
        0 <= i <= b.len(),
    ensures
        is_char_boundary(b, boundary_at_or_above(b, i)),
        i <= boundary_at_or_above(b, i) <= b.len(),
    decreases b.len() - i,
{
    is_char_boundary_start_end_of_seq(b);
    if i < b.len() && !is_char_boundary(b, i) {
        lemma_boundary_above(b, i + 1);
    }
}

/// The start of the character before `pos`.
pub fn prev_char_boundary(s: &str, pos: usize) -> (r: usize)
    ensures
        r == prev_char_pos(s.spec_bytes(), pos as int),
{
    if pos == 0 {
        return 0;
    }
    let mut i = pos - 1;
    while !s.is_char_boundary(i)
        invariant
            i < pos,
            boundary_at_or_below(s.spec_bytes(), (pos - 1) as int) == boundary_at_or_below(
                s.spec_bytes(),
                i as int,
            ),
        decreases i,
    {
        proof {
            is_char_boundary_start_end_of_seq(s.spec_bytes());
        }
        i -= 1;
    }
    i
}

/// The end of the character at `pos`.
pub fn next_char_boundary(s: &str, pos: usize) -> (r: usize)
    ensures
        r == next_char_pos(s.spec_bytes(), pos as int),
{
    let n = byte_len(s);
    if pos >= n {
        return n;
    }
    let mut i = pos + 1;
    while !s.is_char_boundary(i)
        invariant
            pos < i <= n,
            n == s.spec_bytes().len(),
            boundary_at_or_above(s.spec_bytes(), (pos + 1) as int) == boundary_at_or_above(
                s.spec_bytes(),
                i as int,
            ),
        decreases s.spec_bytes().len() - i,
    {
        proof {
            is_char_boundary_start_end_of_seq(s.spec_bytes());
            assert(i < n);
        }
        i += 1;
    }
    i
}

/// The start of the word before `pos`.
pub fn prev_word_boundary(s: &str, pos: usize) -> (r: usize)
    requires
        pos <= s.spec_bytes().len(),
    ensures
        r == prev_word_pos(s.spec_bytes(), pos as int),
        r <= pos,
{
    let bytes = s.as_bytes();
    let mut i = pos;
    while i > 0 && bytes[i - 1] == 32
        invariant
            i <= pos <= bytes@.len(),
            bytes@ == s.spec_bytes(),
            skip_spaces_back(bytes@, pos as int) == skip_spaces_back(bytes@, i as int),
        decreases i,
    {
        i -= 1;
    }
    let ghost mid = i;
    while i > 0 && bytes[i - 1] != 32
        invariant
            i <= mid <= pos <= bytes@.len(),
            bytes@ == s.spec_bytes(),
            skip_spaces_back(bytes@, pos as int) == mid,
            skip_word_back(bytes@, mid as int) == skip_word_back(bytes@, i as int),
        decreases i,
    {
        i -= 1;
    }
    i
}

/// The start of the word after the one at `pos`.
pub fn next_word_boundary(s: &str, pos: usize) -> (r: usize)
    requires
        pos <= s.spec_bytes().len(),
    ensures
        r == next_word_pos(s.spec_bytes(), pos as int),
        pos <= r <= s.spec_bytes().len(),
{
    let bytes = s.as_bytes();
    let n = byte_len(s);
    let mut i = pos;
    while i < n && bytes[i] != 32
        invariant
            pos <= i <= n,
            n == bytes@.len(),
            bytes@ == s.spec_bytes(),
            skip_word_fwd(bytes@, pos as int) == skip_word_fwd(bytes@, i as int),
        decreases n - i,
    {
        i += 1;
    }
    let ghost mid = i;
    while i < n && bytes[i] == 32
        invariant
            pos <= mid <= i <= n,
            n == bytes@.len(),
            bytes@ == s.spec_bytes(),
            skip_word_fwd(bytes@, pos as int) == mid,
            skip_spaces_fwd(bytes@, mid as int) == skip_spaces_fwd(bytes@, i as int),
        decreases n - i,
    {
        i += 1;
    }
    i
}


/// Where the backward word walk stops: the start of the string or just after a space.
pub proof fn lemma_skip_word_back_stop(b: Seq<u8>, i: int)
    requires
        0 <= i <= b.len(),
    ensures
        0 <= skip_word_back(b, i) <= i,
        skip_word_back(b, i) == 0 || b[skip_word_back(b, i) - 1] == 32,
    decreases i,
{
    if i > 0 && b[i - 1] != 32 {
        lemma_skip_word_back_stop(b, i - 1);
    }
}

/// The backward space walk stays within the string.
pub proof fn lemma_skip_spaces_back_range(b: Seq<u8>, i: int)
    requires
        0 <= i <= b.len(),
    ensures
        0 <= skip_spaces_back(b, i) <= i,
    decreases i,
{
    if i > 0 && b[i - 1] == 32 {
        lemma_skip_spaces_back_range(b, i - 1);
    }
}

/// Where the forward word walk stops: the end of the string or at a space.
pub proof fn lemma_skip_word_fwd_stop(b: Seq<u8>, i: int)
    requires
        0 <= i <= b.len(),
    ensures
        i <= skip_word_fwd(b, i) <= b.len(),
        skip_word_fwd(b, i) == b.len() || b[skip_word_fwd(b, i)] == 32,
    decreases b.len() - i,
{
    if i < b.len() && b[i] != 32 {
        lemma_skip_word_fwd_stop(b, i + 1);
    }
}

/// The forward space walk either stays put or stops just after a space.
pub proof fn lemma_skip_spaces_fwd_stop(b: Seq<u8>, i: int)
    requires
        0 <= i <= b.len(),
    ensures
        i <= skip_spaces_fwd(b, i) <= b.len(),
        skip_spaces_fwd(b, i) == i || b[skip_spaces_fwd(b, i) - 1] == 32,
        skip_spaces_fwd(b, i) == b.len() || b[skip_spaces_fwd(b, i)] != 32,
    decreases b.len() - i,
{
    if i < b.len() && b[i] == 32 {
        lemma_skip_spaces_fwd_stop(b, i + 1);
    }
}

/// Word moves land on character boundaries.
pub proof fn lemma_word_pos_boundaries(b: Seq<u8>, pos: int)
    requires
        valid_utf8(b),
        0 <= pos <= b.len(),
    ensures
        0 <= prev_word_pos(b, pos) <= pos,
        is_char_boundary(b, prev_word_pos(b, pos)),
        pos <= next_word_pos(b, pos) <= b.len(),
        is_char_boundary(b, next_word_pos(b, pos)),
{
    is_char_boundary_start_end_of_seq(b);
    lemma_skip_spaces_back_range(b, pos);
    let m = skip_spaces_back(b, pos);
    lemma_skip_word_back_stop(b, m);
    if prev_word_pos(b, pos) > 0 {
        lemma_after_ascii_is_boundary(b, prev_word_pos(b, pos));
    }
    lemma_skip_word_fwd_stop(b, pos);
    let w = skip_word_fwd(b, pos);
    lemma_skip_spaces_fwd_stop(b, w);
    let r = next_word_pos(b, pos);
    if r < b.len() {
        if r == w {
            assert(b[w] == 32);
            assert(false);
        }
        lemma_after_ascii_is_boundary(b, r);
    }
}

/// UTF-8 encoding distributes over concatenation.
pub proof fn lemma_encode_concat(a: Seq<char>, b: Seq<char>)
    ensures
        encode_utf8(a + b) == encode_utf8(a) + encode_utf8(b),
    decreases a.len(),
{
    if a.len() == 0 {
        assert(a + b =~= b);
        assert(encode_utf8(a) + encode_utf8(b) =~= encode_utf8(b));
    } else {
        assert((a + b)[0] == a[0]);
        assert((a + b).drop_first() =~= a.drop_first() + b);
        lemma_encode_concat(a.drop_first(), b);
        assert(encode_utf8(a + b) =~= encode_utf8(a) + encode_utf8(b));
    }
}

/// The string whose UTF-8 bytes are those of `q` with `q[a..c]` replaced by `mid`.
pub fn splice(q: &String, a: usize, c: usize, mid: &str) -> (r: String)
    requires
        a <= c <= encode_utf8(q@).len(),
        is_char_boundary(encode_utf8(q@), a as int),
        is_char_boundary(encode_utf8(q@), c as int),
    ensures
        encode_utf8(r@) == encode_utf8(q@).take(a as int) + encode_utf8(mid@) + encode_utf8(
            q@,
        ).skip(c as int),
{
    let s = q.as_str();
    let (l, _) = s.split_at(a);
    let (_, rr) = s.split_at(c);
    let mut r = owned(l);
    r.append(mid);
    r.append(rr);
    proof {
        lemma_encode_concat(l@, mid@);
        lemma_encode_concat(l@ + mid@, rr@);
        assert(encode_utf8(q@).take(a as int) =~= encode_utf8(q@).subrange(0, a as int));
        assert(encode_utf8(q@).skip(c as int) =~= encode_utf8(q@).subrange(
            c as int,
            encode_utf8(q@).len() as int,
        ));
    }
    r
}

// ---------------------------------------------------------------------------
// Keys and the state they change
// ---------------------------------------------------------------------------

/// The keys the launcher reacts to; `Letter` carries a lowercase letter key.
#[derive(Debug, Clone, Copy, PartialEq, Eq, Structural)]
pub enum KeyCode {
    Escape,
    Return,
    KpEnter,
    Up,
    Down,
    PageUp,
    PageDown,
    Left,
    Right,
    Home,
    End,
    BackSpace,
    Delete,
    Letter(char),
    Other,
}

/// What the window asks its host to do after a key.
#[derive(Debug)]
pub enum KeyAction {
    /// Run a command in the background.
    Execute(String),
    /// Print a value on standard output (dmenu mode).
    Print(String),
}

/// Results that a background worker delivers to the window.
#[derive(Debug)]
pub enum BackgroundUpdate {
    Items(Vec<LauncherItem>),
    Error(String),
}

/// The window state that keys change: the query and its cursor, the selection and
/// the first visible row.
pub struct UiView {
    pub exit: bool,
    pub needs_redraw: bool,
    pub query: Seq<u8>,
    pub cursor: int,
    pub selected: int,
    pub visible: int,
}

pub open spec fn sat_sub(a: int, b: int) -> int {
    if a >= b {
        a - b
    } else {
        0
    }
}

pub open spec fn min_int(a: int, b: int) -> int {
    if a <= b {
        a
    } else {
        b
    }
}

/// Unicode control characters (general category Cc), what `char::is_control` tests.
pub open spec fn is_control_char(c: char) -> bool {
    (c as u32) <= 0x1F || (0x7F <= (c as u32) && (c as u32) <= 0x9F)
}

/// The only character of a key's text, when it has exactly one.
pub open spec fn single_char(t: Option<Seq<char>>) -> Option<char> {
    match t {
        Some(s) => if s.len() == 1 {
            Some(s[0])
        } else {
            None
        },
        None => None,
    }
}

pub open spec fn with_exit(v: UiView) -> UiView {
    UiView { exit: true, ..v }
}

pub open spec fn with_selection(v: UiView, selected: int, visible: int) -> UiView {
    UiView { selected, visible, needs_redraw: true, ..v }
}

pub open spec fn with_cursor(v: UiView, cursor: int) -> UiView {
    UiView { cursor, needs_redraw: true, ..v }
}

pub open spec fn with_edit(v: UiView, query: Seq<u8>, cursor: int) -> UiView {
    UiView { query, cursor, selected: 0, needs_redraw: true, ..v }
}

/// One row up, scrolling so that the selection stays visible.
pub open spec fn move_up(v: UiView) -> UiView {
    let sel = sat_sub(v.selected, 1);
    with_selection(v, sel, if sel < v.visible { sel } else { v.visible })
}

/// One row down (not past the last result), scrolling by whole rows.
pub open spec fn move_down(v: UiView, n: int, page: int) -> UiView {
    let sel = min_int(v.selected + 1, sat_sub(n, 1));
    with_selection(v, sel, if sel >= v.visible + page { sel + 1 - page } else { v.visible })
}

pub open spec fn is_ctrl_letter(key: KeyCode, ctrl: bool, c: char) -> bool {
    ctrl && key == KeyCode::Letter(c)
}

/// The key closes the window without running anything.
pub open spec fn is_close(key: KeyCode, ctrl: bool) -> bool {
    key == KeyCode::Escape || is_ctrl_letter(key, ctrl, 'c')
}

/// The key runs (or prints) the selection.
pub open spec fn is_enter(key: KeyCode, ctrl: bool) -> bool {
    !is_close(key, ctrl) && (key == KeyCode::Return || key == KeyCode::KpEnter)
}

/// The new state after `key`, with `ch` the key's character, `n` the number of
/// results and `page` the number of rows that fit.
pub open spec fn next_view(
    v: UiView,
    key: KeyCode,
    ch: Option<char>,
    ctrl: bool,
    alt: bool,
    n: int,
    page: int,
) -> UiView {
    let q = v.query;
    let c = v.cursor;
    if is_close(key, ctrl) || is_enter(key, ctrl) {
        with_exit(v)
    } else if key == KeyCode::Up || is_ctrl_letter(key, ctrl, 'p') {
        move_up(v)
    } else if key == KeyCode::Down || is_ctrl_letter(key, ctrl, 'n') {
        move_down(v, n, page)
    } else if key == KeyCode::PageUp {
        with_selection(v, sat_sub(v.selected, page), sat_sub(v.visible, page))
    } else if key == KeyCode::PageDown {
        let max_sel = sat_sub(n, 1);
        let max_vis = sat_sub(max_sel, sat_sub(page, 1));
        with_selection(v, min_int(v.selected + page, max_sel), min_int(v.visible + page, max_vis))
    } else if key == KeyCode::Left && ctrl {
        with_cursor(v, prev_word_pos(q, c))
    } else if key == KeyCode::Right && ctrl {
        with_cursor(v, next_word_pos(q, c))
    } else if key == KeyCode::Left {
        with_cursor(v, prev_char_pos(q, c))
    } else if key == KeyCode::Right {
        with_cursor(v, next_char_pos(q, c))
    } else if key == KeyCode::Home || is_ctrl_letter(key, ctrl, 'a') {
        with_cursor(v, 0)
    } else if key == KeyCode::End || is_ctrl_letter(key, ctrl, 'e') {
        with_cursor(v, q.len() as int)
    } else if is_ctrl_letter(key, ctrl, 'u') {
        with_selection(v, sat_sub(v.selected, 1), v.visible)
    } else if is_ctrl_letter(key, ctrl, 'd') {
        with_selection(v, min_int(v.selected + 1, sat_sub(n, 1)), v.visible)
    } else if is_ctrl_letter(key, ctrl, 'k') {
        if c < q.len() {
            with_edit(v, q.take(c), c)
        } else {
            v
        }
    } else if key == KeyCode::BackSpace && (ctrl || alt) {
        let p = prev_word_pos(q, c);
        with_edit(v, q.take(p) + q.skip(c), p)
    } else if key == KeyCode::BackSpace {
        if c > 0 {
            let p = prev_char_pos(q, c);
            with_edit(v, q.take(p) + q.skip(c), p)
        } else {
            v
        }
    } else if key == KeyCode::Delete {
        if c < q.len() {
            with_edit(v, q.take(c) + q.skip(next_char_pos(q, c)), c)
        } else {
            v
        }
    } else {
        match ch {
            Some(x) => if !ctrl && !alt && !is_control_char(x) {
                let e = encode_utf8(seq![x]);
                with_edit(v, q.take(c) + e + q.skip(c), c + e.len())
            } else {
                v
            },
            None => v,
        }
    }
}


/// Walking up over non-spaces passes only non-spaces and stops at a space or at
/// the end.
proof fn lemma_skip_word_fwd(b: Seq<u8>, i: int)
    requires
        0 <= i <= b.len(),
    ensures
        i <= skip_word_fwd(b, i) <= b.len(),
        forall|k: int| i <= k < skip_word_fwd(b, i) ==> b[k] != 32,
        skip_word_fwd(b, i) == b.len() || b[skip_word_fwd(b, i)] == 32,
    decreases b.len() - i,
{
    if i < b.len() && b[i] != 32 {
        lemma_skip_word_fwd(b, i + 1);
    }
}

/// Walking up over spaces passes only spaces and stops at a non-space or at the
/// end.
proof fn lemma_skip_spaces_fwd(b: Seq<u8>, i: int)
    requires
        0 <= i <= b.len(),
    ensures
        i <= skip_spaces_fwd(b, i) <= b.len(),
        forall|k: int| i <= k < skip_spaces_fwd(b, i) ==> b[k] == 32,
        skip_spaces_fwd(b, i) == b.len() || b[skip_spaces_fwd(b, i)] != 32,
    decreases b.len() - i,
{
    if i < b.len() && b[i] == 32 {
        lemma_skip_spaces_fwd(b, i + 1);
    }
}

/// Ctrl+Right moves the cursor forward to the next start of a word (a non-space
/// just after a space) beyond it, or to the end of the query when there is none;
/// it passes no other word start. The query, the selection and the scroll stay
/// as they were.
pub proof fn lemma_ctrl_right_next_word(v: UiView, ch: Option<char>, alt: bool, n: int, page: int)
    requires
        0 <= v.cursor <= v.query.len(),
    ensures
        ({
            let w = next_view(v, KeyCode::Right, ch, true, alt, n, page);
            let q = v.query;
            &&& w.query == q
            &&& w.selected == v.selected
            &&& w.visible == v.visible
            &&& w.exit == v.exit
            &&& v.cursor == q.len() ==> w.cursor == q.len()
            &&& v.cursor < q.len() ==> {
                &&& v.cursor < w.cursor <= q.len()
                &&& (w.cursor == q.len() || (q[w.cursor - 1] == 32 && q[w.cursor] != 32))
                &&& forall|k: int| v.cursor < k < w.cursor ==> !(q[k - 1] == 32 && #[trigger] q[k] != 32)
            }
        }),
{
    let q = v.query;
    let m = skip_word_fwd(q, v.cursor);
    lemma_skip_word_fwd(q, v.cursor);
    lemma_skip_spaces_fwd(q, m);
    let w = next_view(v, KeyCode::Right, ch, true, alt, n, page);
    assert(w.cursor == skip_spaces_fwd(q, m));
}

/// Ctrl+Left moves the cursor back to the nearest start of a word (a non-space
/// just after a space) before it, or to the start of the query when there is
/// none; it passes no other word start. The query, the selection and the scroll
/// stay as they were.
pub proof fn lemma_ctrl_left_prev_word(v: UiView, ch: Option<char>, alt: bool, n: int, page: int)
    requires
        0 <= v.cursor <= v.query.len(),
    ensures
        ({
            let w = next_view(v, KeyCode::Left, ch, true, alt, n, page);
            let q = v.query;
            &&& w.query == q
            &&& w.selected == v.selected
            &&& w.visible == v.visible
            &&& w.exit == v.exit
            &&& v.cursor == 0 ==> w.cursor == 0
            &&& v.cursor > 0 ==> {
                &&& 0 <= w.cursor < v.cursor
                &&& (w.cursor == 0 || (q[w.cursor - 1] == 32 && q[w.cursor] != 32))
                &&& forall|k: int| w.cursor < k < v.cursor ==> !(q[k - 1] == 32 && #[trigger] q[k] != 32)
            }
        }),
{
    let q = v.query;
    let m = skip_spaces_back(q, v.cursor);
    lemma_skip_spaces_back(q, v.cursor);
    lemma_skip_word_back(q, m);
    let w = next_view(v, KeyCode::Left, ch, true, alt, n, page);
    assert(w.cursor == skip_word_back(q, m));
}

/// Walking down over spaces passes only spaces and stops after a non-space or
/// at the start.
proof fn lemma_skip_spaces_back(b: Seq<u8>, i: int)
    requires
        0 <= i <= b.len(),
    ensures
        0 <= skip_spaces_back(b, i) <= i,
        forall|k: int| skip_spaces_back(b, i) <= k < i ==> b[k] == 32,
        skip_spaces_back(b, i) == 0 || b[skip_spaces_back(b, i) - 1] != 32,
    decreases i,
{
    if i > 0 && b[i - 1] == 32 {
        lemma_skip_spaces_back(b, i - 1);
    }
}

/// Walking down over non-spaces passes only non-spaces and stops after a space or
/// at the start.
proof fn lemma_skip_word_back(b: Seq<u8>, i: int)
    requires
        0 <= i <= b.len(),
    ensures
        0 <= skip_word_back(b, i) <= i,
        forall|k: int| skip_word_back(b, i) <= k < i ==> b[k] != 32,
        skip_word_back(b, i) == 0 || b[skip_word_back(b, i) - 1] == 32,
    decreases i,
{
    if i > 0 && b[i - 1] != 32 {
        lemma_skip_word_back(b, i - 1);
    }
}

/// What a key makes the window run: the selected result's command, printed in
/// dmenu mode and executed otherwise.
pub open spec fn action_command(a: KeyAction) -> Seq<char> {
    match a {
        KeyAction::Execute(c) => c@,
        KeyAction::Print(c) => c@,
    }
}

/// The key changes the query (and so the search).
pub open spec fn edits_query(v: UiView, key: KeyCode, ch: Option<char>, ctrl: bool, alt: bool) -> bool {
    let q = v.query;
    let c = v.cursor;
    if is_close(key, ctrl) || is_enter(key, ctrl) || key == KeyCode::Up || key == KeyCode::Down
        || key == KeyCode::PageUp || key == KeyCode::PageDown || key == KeyCode::Left || key
        == KeyCode::Right || key == KeyCode::Home || key == KeyCode::End || is_ctrl_letter(
        key,
        ctrl,
        'p',
    ) || is_ctrl_letter(key, ctrl, 'n') || is_ctrl_letter(key, ctrl, 'a') || is_ctrl_letter(
        key,
        ctrl,
        'e',
    ) || is_ctrl_letter(key, ctrl, 'u') || is_ctrl_letter(key, ctrl, 'd') {
        false
    } else if is_ctrl_letter(key, ctrl, 'k') {
        c < q.len()
    } else if key == KeyCode::BackSpace && (ctrl || alt) {
        true
    } else if key == KeyCode::BackSpace {
        c > 0
    } else if key == KeyCode::Delete {
        c < q.len()
    } else {
        match ch {
            Some(x) => !ctrl && !alt && !is_control_char(x),
            None => false,
        }
    }
}

/// The UTF-8 encoding of one character: one to four bytes, a leading byte and
/// then continuation bytes.
proof fn lemma_char_encoding(x: char)
    ensures
        1 <= encode_utf8(seq![x]).len() <= 4,
        !is_continuation_byte(encode_utf8(seq![x])[0]),
        forall|k: int| 1 <= k < encode_utf8(seq![x]).len() ==> is_continuation_byte(#[trigger] encode_utf8(seq![x])[k]),
{
    let e = encode_utf8(seq![x]);
    let v = x as u32;
    vstd::utf8::char_is_scalar(x);
    assert(seq![x].drop_first() =~= Seq::<char>::empty());
    assert(encode_utf8(Seq::<char>::empty()) =~= Seq::<u8>::empty());
    assert(seq![x][0] as u32 == v);
    assert(e =~= encode_scalar(v) + encode_utf8(Seq::<char>::empty()));
    assert(e =~= encode_scalar(v));
    assert(0x80u8 <= (0x80u8 | ((v & 0x3F) as u8)) <= 0xBFu8) by (bit_vector);
    assert(0x80u8 <= (0x80u8 | (((v >> 6u32) & 0x3F) as u8)) <= 0xBFu8) by (bit_vector);
    assert(0x80u8 <= (0x80u8 | (((v >> 12u32) & 0x3F) as u8)) <= 0xBFu8) by (bit_vector);
    assert(((v & 0x7F) as u8) < 0x80u8) by (bit_vector);
    assert((0xC0u8 | (((v >> 6u32) & 0x1F) as u8)) >= 0xC0u8) by (bit_vector);
    assert((0xE0u8 | (((v >> 12u32) & 0x0F) as u8)) >= 0xE0u8) by (bit_vector);
    assert((0xF0u8 | (((v >> 18u32) & 0x7) as u8)) >= 0xF0u8) by (bit_vector);
}

/// Walking down from `i` over non-boundaries stops at the boundary `c`.
proof fn lemma_walk_down_to(b: Seq<u8>, i: int, c: int)
    requires
        0 <= c <= i,
        is_char_boundary(b, c),
        forall|k: int| c < k <= i ==> !is_char_boundary(b, k),
    ensures
        boundary_at_or_below(b, i) == c,
    decreases i,
{
    if i > c {
        lemma_walk_down_to(b, i - 1, c);
    }
}

/// Typing a character and then pressing BackSpace gives back the query and the
/// cursor as they were.
pub proof fn lemma_type_then_backspace(v: UiView, x: char, n: int, page: int)
    requires
        valid_utf8(v.query),
        0 <= v.cursor <= v.query.len(),
        is_char_boundary(v.query, v.cursor),
        !is_control_char(x),
    ensures
        ({
            let typed = next_view(v, KeyCode::Other, Some(x), false, false, n, page);
            let erased = next_view(typed, KeyCode::BackSpace, None, false, false, n, page);
            erased.query == v.query && erased.cursor == v.cursor
        }),
{
    let q = v.query;
    let c = v.cursor;
    let e = encode_utf8(seq![x]);
    lemma_char_encoding(x);
    let q1 = q.take(c) + e + q.skip(c);
    let c1 = c + e.len();
    let typed = next_view(v, KeyCode::Other, Some(x), false, false, n, page);
    assert(typed.query == q1 && typed.cursor == c1);
    vstd::utf8::valid_utf8_split(q, c);
    vstd::utf8::encode_utf8_valid_utf8(seq![x]);
    vstd::utf8::valid_utf8_concat(q.take(c), e);
    vstd::utf8::valid_utf8_concat(q.take(c) + e, q.skip(c));
    assert(valid_utf8(q1));
    assert(q1[c] == e[0]);
    vstd::utf8::is_char_boundary_iff_not_is_continuation_byte(q1, c);
    assert forall|k: int| c < k <= c1 - 1 implies !is_char_boundary(q1, k) by {
        assert(q1[k] == e[k - c]);
        assert(is_continuation_byte(e[k - c]));
        vstd::utf8::is_char_boundary_iff_not_is_continuation_byte(q1, k);
    }
    lemma_walk_down_to(q1, c1 - 1, c);
    assert(prev_char_pos(q1, c1) == c);
    assert(q1.take(c) + q1.skip(c1) =~= q);
}

/// Replacing bytes `[a, c)` of valid UTF-8 by `e` leaves a character boundary just
/// after `e` when `c` was one.
pub proof fn lemma_splice_boundary(old: Seq<u8>, a: int, c: int, e: Seq<u8>, newb: Seq<u8>)
    requires
        valid_utf8(old),
        valid_utf8(newb),
        0 <= a <= c <= old.len(),
        is_char_boundary(old, c),
        newb == old.take(a) + e + old.skip(c),
    ensures
        a + e.len() <= newb.len(),
        is_char_boundary(newb, a + e.len()),
{
    is_char_boundary_start_end_of_seq(newb);
    if c < old.len() {
        is_char_boundary_iff_not_is_continuation_byte(old, c);
        assert(newb[a + e.len()] == old[c]);
        is_char_boundary_iff_not_is_continuation_byte(newb, a + e.len());
    } else {
        assert(newb.len() == a + e.len());
    }
}

/// The only character of a text, when it has exactly one.
pub fn single_char_of(t: &Option<String>) -> (r: Option<char>)
    ensures
        r == single_char(opt_view(*t)),
{
    match t {
        Some(s) => {
            let v = chars_of(s.as_str());
            if v.len() == 1 {
                Some(v[0])
            } else {
                None
            }
        },
        None => None,
    }
}

/// Whether `c` is a control character.
pub fn is_control(c: char) -> (b: bool)
    ensures
        b == is_control_char(c),
{
    let u = c as u32;
    u <= 0x1F || (0x7F <= u && u <= 0x9F)
}

/// The launcher window's state.
pub struct AppState {
    pub exit: bool,
    pub needs_redraw: bool,
    pub search: FuzzySearch,
    pub query: String,
    pub selected: usize,
    pub visible: usize,
    pub dmenu_mode: bool,
    pub cursor: usize,
    /// How many result rows fit in the window.
    pub max_visible_rows: usize,
    pub last_background_error: Option<String>,
}

impl AppState {
    /// The part of the state that keys change.
    pub open spec fn ui(&self) -> UiView {
        UiView {
            exit: self.exit,
            needs_redraw: self.needs_redraw,
            query: encode_utf8(self.query@),
            cursor: self.cursor as int,
            selected: self.selected as int,
            visible: self.visible as int,
        }
    }

    /// The search is consistent, counters stay far from overflow, and the cursor
    /// sits on a character boundary of the query.
    pub open spec fn wf(&self) -> bool {
        &&& self.search.wf()
        &&& self.search.items().len() <= usize::MAX / 8
        &&& self.max_visible_rows <= usize::MAX / 4
        &&& self.selected <= usize::MAX / 4
        &&& self.visible <= usize::MAX / 4
        &&& self.cursor <= encode_utf8(self.query@).len()
        &&& is_char_boundary(encode_utf8(self.query@), self.cursor as int)
    }

    fn set_query(&mut self, q: String, cursor: usize)
        requires
            old(self).wf(),
            cursor <= encode_utf8(q@).len(),
            is_char_boundary(encode_utf8(q@), cursor as int),
        ensures
            final(self).wf(),
            final(self).ui() == with_edit(old(self).ui(), encode_utf8(q@), cursor as int),
            final(self).query@ == q@,
            final(self).search.items() == old(self).search.items(),
            final(self).search.query() == join(text_tokens(words(q@)), seq![' ']),
            final(self).search.tags() == tag_tokens(words(q@)),
            final(self).dmenu_mode == old(self).dmenu_mode,
            final(self).max_visible_rows == old(self).max_visible_rows,
            final(self).last_background_error == old(self).last_background_error,
    {
        self.query = q;
        self.cursor = cursor;
        self.selected = 0;
        self.search.update(self.query.as_str());
        self.needs_redraw = true;
    }

    /// Keys that move the selection.
    fn move_selection(&mut self, key: KeyCode, ctrl: bool, n: usize)
        requires
            old(self).wf(),
            n == old(self).search.result_views().len(),
            n <= usize::MAX / 4,
            !is_close(key, ctrl),
            !is_enter(key, ctrl),
            key == KeyCode::Up || key == KeyCode::Down || key == KeyCode::PageUp || key
                == KeyCode::PageDown || is_ctrl_letter(key, ctrl, 'p') || is_ctrl_letter(key, ctrl, 'n')
                || is_ctrl_letter(key, ctrl, 'u') || is_ctrl_letter(key, ctrl, 'd'),
        ensures
            final(self).wf(),
            forall|ch: Option<char>, alt: bool| final(self).ui() == #[trigger] next_view(
                old(self).ui(),
                key,
                ch,
                ctrl,
                alt,
                n as int,
                old(self).max_visible_rows as int,
            ),
            final(self).search == old(self).search,
            final(self).query == old(self).query,
            final(self).dmenu_mode == old(self).dmenu_mode,
            final(self).max_visible_rows == old(self).max_visible_rows,
            final(self).last_background_error == old(self).last_background_error,
    {
        let page = self.max_visible_rows;
        let max = if n >= 1 { n - 1 } else { 0 };
        if key == KeyCode::Up || (ctrl && key == KeyCode::Letter('p')) {
            self.selected = if self.selected >= 1 { self.selected - 1 } else { 0 };
            if self.selected < self.visible {
                self.visible = self.selected;
            }
        } else if key == KeyCode::Down || (ctrl && key == KeyCode::Letter('n')) {
            self.selected = if self.selected + 1 <= max { self.selected + 1 } else { max };
            if self.selected >= self.visible + page {
                self.visible = self.selected + 1 - page;
            }
        } else if key == KeyCode::PageUp {
            self.selected = if self.selected >= page { self.selected - page } else { 0 };
            self.visible = if self.visible >= page { self.visible - page } else { 0 };
        } else if key == KeyCode::PageDown {
            self.selected = if self.selected + page <= max { self.selected + page } else { max };
            let back = if page >= 1 { page - 1 } else { 0 };
            let max_vis = if max >= back { max - back } else { 0 };
            self.visible = if self.visible + page <= max_vis { self.visible + page } else { max_vis };
        } else if ctrl && key == KeyCode::Letter('u') {
            self.selected = if self.selected >= 1 { self.selected - 1 } else { 0 };
        } else {
            self.selected = if self.selected + 1 <= max { self.selected + 1 } else { max };
        }
        self.needs_redraw = true;
    }

    /// Keys that move the cursor.
    fn move_cursor(&mut self, key: KeyCode, ctrl: bool)
        requires
            old(self).wf(),
            !is_close(key, ctrl),
            !is_enter(key, ctrl),
            !(key == KeyCode::Up || key == KeyCode::Down || key == KeyCode::PageUp || key
                == KeyCode::PageDown || is_ctrl_letter(key, ctrl, 'p') || is_ctrl_letter(key, ctrl, 'n')),
            key == KeyCode::Left || key == KeyCode::Right || key == KeyCode::Home || key
                == KeyCode::End || is_ctrl_letter(key, ctrl, 'a') || is_ctrl_letter(key, ctrl, 'e'),
        ensures
            final(self).wf(),
            forall|ch: Option<char>, alt: bool, n: int| final(self).ui() == #[trigger] next_view(
                old(self).ui(),
                key,
                ch,
                ctrl,
                alt,
                n,
                old(self).max_visible_rows as int,
            ),
            final(self).search == old(self).search,
            final(self).query == old(self).query,
            final(self).dmenu_mode == old(self).dmenu_mode,
            final(self).max_visible_rows == old(self).max_visible_rows,
            final(self).last_background_error == old(self).last_background_error,
    {
        let ghost v = self.ui();
        proof {
            is_char_boundary_start_end_of_seq(v.query);
            lemma_word_pos_boundaries(v.query, v.cursor);
            lemma_boundary_below(v.query, v.cursor - 1);
            if v.cursor < v.query.len() {
                lemma_boundary_above(v.query, v.cursor + 1);
            }
        }
        if key == KeyCode::Left && ctrl {
            self.cursor = prev_word_boundary(self.query.as_str(), self.cursor);
        } else if key == KeyCode::Right && ctrl {
            self.cursor = next_word_boundary(self.query.as_str(), self.cursor);
        } else if key == KeyCode::Left {
            self.cursor = prev_char_boundary(self.query.as_str(), self.cursor);
        } else if key == KeyCode::Right {
            self.cursor = next_char_boundary(self.query.as_str(), self.cursor);
        } else if key == KeyCode::Home || (ctrl && key == KeyCode::Letter('a')) {
            self.cursor = 0;
        } else {
            self.cursor = byte_len(self.query.as_str());
        }
        self.needs_redraw = true;
    }

    /// Keys that edit the query.
    fn edit_query(&mut self, key: KeyCode, ch: Option<char>, ctrl: bool, alt: bool)
        requires
            old(self).wf(),
            !is_close(key, ctrl),
            !is_enter(key, ctrl),
            !(key == KeyCode::Up || key == KeyCode::Down || key == KeyCode::PageUp || key
                == KeyCode::PageDown || is_ctrl_letter(key, ctrl, 'p') || is_ctrl_letter(key, ctrl, 'n')
                || is_ctrl_letter(key, ctrl, 'u') || is_ctrl_letter(key, ctrl, 'd')),
            !(key == KeyCode::Left || key == KeyCode::Right || key == KeyCode::Home || key
                == KeyCode::End || is_ctrl_letter(key, ctrl, 'a') || is_ctrl_letter(key, ctrl, 'e')),
        ensures
            final(self).wf(),
            forall|n: int| final(self).ui() == #[trigger] next_view(
                old(self).ui(),
                key,
                ch,
                ctrl,
                alt,
                n,
                old(self).max_visible_rows as int,
            ),
            final(self).dmenu_mode == old(self).dmenu_mode,
            final(self).max_visible_rows == old(self).max_visible_rows,
            final(self).last_background_error == old(self).last_background_error,
            final(self).search.items() == old(self).search.items(),
            edits_query(old(self).ui(), key, ch, ctrl, alt) ==> {
                &&& final(self).search.query() == join(text_tokens(words(final(self).query@)), seq![' '])
                &&& final(self).search.tags() == tag_tokens(words(final(self).query@))
            },
            !edits_query(old(self).ui(), key, ch, ctrl, alt) ==> final(self).search == old(self).search
                && final(self).ui() == old(self).ui(),
    {
        let ghost v = self.ui();
        let qlen = byte_len(self.query.as_str());
        let cur = self.cursor;
        proof {
            is_char_boundary_start_end_of_seq(v.query);
            reveal_strlit("");
            assert(encode_utf8(""@) =~= seq![]);
        }
        if ctrl && key == KeyCode::Letter('k') {
            if cur < qlen {
                let q = splice(&self.query, cur, qlen, "");
                proof {
                    assert(encode_utf8(q@) =~= v.query.take(cur as int));
                    is_char_boundary_start_end_of_seq(encode_utf8(q@));
                }
                self.set_query(q, cur);
            }
        } else if key == KeyCode::BackSpace && (ctrl || alt) {
            proof {
                lemma_word_pos_boundaries(v.query, v.cursor);
            }
            let np = prev_word_boundary(self.query.as_str(), cur);
            let q = splice(&self.query, np, cur, "");
            proof {
                assert(encode_utf8(q@) =~= v.query.take(np as int) + v.query.skip(cur as int));
                lemma_splice_boundary(v.query, np as int, cur as int, seq![], encode_utf8(q@));
            }
            self.set_query(q, np);
        } else if key == KeyCode::BackSpace {
            if cur > 0 {
                proof {
                    lemma_boundary_below(v.query, v.cursor - 1);
                }
                let np = prev_char_boundary(self.query.as_str(), cur);
                let q = splice(&self.query, np, cur, "");
                proof {
                    assert(encode_utf8(q@) =~= v.query.take(np as int) + v.query.skip(cur as int));
                    lemma_splice_boundary(v.query, np as int, cur as int, seq![], encode_utf8(q@));
                }
                self.set_query(q, np);
            }
        } else if key == KeyCode::Delete {
            if cur < qlen {
                proof {
                    lemma_boundary_above(v.query, v.cursor + 1);
                }
                let nx = next_char_boundary(self.query.as_str(), cur);
                let q = splice(&self.query, cur, nx, "");
                proof {
                    assert(encode_utf8(q@) =~= v.query.take(cur as int) + v.query.skip(nx as int));
                    lemma_splice_boundary(v.query, cur as int, nx as int, seq![], encode_utf8(q@));
                }
                self.set_query(q, cur);
            }
        } else {
            match ch {
                Some(x) => {
                    if !ctrl && !alt && !is_control(x) {
                        let mut mid = String::new();
                        push_char(&mut mid, x);
                        let q = splice(&self.query, cur, cur, mid.as_str());
                        let k = byte_len(mid.as_str());
                        let total = byte_len(q.as_str());
                        proof {
                            assert(mid@ =~= seq![x]);
                            lemma_splice_boundary(v.query, cur as int, cur as int, encode_utf8(mid@), encode_utf8(q@));
                        }
                        self.set_query(q, cur + k);
                    }
                },
                None => {},
            }
        }
    }

    /// Reacts to a key: `key` is the key pressed, `text` the text it produces, and
    /// `ctrl`/`alt` the modifiers held. Returns what the host should run.
    pub fn handle_key(&mut self, key: KeyCode, text: Option<String>, ctrl: bool, alt: bool) -> (action: Option<KeyAction>)
        requires
            old(self).wf(),
        ensures
            final(self).wf(),
            final(self).ui() == next_view(
                old(self).ui(),
                key,
                single_char(opt_view(text)),
                ctrl,
                alt,
                old(self).search.result_views().len() as int,
                old(self).max_visible_rows as int,
            ),
            final(self).dmenu_mode == old(self).dmenu_mode,
            final(self).max_visible_rows == old(self).max_visible_rows,
            final(self).last_background_error == old(self).last_background_error,
            final(self).search.items() == old(self).search.items(),
            edits_query(old(self).ui(), key, single_char(opt_view(text)), ctrl, alt) ==> {
                &&& final(self).search.query() == join(text_tokens(words(final(self).query@)), seq![' '])
                &&& final(self).search.tags() == tag_tokens(words(final(self).query@))
            },
            !edits_query(old(self).ui(), key, single_char(opt_view(text)), ctrl, alt) ==> final(self).search
                == old(self).search,
            is_enter(key, ctrl) && old(self).selected < old(self).search.result_views().len() ==> {
                &&& action matches Some(a)
                &&& action_command(a) == old(self).search.result_views()[old(self).selected as int].entry.command
                &&& (a is Print <==> old(self).dmenu_mode)
            },
            !(is_enter(key, ctrl) && old(self).selected < old(self).search.result_views().len()) ==> action is None,
    {
        proof {
            self.search.lemma_results_len();
        }
        let ghost v = self.ui();
        let ch = single_char_of(&text);
        let n = self.search.result_list().len();
        let page = self.max_visible_rows;
        if key == KeyCode::Escape || (ctrl && key == KeyCode::Letter('c')) {
            self.exit = true;
            return None;
        }
        if key == KeyCode::Return || key == KeyCode::KpEnter {
            let mut action: Option<KeyAction> = None;
            if self.selected < n {
                let command = self.search.result_list()[self.selected].entry.command.clone();
                if self.dmenu_mode {
                    action = Some(KeyAction::Print(command));
                } else {
                    action = Some(KeyAction::Execute(command));
                }
            }
            self.exit = true;
            return action;
        }
        if key == KeyCode::Up || key == KeyCode::Down || key == KeyCode::PageUp || key
            == KeyCode::PageDown || (ctrl && (key == KeyCode::Letter('p') || key == KeyCode::Letter(
            'n',
        ) || key == KeyCode::Letter('u') || key == KeyCode::Letter('d'))) {
            self.move_selection(key, ctrl, n);
            proof {
                assert(final(self).ui() == next_view(v, key, ch, ctrl, alt, n as int, page as int));
            }
        } else if key == KeyCode::Left || key == KeyCode::Right || key == KeyCode::Home || key
            == KeyCode::End || (ctrl && (key == KeyCode::Letter('a') || key == KeyCode::Letter('e'))) {
            self.move_cursor(key, ctrl);
            proof {
                assert(final(self).ui() == next_view(v, key, ch, ctrl, alt, n as int, page as int));
            }
        } else {
            self.edit_query(key, ch, ctrl, alt);
            proof {
                assert(final(self).ui() == next_view(v, key, ch, ctrl, alt, n as int, page as int));
            }
        }
        None
    }
}


/// Where the selection and the first visible row end up when the view is brought
/// in line with `total` results and `mv` visible rows.
pub open spec fn scroll_after(sel: int, vis: int, total: int, mv: int) -> (int, int) {
    if total == 0 {
        (0, 0)
    } else {
        let vis1 = if sel < vis {
            sel
        } else if sel >= vis + mv {
            sat_sub(sel, mv) + 1
        } else {
            vis
        };
        let top = sat_sub(total, mv);
        let vis2 = if vis1 > top {
            top
        } else {
            vis1
        };
        let sel2 = if sel >= total {
            total - 1
        } else {
            sel
        };
        (sel2, vis2)
    }
}

/// After scrolling, a non-empty result list shows its selected row: the selection
/// is a valid row and lies within the visible window.
pub proof fn lemma_scroll_shows_selection(sel: int, vis: int, total: int, mv: int)
    requires
        0 <= sel,
        0 <= vis,
        total > 0,
        mv > 0,
    ensures
        0 <= scroll_after(sel, vis, total, mv).1 <= scroll_after(sel, vis, total, mv).0,
        scroll_after(sel, vis, total, mv).0 < total,
        scroll_after(sel, vis, total, mv).0 < scroll_after(sel, vis, total, mv).1 + mv,
{
}

impl AppState {
    /// A fresh window over `items`: nothing typed, the first row selected, every
    /// item shown.
    pub open spec fn opened_over(&self, items: Seq<LauncherItemView>, dmenu_mode: bool, rows: usize) -> bool {
        &&& self.wf()
        &&& self.dmenu_mode == dmenu_mode
        &&& self.search.items() == items
        &&& self.search.result_views() == items
        &&& self.query@ == Seq::<char>::empty()
        &&& self.cursor == 0
        &&& self.selected == 0
        &&& self.visible == rows
        &&& !self.exit
        &&& self.needs_redraw
        &&& self.max_visible_rows == rows
        &&& self.last_background_error is None
    }

    fn with_items(items: Vec<LauncherItem>, dmenu_mode: bool, case_sensitive: bool, rows: usize) -> (r: Self)
        requires
            rows <= usize::MAX / 4,
            items.len() <= usize::MAX / 8,
        ensures
            r.opened_over(item_views(items@), dmenu_mode, rows),
    {
        let mut search = FuzzySearch::new(items, case_sensitive);
        search.update("");
        proof {
            reveal_strlit("");
            assert(words(""@) =~= seq![]);
            is_char_boundary_start_end_of_seq(encode_utf8(Seq::<char>::empty()));
        }
        AppState {
            exit: false,
            needs_redraw: true,
            search,
            query: String::new(),
            selected: 0,
            visible: rows,
            dmenu_mode,
            cursor: 0,
            max_visible_rows: rows,
            last_background_error: None,
        }
    }

    /// A window over `stdin_items` when standard input provided some (dmenu mode),
    /// otherwise over the configured scripts, with an empty query; `rows` is how
    /// many result rows fit.
    pub fn new(stdin_items: Option<Vec<LauncherItem>>, scripts: Scripts, case_sensitive: bool, rows: usize) -> (r: Self)
        requires
            rows <= usize::MAX / 4,
            stdin_items matches Some(v) ==> v.len() <= usize::MAX / 8,
            stdin_items is None ==> script_table(scripts.entries).len() <= usize::MAX / 8,
        ensures
            stdin_items matches Some(v) ==> r.opened_over(item_views(v@), true, rows),
            stdin_items is None ==> r.opened_over(script_items(script_table(scripts.entries)), false, rows),
    {
        match stdin_items {
            Some(v) => Self::with_items(v, true, case_sensitive, rows),
            None => {
                let ghost t = script_table(scripts.entries);
                let items = script_run(scripts);
                proof {
                    assert(item_views(items@).len() == items@.len());
                    assert(script_items(t).len() == t.len());
                }
                Self::with_items(items, false, case_sensitive, rows)
            },
        }
    }

    /// Like `new`, for any number of items: `None` when there are more than a
    /// window can count (over an eighth of the address space).
    pub fn try_new(stdin_items: Option<Vec<LauncherItem>>, scripts: Scripts, case_sensitive: bool, rows: usize) -> (r: Option<Self>)
        requires
            rows <= usize::MAX / 4,
        ensures
            match r {
                Some(a) => match stdin_items {
                    Some(v) => a.opened_over(item_views(v@), true, rows),
                    None => a.opened_over(script_items(script_table(scripts.entries)), false, rows),
                },
                None => match stdin_items {
                    Some(v) => v.len() > usize::MAX / 8,
                    None => script_table(scripts.entries).len() > usize::MAX / 8,
                },
            },
    {
        let dmenu_mode = stdin_items.is_some();
        let ghost t = script_table(scripts.entries);
        let items = match stdin_items {
            Some(v) => v,
            None => script_run(scripts),
        };
        proof {
            assert(item_views(items@).len() == items@.len());
            assert(script_items(t).len() == t.len());
        }
        if items.len() > usize::MAX / 8 {
            return None;
        }
        Some(Self::with_items(items, dmenu_mode, case_sensitive, rows))
    }

    /// Brings the selection and the first visible row in line with the results.
    pub fn update_scroll(&mut self)
        requires
            old(self).wf(),
        ensures
            final(self).wf(),
            (final(self).selected as int, final(self).visible as int) == scroll_after(
                old(self).selected as int,
                old(self).visible as int,
                old(self).search.result_views().len() as int,
                old(self).max_visible_rows as int,
            ),
            final(self).search == old(self).search,
            final(self).query == old(self).query,
            final(self).cursor == old(self).cursor,
            final(self).exit == old(self).exit,
            final(self).needs_redraw == old(self).needs_redraw,
            final(self).dmenu_mode == old(self).dmenu_mode,
            final(self).max_visible_rows == old(self).max_visible_rows,
            final(self).last_background_error == old(self).last_background_error,
    {
        proof {
            self.search.lemma_results_len();
        }
        let max_visible = self.max_visible_rows;
        let total = self.search.result_list().len();
        if total == 0 {
            self.visible = 0;
            self.selected = 0;
            return;
        }
        if self.selected < self.visible {
            self.visible = self.selected;
        } else if self.selected >= self.visible + max_visible {
            self.visible = (if self.selected >= max_visible { self.selected - max_visible } else { 0 }) + 1;
        }
        let top = if total >= max_visible { total - max_visible } else { 0 };
        if self.visible > top {
            self.visible = top;
        }
        if self.selected >= total {
            self.selected = total - 1;
        }
    }

    /// Lets the search pick up matches found since the last update; only the
    /// results can change, and only while a query is in force.
    pub fn tick(&mut self)
        requires
            old(self).wf(),
        ensures
            final(self).wf(),
            final(self).ui() == old(self).ui(),
            final(self).search.items() == old(self).search.items(),
            final(self).search.query() == old(self).search.query(),
            final(self).search.tags() == old(self).search.tags(),
            final(self).search.is_querying() == old(self).search.is_querying(),
            results_fit(
                final(self).search.result_views(),
                final(self).search.items(),
                final(self).search.query(),
                final(self).search.tags(),
            ),
            !old(self).search.is_querying() ==> *final(self) == *old(self),
            final(self).search.is_case_sensitive() == old(self).search.is_case_sensitive(),
            final(self).search.pattern() == old(self).search.pattern(),
            final(self).search.matches() == old(self).search.matches() ==> final(self).search.result_views()
                == old(self).search.result_views(),
            final(self).search.result_views() == final(self).search.shown(),
            matched_outcome(
                final(self).search.result_views(),
                final(self).search.items(),
                final(self).search.query(),
                final(self).search.tags(),
                final(self).search.is_case_sensitive(),
            ),
            final(self).dmenu_mode == old(self).dmenu_mode,
            final(self).max_visible_rows == old(self).max_visible_rows,
            final(self).last_background_error == old(self).last_background_error,
    {
        self.search.tick();
    }

    /// Takes in what a background refresh delivered. New items replace the searched
    /// ones (asking for a redraw when they differ) and clear the last error; an
    /// error is remembered and returned for logging unless it repeats the last one.
    pub fn apply_update(&mut self, update: BackgroundUpdate) -> (log: Option<String>)
        requires
            old(self).wf(),
            update matches BackgroundUpdate::Items(v) ==> v.len() <= usize::MAX / 8,
        ensures
            final(self).wf(),
            final(self).query == old(self).query,
            final(self).cursor == old(self).cursor,
            final(self).selected == old(self).selected,
            final(self).visible == old(self).visible,
            final(self).exit == old(self).exit,
            match update {
                BackgroundUpdate::Items(v) => {
                    &&& log is None
                    &&& final(self).last_background_error is None
                    &&& final(self).search.items() == item_views(v@)
                    &&& final(self).needs_redraw == (old(self).needs_redraw || item_views(v@)
                        != old(self).search.items())
                    &&& final(self).search.query() == old(self).search.query()
                    &&& final(self).search.tags() == old(self).search.tags()
                    &&& final(self).search.is_querying() == old(self).search.is_querying()
                    &&& final(self).search.is_case_sensitive() == old(self).search.is_case_sensitive()
                    &&& (item_views(v@) == old(self).search.items() ==> final(self).search == old(self).search)
                    &&& final(self).search.result_views() == final(self).search.shown()
                    &&& matched_outcome(
                        final(self).search.result_views(),
                        final(self).search.items(),
                        final(self).search.query(),
                        final(self).search.tags(),
                        final(self).search.is_case_sensitive(),
                    )
                },
                BackgroundUpdate::Error(e) => {
                    &&& final(self).last_background_error == Some(e)
                    &&& final(self).search == old(self).search
                    &&& final(self).needs_redraw == old(self).needs_redraw
                    &&& (log is Some <==> opt_view(old(self).last_background_error) != Some(e@))
                    &&& (log matches Some(m) ==> m@ == e@)
                },
            },
    {
        match update {
            BackgroundUpdate::Items(items) => {
                self.last_background_error = None;
                if self.search.replace_items(items) {
                    self.needs_redraw = true;
                }
                proof {
                    self.search.lemma_shown();
                }
                None
            },
            BackgroundUpdate::Error(err) => {
                let should_log = match &self.last_background_error {
                    Some(last) => !(*last == err),
                    None => true,
                };
                self.last_background_error = Some(err.clone());
                if should_log {
                    Some(err)
                } else {
                    None
                }
            },
        }
    }
}

} // verus!
