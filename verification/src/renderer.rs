//! The integer side of drawing: compositing pixels into an ARGB buffer, the
//! rectangles of the window, which secondary text a row shows, where result
//! rows go, how a preview scrolls, and greedy word wrapping.
use crate::search::{LauncherItem, LauncherItemView};
use crate::text::{join, join_strings, string_views};
use vstd::prelude::*;

verus! {

/// One 8-bit channel of an ARGB pixel (`shift` 24 is alpha, 16 red, 8 green,
/// 0 blue).
pub open spec fn channel(p: u32, shift: u32) -> u32 {
    (p >> shift) & 0xFF
}

/// A channel of `fg` laid over `bg` with opacity `a` out of 255.
pub open spec fn mix(fg: u32, bg: u32, a: u32) -> u32 {
    ((fg * a + bg * (255 - a)) / 255) as u32
}

/// The opaque pixel with the given channels.
pub open spec fn opaque_rgb(r: u32, g: u32, b: u32) -> u32 {
    0xFF000000u32 | (r << 16u32) | (g << 8u32) | b
}

/// The colour `(r, g, b)` laid over the pixel `bg` with opacity `a`; the result
/// is opaque.
pub open spec fn blend(bg: u32, r: u32, g: u32, b: u32, a: u32) -> u32 {
    opaque_rgb(mix(r, channel(bg, 16), a), mix(g, channel(bg, 8), a), mix(b, channel(bg, 0), a))
}

/// What a rectangle of `color` makes of the pixel `bg`: an opaque colour
/// replaces it, any other is laid over it with the colour's own alpha.
pub open spec fn paint(bg: u32, color: u32) -> u32 {
    if channel(color, 24) == 0xFF {
        color
    } else {
        blend(bg, channel(color, 16), channel(color, 8), channel(color, 0), channel(color, 24))
    }
}

proof fn lemma_channel_bound(p: u32, shift: u32)
    ensures
        channel(p, shift) <= 255,
{
    assert((p >> shift) & 0xFF <= 255) by (bit_vector);
}

proof fn lemma_mix_bound(fg: u32, bg: u32, a: u32)
    requires
        fg <= 255,
        bg <= 255,
        a <= 255,
    ensures
        fg * a + bg * (255 - a) <= 255 * 255,
        mix(fg, bg, a) <= 255,
{
    assert(fg * a + bg * (255 - a) <= 255 * 255) by (nonlinear_arith)
        requires
            fg <= 255,
            bg <= 255,
            a <= 255,
    ;
}

/// Full opacity gives the colour itself, zero opacity the background's colour
/// (both made opaque).
pub proof fn lemma_blend_extremes(bg: u32, r: u32, g: u32, b: u32)
    requires
        r <= 255,
        g <= 255,
        b <= 255,
    ensures
        blend(bg, r, g, b, 255) == opaque_rgb(r, g, b),
        blend(bg, r, g, b, 0) == opaque_rgb(channel(bg, 16), channel(bg, 8), channel(bg, 0)),
{
    lemma_channel_bound(bg, 16);
    lemma_channel_bound(bg, 8);
    lemma_channel_bound(bg, 0);
    assert forall|x: u32, y: u32| x <= 255 && y <= 255 implies mix(x, y, 255) == x && mix(x, y, 0) == y by {
        assert((x * 255 + y * (255 - 255)) / 255 == x) by (nonlinear_arith)
            requires
                x <= 255,
        ;
        assert((x * 0 + y * (255 - 0)) / 255 == y) by (nonlinear_arith)
            requires
                y <= 255,
        ;
    }
}

/// Lays the colour `(r, g, b)` over the pixel `bg` with opacity `a`.
pub fn blend_pixel(bg: u32, r: u32, g: u32, b: u32, a: u32) -> (p: u32)
    requires
        r <= 255,
        g <= 255,
        b <= 255,
        a <= 255,
    ensures
        p == blend(bg, r, g, b, a),
{
    proof {
        lemma_channel_bound(bg, 16);
        lemma_channel_bound(bg, 8);
        lemma_channel_bound(bg, 0);
        lemma_mix_bound(r, channel(bg, 16), a);
        lemma_mix_bound(g, channel(bg, 8), a);
        lemma_mix_bound(b, channel(bg, 0), a);
    }
    let ia = 255 - a;
    let br = (bg >> 16) & 0xFF;
    let bgg = (bg >> 8) & 0xFF;
    let bb = bg & 0xFF;
    assert(bb == channel(bg, 0)) by (bit_vector)
        requires
            bb == bg & 0xFF,
    ;
    let nr = (r * a + br * ia) / 255;
    let ng = (g * a + bgg * ia) / 255;
    let nb = (b * a + bb * ia) / 255;
    0xFF000000 | (nr << 16) | (ng << 8) | nb
}

/// The pixel index of `(col, row)` in a buffer `width` pixels wide.
pub open spec fn pixel_index(width: u32, col: int, row: int) -> int {
    row * width + col
}

/// Whether the pixel `(col, row)` lies in the rectangle at `(x, y)` of size
/// `w` by `h`, clipped to a `width` by `height` buffer.
pub open spec fn in_rect(col: int, row: int, x: u32, y: u32, w: u32, h: u32, width: u32, height: u32) -> bool {
    &&& y <= row < y + h
    &&& row < height
    &&& x <= col < x + w
    &&& col < width
}

/// Fills the rectangle at `(x, y)` of size `w` by `h` with `color`, clipped to
/// the buffer (see `paint`); every other pixel is unchanged.
pub fn draw_rect(buf: &mut Vec<u32>, width: u32, height: u32, x: u32, y: u32, w: u32, h: u32, color: u32)
    requires
        old(buf).len() == width * height,
        width * height <= usize::MAX,
        x + w <= u32::MAX,
        y + h <= u32::MAX,
        width * height <= u32::MAX,
        channel(color, 24) == 0xFF && y < height && h > 0 ==> x <= width,
    ensures
        final(buf).len() == old(buf).len(),
        forall|row: int, col: int|
            0 <= row < height && 0 <= col < width ==> #[trigger] final(buf)@[pixel_index(width, col, row)] == if in_rect(
                col,
                row,
                x,
                y,
                w,
                h,
                width,
                height,
            ) {
                paint(old(buf)@[pixel_index(width, col, row)], color)
            } else {
                old(buf)@[pixel_index(width, col, row)]
            },
{
    proof {
        lemma_channel_bound(color, 24);
        lemma_channel_bound(color, 16);
        lemma_channel_bound(color, 8);
        lemma_channel_bound(color, 0);
    }
    let a = (color >> 24) & 0xFF;
    let cr = (color >> 16) & 0xFF;
    let cg = (color >> 8) & 0xFF;
    let cb = color & 0xFF;
    assert(cb == channel(color, 0)) by (bit_vector)
        requires
            cb == color & 0xFF,
    ;
    let row_end = if y + h < height { y + h } else { height };
    let col_end = if x + w < width { x + w } else { width };
    let mut row = y;
    while row < row_end
        invariant
            buf.len() == width * height,
            width * height <= u32::MAX,
            y <= row,
            row_end <= height,
            row_end == (if y + h < height { y + h } else { height as int }),
            col_end == (if x + w < width { x + w } else { width as int }),
            a == channel(color, 24),
            cr == channel(color, 16),
            cg == channel(color, 8),
            cb == channel(color, 0),
            cr <= 255 && cg <= 255 && cb <= 255 && a <= 255,
            forall|r: int, c: int|
                0 <= r < height && 0 <= c < width ==> #[trigger] buf@[pixel_index(width, c, r)] == if in_rect(
                    c,
                    r,
                    x,
                    y,
                    w,
                    h,
                    width,
                    height,
                ) && r < row {
                    paint(old(buf)@[pixel_index(width, c, r)], color)
                } else {
                    old(buf)@[pixel_index(width, c, r)]
                },
        decreases row_end - row,
    {
        let mut col = x;
        proof {
            assert(row < height);
            assert(row * width + width <= width * height) by (nonlinear_arith)
                requires
                    row < height,
            ;
        }
        while col < col_end
            invariant
                buf.len() == width * height,
                width * height <= u32::MAX,
                y <= row < row_end,
                row_end <= height,
                row * width + width <= width * height,
                row_end == (if y + h < height { y + h } else { height as int }),
                col_end == (if x + w < width { x + w } else { width as int }),
                x <= col,
                col_end <= width,
                a == channel(color, 24),
                cr == channel(color, 16),
                cg == channel(color, 8),
                cb == channel(color, 0),
                cr <= 255 && cg <= 255 && cb <= 255 && a <= 255,
                forall|r: int, c: int|
                    0 <= r < height && 0 <= c < width ==> #[trigger] buf@[pixel_index(width, c, r)] == if in_rect(
                        c,
                        r,
                        x,
                        y,
                        w,
                        h,
                        width,
                        height,
                    ) && (r < row || (r == row && c < col)) {
                        paint(old(buf)@[pixel_index(width, c, r)], color)
                    } else {
                        old(buf)@[pixel_index(width, c, r)]
                    },
            decreases col_end - col,
        {
            let idx = (row * width + col) as usize;
            let bg = buf[idx];
            let p = if a == 0xFF {
                color
            } else {
                blend_pixel(bg, cr, cg, cb, a)
            };
            buf.set(idx, p);
            proof {
                lemma_pixel_index_unique(width, height);
                assert(buf@[pixel_index(width, col as int, row as int)] == paint(old(buf)@[pixel_index(width, col as int, row as int)], color));
            }
            col += 1;
        }
        row += 1;
    }
}

/// Distinct pixels have distinct indices, all within the buffer.
proof fn lemma_pixel_index_unique(width: u32, height: u32)
    ensures
        forall|r1: int, c1: int, r2: int, c2: int|
            0 <= r1 < height && 0 <= c1 < width && 0 <= r2 < height && 0 <= c2 < width
                && #[trigger] pixel_index(width, c1, r1) == #[trigger] pixel_index(width, c2, r2) ==> r1 == r2 && c1 == c2,
        forall|r: int, c: int| 0 <= r < height && 0 <= c < width ==> 0 <= #[trigger] pixel_index(width, c, r) < width * height,
{
    assert forall|r1: int, c1: int, r2: int, c2: int|
        0 <= r1 < height && 0 <= c1 < width && 0 <= r2 < height && 0 <= c2 < width
            && #[trigger] pixel_index(width, c1, r1) == #[trigger] pixel_index(width, c2, r2) implies r1 == r2 && c1 == c2 by {
        if r1 < r2 {
            assert(r1 * width + width <= r2 * width) by (nonlinear_arith)
                requires
                    r1 < r2,
                    width >= 0,
            ;
        } else if r2 < r1 {
            assert(r2 * width + width <= r1 * width) by (nonlinear_arith)
                requires
                    r2 < r1,
                    width >= 0,
            ;
        }
    }
    assert forall|r: int, c: int| 0 <= r < height && 0 <= c < width implies 0 <= #[trigger] pixel_index(width, c, r) < width * height by {
        assert(0 <= r * width && r * width + width <= width * height) by (nonlinear_arith)
            requires
                0 <= r < height,
                width >= 0,
        ;
    }
}

/// The secondary text of a row: its inline meta when present (none when that
/// is empty); else the entry's own name when it differs from the row's name;
/// else the command when it differs from the row's name.
pub open spec fn meta_text(item: LauncherItemView) -> Option<Seq<char>> {
    match item.entry.inline_meta {
        Some(m) => if m.len() == 0 {
            None
        } else {
            Some(m)
        },
        None => if item.entry.name.len() > 0 && item.entry.name != item.name {
            Some(item.entry.name)
        } else if item.entry.command != item.name {
            Some(item.entry.command)
        } else {
            None
        },
    }
}

/// The secondary text of a row (see `meta_text`).
pub fn row_meta(item: &LauncherItem) -> (r: Option<String>)
    ensures
        match r {
            Some(m) => meta_text(item@) == Some(m@),
            None => meta_text(item@) is None,
        },
{
    match &item.entry.inline_meta {
        Some(m) => if m.as_str().is_empty() {
            None
        } else {
            Some(m.clone())
        },
        None => {
            if !item.entry.name.as_str().is_empty() && !crate::text::str_eq(item.entry.name.as_str(), item.name.as_str()) {
                Some(item.entry.name.clone())
            } else if !crate::text::str_eq(item.entry.command.as_str(), item.name.as_str()) {
                Some(item.entry.command.clone())
            } else {
                None
            }
        },
    }
}

/// How many result rows fit below the input row and its separator line.
pub fn visible_rows(height: u32, input_h: u32, row_h: u32) -> (n: u32)
    requires
        row_h > 0,
        input_h < u32::MAX,
    ensures
        n == (if height > input_h + 1 { (height - input_h - 1) as int } else { 0 }) / row_h as int,
{
    let free = if height > input_h + 1 { height - input_h - 1 } else { 0 };
    free / row_h
}

/// The lines of a preview that are drawn: from `start` up to `end`, and the
/// largest scroll position.
#[derive(Debug)]
pub struct PreviewWindow {
    pub start: usize,
    pub end: usize,
    pub max_scroll: usize,
}

/// Which of `total` wrapped lines a preview with room for `visible` lines shows
/// when scrolled to `scroll`: the scroll is held to at most `total - visible`
/// (zero when everything fits), and at most `visible` lines are shown.
pub fn preview_window(total: usize, visible: usize, scroll: usize) -> (r: PreviewWindow)
    ensures
        r.max_scroll == (if total > visible { total - visible } else { 0 }),
        r.start == (if scroll < r.max_scroll { scroll as int } else { r.max_scroll as int }),
        r.end == (if r.start + visible < total { r.start + visible } else { total as int }),
        r.start <= r.end <= total,
{
    let max_scroll = if total > visible { total - visible } else { 0 };
    let start = if scroll < max_scroll { scroll } else { max_scroll };
    let end = if start + visible < total { start + visible } else { total };
    PreviewWindow { start, end, max_scroll }
}

/// How many lines of text fit in a preview: the space above the tag bar, less the
/// top padding, in whole lines (none when the line height is zero).
pub fn preview_lines(height: u32, bar_h: u32, pad_y: u32, line_height: u32) -> (n: usize)
    ensures
        ({
            let bar_y: int = if height > bar_h { height - bar_h } else { 0 };
            let area: int = if bar_y > pad_y { bar_y - pad_y } else { 0 };
            n == if line_height > 0 { area / line_height as int } else { 0 }
        }),
{
    let bar_y = if height > bar_h { height - bar_h } else { 0 };
    let area = if bar_y > pad_y { bar_y - pad_y } else { 0 };
    if line_height > 0 {
        (area / line_height) as usize
    } else {
        0
    }
}

/// Where one result row is drawn: the result's index, the row's top edge,
/// whether it is the selected row, and whether a separator line follows it.
#[derive(Debug)]
pub struct RowSlot {
    pub index: usize,
    pub y: u32,
    pub selected: bool,
    pub separator: bool,
}

/// The rows that fit: at most `visible_rows` of them, each below the previous
/// one, none past the last result or the bottom edge.
pub open spec fn row_fits(
    i: int,
    results: nat,
    first: nat,
    max_rows: nat,
    input_h: nat,
    row_h: nat,
    height: nat,
) -> bool {
    &&& i < max_rows
    &&& first + i < results
    &&& input_h + 1 + i * row_h + row_h <= height
}

/// The slot of row `i` when results are shown from `first` on.
pub open spec fn row_slot(i: int, first: nat, selected: nat, max_rows: nat, input_h: nat, row_h: nat) -> (int, int, bool, bool) {
    (first + i, input_h + 1 + i * row_h, first + i == selected, i + 1 < max_rows)
}

/// The height left for result rows below the input row and its separator.
pub open spec fn rows_height(height: u32, input_h: u32) -> int {
    if height > input_h + 1 {
        height - input_h - 1
    } else {
        0
    }
}

/// The result rows drawn below the input row, the first of them showing result
/// `first`: one slot per row, top to bottom, for as long as rows fit (see
/// `row_fits`).
pub fn row_slots(results: usize, first: usize, selected: usize, height: u32, input_h: u32, row_h: u32) -> (r: Vec<RowSlot>)
    requires
        row_h > 0,
        input_h < u32::MAX,
        height + row_h <= u32::MAX,
    ensures
        ({
            let max_rows = rows_height(height, input_h) / row_h as int;
            &&& forall|i: int| 0 <= i < r.len() ==> #[trigger] row_fits(i, results as nat, first as nat, max_rows as nat, input_h as nat, row_h as nat, height as nat)
            &&& !row_fits(r.len() as int, results as nat, first as nat, max_rows as nat, input_h as nat, row_h as nat, height as nat)
            &&& forall|i: int| 0 <= i < r.len() ==> (#[trigger] r@[i].index as int, r@[i].y as int, r@[i].selected, r@[i].separator)
                == row_slot(i, first as nat, selected as nat, max_rows as nat, input_h as nat, row_h as nat)
        }),
{
    let max_rows = visible_rows(height, input_h, row_h);
    let ghost mr = rows_height(height, input_h) / row_h as int;
    let ghost fh = rows_height(height, input_h);
    proof {
        assert(max_rows as int * row_h <= fh) by (nonlinear_arith)
            requires
                max_rows as int == fh / row_h as int,
                row_h > 0,
                fh >= 0,
        ;
    }
    let mut out: Vec<RowSlot> = Vec::new();
    let mut i: u32 = 0;
    let mut y: u32 = input_h + 1;
    while i < max_rows && first < results && (i as usize) < results - first && (y as u64) + (row_h as u64) <= height as u64
        invariant
            row_h > 0,
            input_h < u32::MAX,
            height + row_h <= u32::MAX,
            max_rows == mr,
            fh == rows_height(height, input_h),
            max_rows as int * row_h <= fh,
            i <= max_rows,
            y == input_h + 1 + i * row_h,
            out.len() == i,
            forall|k: int| 0 <= k < out.len() ==> #[trigger] row_fits(k, results as nat, first as nat, mr as nat, input_h as nat, row_h as nat, height as nat),
            forall|k: int| 0 <= k < out.len() ==> (#[trigger] out@[k].index as int, out@[k].y as int, out@[k].selected, out@[k].separator)
                == row_slot(k, first as nat, selected as nat, mr as nat, input_h as nat, row_h as nat),
        decreases max_rows - i,
    {
        let index = first + i as usize;
        out.push(RowSlot { index, y, selected: index == selected, separator: i + 1 < max_rows });
        proof {
            assert((i + 1) as int * row_h == i as int * row_h + row_h) by (nonlinear_arith);
        }
        y = y + row_h;
        i = i + 1;
    }
    out
}

/// Greedy word wrapping, one word at a time: the finished lines, and the words
/// of the line being filled.
#[derive(Debug)]
pub struct WrapState {
    pub lines: Vec<String>,
    pub words: Vec<String>,
}

impl WrapState {
    /// Nothing wrapped yet.
    pub fn new() -> (r: Self)
        ensures
            r.lines@.len() == 0,
            r.words@.len() == 0,
    {
        WrapState { lines: Vec::new(), words: Vec::new() }
    }

    /// The text whose width decides where `word` goes: the current line with
    /// `word` added.
    pub fn candidate(&self, word: &str) -> (r: String)
        ensures
            r@ == join(string_views(self.words@).push(word@), " "@),
    {
        let mut ws: Vec<String> = Vec::new();
        for i in 0..self.words.len()
            invariant
                string_views(ws@) == string_views(self.words@.take(i as int)),
        {
            let ghost prev = ws@;
            ws.push(self.words[i].clone());
            proof {
                assert(string_views(ws@) =~= string_views(prev).push(self.words@[i as int]@));
                assert(string_views(self.words@.take(i + 1)) =~= string_views(self.words@.take(i as int)).push(
                    self.words@[i as int]@,
                ));
            }
        }
        proof {
            assert(self.words@.take(self.words.len() as int) =~= self.words@);
        }
        let ghost before = ws@;
        ws.push(String::from_str(word));
        proof {
            assert(string_views(ws@) =~= string_views(before).push(word@));
        }
        join_strings(&ws, " ")
    }

    /// Places `word`, given the width of `candidate(word)`: when that is wider
    /// than `max_width` and the line already has words, the line is finished and
    /// `word` starts the next one; otherwise `word` joins the line.
    pub fn step(&mut self, word: String, width: u32, max_width: u32)
        ensures
            if width > max_width && old(self).words@.len() > 0 {
                &&& string_views(final(self).lines@) == string_views(old(self).lines@).push(
                    join(string_views(old(self).words@), " "@),
                )
                &&& string_views(final(self).words@) == seq![word@]
            } else {
                &&& string_views(final(self).lines@) == string_views(old(self).lines@)
                &&& string_views(final(self).words@) == string_views(old(self).words@).push(word@)
            },
    {
        if width > max_width && self.words.len() > 0 {
            let line = join_strings(&self.words, " ");
            let ghost prev = self.lines@;
            self.lines.push(line);
            let mut fresh: Vec<String> = Vec::new();
            fresh.push(word);
            self.words = fresh;
            proof {
                assert(string_views(self.lines@) =~= string_views(prev).push(line@));
                assert(string_views(self.words@) =~= seq![word@]);
            }
        } else {
            let ghost prev = self.words@;
            self.words.push(word);
            proof {
                assert(string_views(self.words@) =~= string_views(prev).push(word@));
            }
        }
    }

    /// The wrapped lines: the finished ones, then the line being filled if it has
    /// words.
    pub fn finish(self) -> (r: Vec<String>)
        ensures
            string_views(r@) == if self.words@.len() > 0 {
                string_views(self.lines@).push(join(string_views(self.words@), " "@))
            } else {
                string_views(self.lines@)
            },
    {
        let mut lines = self.lines;
        if self.words.len() > 0 {
            let ghost prev = lines@;
            let line = join_strings(&self.words, " ");
            lines.push(line);
            proof {
                assert(string_views(lines@) =~= string_views(prev).push(line@));
            }
        }
        lines
    }
}

} // verus!
