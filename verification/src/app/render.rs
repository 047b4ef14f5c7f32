//! Layout of the screen: column widths, the scroll window of the current
//! folder, and the text of every pane.
use vstd::prelude::*;
use crate::app::{App, AppView, ScreenSize};
use crate::chars::{push_decimal, decimal, push_str};
use crate::fs_operations::{volume_label, volume_label_text};
use crate::help::{help_lines, help_text};
use crate::text::{clip_text, clipped, fit_text, fitted, string_views, wrap_text, wrapped};
use crate::types::{entry_views, ClipboardMode, EntryItem, EntryView, Modal, ModalView};

verus! {

pub open spec fn imax(a: int, b: int) -> int {
    if a >= b {
        a
    } else {
        b
    }
}

pub open spec fn imin(a: int, b: int) -> int {
    if a <= b {
        a
    } else {
        b
    }
}

/// `a - b`, or zero when `b` is larger (`saturating_sub`).
pub open spec fn sat_sub(a: int, b: int) -> int {
    if a >= b {
        a - b
    } else {
        0
    }
}

/// Widths of the parent, current and preview columns for a terminal `total`
/// columns wide: six columns go to separators and one is kept free; narrow
/// terminals split the rest evenly, wider ones give a quarter to the parent,
/// three tenths to the current folder and the rest to the preview, with
/// minimums of 10, 12 and 12.
pub open spec fn column_widths(total: int) -> (int, int, int) {
    if total <= 10 {
        (1, 1, 1)
    } else {
        let available = total - 7;
        if available <= 34 {
            let left = imax(available / 3, 1);
            let middle = imax((available - left) / 2, 1);
            let right = imax(sat_sub(available, left + middle), 1);
            (left, middle, right)
        } else {
            let left0 = imax(available / 4, 10);
            let middle0 = imax(available * 3 / 10, 12);
            let (left, middle) = if left0 + middle0 + 12 > available {
                let overflow = left0 + middle0 + 12 - available;
                let cut_left = imin(overflow / 2, sat_sub(left0, 10));
                let remaining = overflow - cut_left;
                let cut_middle = imin(remaining, sat_sub(middle0, 12));
                (left0 - cut_left, middle0 - cut_middle)
            } else {
                (left0, middle0)
            };
            (left, middle, imax(sat_sub(available, left + middle), 12))
        }
    }
}

/// Splits the terminal width into the three column widths (see `column_widths`).
pub fn three_column_widths(total_width: u16) -> (r: (u16, u16, u16))
    ensures
        (r.0 as int, r.1 as int, r.2 as int) == column_widths(total_width as int),
        r.0 >= 1 && r.1 >= 1 && r.2 >= 1,
{
    let separators: u16 = 6;
    let safety_margin: u16 = 1;
    if total_width <= separators + safety_margin + 3 {
        return (1, 1, 1);
    }
    let available: u16 = total_width - separators - safety_margin;
    let min_left: u16 = 10;
    let min_middle: u16 = 12;
    let min_right: u16 = 12;
    if available <= min_left + min_middle + min_right {
        let a3: u16 = available / 3;
        let left: u16 = if a3 >= 1 { a3 } else { 1 };
        let h: u16 = (available - left) / 2;
        let middle: u16 = if h >= 1 { h } else { 1 };
        let rest: u16 = if available >= left + middle { available - (left + middle) } else { 0 };
        let right: u16 = if rest >= 1 { rest } else { 1 };
        return (left, middle, right);
    }
    let quarter: u16 = available / 4;
    let three_tenths: u16 = ((available as u32) * 3 / 10) as u16;
    let mut left: u16 = if quarter >= min_left { quarter } else { min_left };
    let mut middle: u16 = if three_tenths >= min_middle { three_tenths } else { min_middle };
    if left + middle + min_right > available {
        let overflow: u16 = left + middle + min_right - available;
        let room_left: u16 = left - min_left;
        let cut_left: u16 = if overflow / 2 <= room_left { overflow / 2 } else { room_left };
        left = left - cut_left;
        let remaining: u16 = overflow - cut_left;
        let room_middle: u16 = middle - min_middle;
        let cut_middle: u16 = if remaining <= room_middle { remaining } else { room_middle };
        middle = middle - cut_middle;
    }
    let rest: u16 = if available >= left + middle { available - (left + middle) } else { 0 };
    let right: u16 = if rest >= min_right { rest } else { min_right };
    (left, middle, right)
}

/// The rows left for the folder lists below the header: the height minus seven.
pub open spec fn rows_from_height(height: int) -> int {
    sat_sub(height, 7)
}

/// The rows of the folder lists, at least one.
pub open spec fn list_rows(height: int) -> int {
    imax(rows_from_height(height), 1)
}

/// The largest scroll offset for `len` entries in `rows` rows: the list may
/// scroll until its last entries fill all rows but one (at least one entry).
pub open spec fn max_scroll_start_for(len: int, rows: int) -> int {
    let rows = imax(rows, 1);
    sat_sub(len, imax(sat_sub(rows, 1), 1))
}

/// How many entries fit when the window starts at `start`: a row is taken by
/// the "more above" marker when `start > 0`, and one more by the "more below"
/// marker when entries remain below (at least one entry is always shown).
pub open spec fn window_rows(len: int, start: int, rows: int) -> int {
    if start > 0 {
        let avail = sat_sub(rows, 1);
        if imin(start + avail, len) < len {
            imax(sat_sub(avail, 1), 1)
        } else {
            avail
        }
    } else {
        if imin(start + rows, len) < len {
            imax(sat_sub(rows, 1), 1)
        } else {
            rows
        }
    }
}

/// Whether entries remain below the window that starts at `start`.
pub open spec fn more_below_for(len: int, start: int, rows: int) -> bool {
    if start > 0 {
        imin(start + sat_sub(rows, 1), len) < len
    } else {
        imin(start + rows, len) < len
    }
}

/// The entries `[start, end)` shown when the list is scrolled to `scroll`.
pub open spec fn visible_range_for(len: int, scroll: int, rows: int) -> (int, int) {
    let rows = imax(rows, 1);
    if len == 0 {
        (0, 0)
    } else {
        let start = imin(scroll, len);
        (start, imin(start + window_rows(len, start, rows), len))
    }
}

/// The scroll offset after bringing the selection into view: scroll up to it,
/// or down so that it is the last shown entry, then keep within
/// `max_scroll_start_for`.
pub open spec fn ensured_scroll(len: int, selected: int, scroll: int, rows: int) -> int {
    let rows = imax(rows, 1);
    let (vs, ve) = visible_range_for(len, scroll, rows);
    let s = if selected < vs {
        selected
    } else if selected >= ve {
        selected + 1 - imax(sat_sub(ve, vs), 1)
    } else {
        scroll
    };
    imin(s, max_scroll_start_for(len, rows))
}

/// The scroll offset after keeping the selection within `rows` rows from it,
/// then within `max_scroll_start_for`.
pub open spec fn clamped_scroll(len: int, selected: int, scroll: int, rows: int) -> int {
    let rows = imax(rows, 1);
    let s = if selected < scroll {
        selected
    } else if selected >= scroll + rows {
        selected + 1 - rows
    } else {
        scroll
    };
    imin(s, max_scroll_start_for(len, rows))
}

/// The largest scroll offset for `len` entries (see `max_scroll_start_for`).
pub fn max_scroll_start_len(len: usize, rows: usize) -> (r: usize)
    ensures
        r == max_scroll_start_for(len as int, rows as int),
{
    let rows = if rows >= 1 { rows } else { 1 };
    let m = if rows - 1 >= 1 { rows - 1 } else { 1 };
    if len >= m { len - m } else { 0 }
}

/// `min(start + k, len)` for `start <= len`, without overflow.
fn capped_add(start: usize, k: usize, len: usize) -> (r: usize)
    requires
        start <= len,
    ensures
        r == imin(start + k, len as int),
{
    if k >= len - start { len } else { start + k }
}

/// The entries shown for `len` entries (see `visible_range_for`).
pub fn visible_range_len(len: usize, scroll_offset: usize, rows: usize) -> (r: (usize, usize))
    ensures
        (r.0 as int, r.1 as int) == visible_range_for(len as int, scroll_offset as int, rows as int),
        r.0 <= r.1 <= len,
{
    let rows = if rows >= 1 { rows } else { 1 };
    if len == 0 {
        return (0, 0);
    }
    let start = if scroll_offset <= len { scroll_offset } else { len };
    let file_rows = if start > 0 {
        let avail = if rows >= 1 { rows - 1 } else { 0 };
        if capped_add(start, avail, len) < len {
            let a = if avail >= 1 { avail - 1 } else { 0 };
            if a >= 1 { a } else { 1 }
        } else {
            avail
        }
    } else {
        if capped_add(start, rows, len) < len {
            let a = rows - 1;
            if a >= 1 { a } else { 1 }
        } else {
            rows
        }
    };
    (start, capped_add(start, file_rows, len))
}

/// The scroll offset that brings the selection into view (see `ensured_scroll`).
pub fn ensured_scroll_len(len: usize, selected: usize, scroll_offset: usize, rows: usize) -> (r: usize)
    ensures
        r == ensured_scroll(len as int, selected as int, scroll_offset as int, rows as int),
{
    let rows = if rows >= 1 { rows } else { 1 };
    let (vs, ve) = visible_range_len(len, scroll_offset, rows);
    let s = if selected < vs {
        selected
    } else if selected >= ve {
        let d = ve - vs;
        let visible_items = if d >= 1 { d } else { 1 };
        selected - (visible_items - 1)
    } else {
        scroll_offset
    };
    let m = max_scroll_start_len(len, rows);
    if s <= m { s } else { m }
}

/// The scroll offset kept near the selection (see `clamped_scroll`).
pub fn clamped_scroll_len(len: usize, selected: usize, scroll_offset: usize, rows: usize) -> (r: usize)
    ensures
        r == clamped_scroll(len as int, selected as int, scroll_offset as int, rows as int),
{
    let rows = if rows >= 1 { rows } else { 1 };
    let s = if selected < scroll_offset {
        selected
    } else if selected - scroll_offset >= rows {
        selected - (rows - 1)
    } else {
        scroll_offset
    };
    let m = max_scroll_start_len(len, rows);
    if s <= m { s } else { m }
}

/// The view with a new scroll offset.
pub open spec fn with_scroll(v: AppView, scroll: int) -> AppView {
    AppView { scroll_offset: scroll, ..v }
}

/// The offset and last offset of the preview after scrolling it by `delta`
/// lines, for a preview of `lines` wrapped lines shown in `rows` rows.
pub open spec fn preview_scrolled(offset: int, delta: int, lines: int, rows: int) -> (int, int) {
    let max_offset = sat_sub(lines, rows);
    let next = if delta < 0 {
        sat_sub(offset, -delta)
    } else {
        offset + delta
    };
    (imin(next, max_offset), max_offset)
}

/// The width at which the preview is wrapped: the preview column, at least 20.
pub open spec fn preview_width(width: int) -> int {
    imax(column_widths(width).2, 20)
}

/// The view after scrolling the preview by `delta` lines.
pub open spec fn after_preview_scroll(v: AppView, delta: int, size: ScreenSize) -> AppView {
    let lines = wrapped(v.preview, preview_width(size.width as int) as nat).len() as int;
    let (offset, max_offset) = preview_scrolled(
        v.preview_scroll_offset,
        delta,
        lines,
        list_rows(size.height as int),
    );
    AppView {
        preview_scroll_offset: offset,
        status: "Preview scroll: "@ + decimal(offset as nat) + "/"@ + decimal(max_offset as nat),
        ..v
    }
}

impl App {
    /// The rows of the folder lists for a terminal `height` rows high.
    pub fn current_list_rows_from_height(&self, height: u16) -> (r: usize)
        ensures
            r == rows_from_height(height as int),
    {
        if height >= 7 { (height - 7) as usize } else { 0 }
    }

    /// The rows of the folder lists, at least one.
    pub fn current_list_rows(&self, size: ScreenSize) -> (r: usize)
        ensures
            r == list_rows(size.height as int),
            r >= 1,
    {
        let r = self.current_list_rows_from_height(size.height);
        if r >= 1 { r } else { 1 }
    }

    /// The largest scroll offset of the current folder (see `max_scroll_start_for`).
    pub fn max_scroll_start(&self, rows: usize) -> (r: usize)
        ensures
            r == max_scroll_start_for(self@.entries.len() as int, rows as int),
    {
        max_scroll_start_len(self.entries.len(), rows)
    }

    /// The entries `[start, end)` shown when the list is scrolled to `scroll_offset`.
    pub fn visible_entry_range(&self, scroll_offset: usize, rows: usize) -> (r: (usize, usize))
        ensures
            (r.0 as int, r.1 as int) == visible_range_for(self@.entries.len() as int, scroll_offset as int, rows as int),
    {
        visible_range_len(self.entries.len(), scroll_offset, rows)
    }

    /// Scrolls so that the selection comes into view (see `ensured_scroll`).
    pub fn ensure_selected_visible(&mut self, rows: usize)
        ensures
            final(self)@ == with_scroll(old(self)@, ensured_scroll(old(self)@.entries.len() as int, old(self)@.selected, old(self)@.scroll_offset, rows as int)),
            final(self).navigation_history == old(self).navigation_history,
            final(self).scroll_offset <= max_scroll_start_for(old(self)@.entries.len() as int, rows as int),
    {
        let s = ensured_scroll_len(self.entries.len(), self.selected, self.scroll_offset, rows);
        self.scroll_offset = s;
    }

    /// Keeps the scroll offset within `rows` rows of the selection (see `clamped_scroll`).
    pub fn clamp_scroll_to_selection(&mut self, rows: usize)
        ensures
            final(self)@ == with_scroll(old(self)@, clamped_scroll(old(self)@.entries.len() as int, old(self)@.selected, old(self)@.scroll_offset, rows as int)),
            final(self).navigation_history == old(self).navigation_history,
    {
        let s = clamped_scroll_len(self.entries.len(), self.selected, self.scroll_offset, rows);
        self.scroll_offset = s;
    }

    /// Scrolls the preview by `delta` lines and reports the position in the status line.
    pub fn scroll_preview_by(&mut self, delta: isize, size: ScreenSize)
        ensures
            final(self)@ == after_preview_scroll(old(self)@, delta as int, size),
            final(self).navigation_history == old(self).navigation_history,
    {
        let (_, _, right_width) = three_column_widths(size.width);
        let rows = self.current_list_rows(size);
        let pw: usize = if right_width >= 20 { right_width as usize } else { 20 };
        let wrapped_lines = wrap_text(self.preview.as_str(), pw);
        let n = wrapped_lines.len();
        let max_offset = if n >= rows { n - rows } else { 0 };
        let next = if delta < 0 {
            let back: usize = if delta == isize::MIN { (isize::MAX as usize) + 1 } else { (-delta) as usize };
            if self.preview_scroll_offset >= back { self.preview_scroll_offset - back } else { 0 }
        } else {
            let fwd = delta as usize;
            if self.preview_scroll_offset <= usize::MAX - fwd { self.preview_scroll_offset + fwd } else { usize::MAX }
        };
        let offset = if next <= max_offset { next } else { max_offset };
        self.preview_scroll_offset = offset;
        let mut status = String::new();
        crate::chars::push_str(&mut status, "Preview scroll: ");
        push_decimal(&mut status, offset);
        crate::chars::push_str(&mut status, "/");
        push_decimal(&mut status, max_offset);
        self.status = status;
    }
}

/// The marker in front of an entry: `[/]` for a folder, `[.]` for a file,
/// `[?]` for anything else.
pub open spec fn kind_marker(e: EntryView) -> Seq<char> {
    if e.is_dir {
        "[/]"@
    } else if e.is_file {
        "[.]"@
    } else {
        "[?]"@
    }
}

/// The row of one entry: `>` when highlighted, the kind marker and the name,
/// fitted to `width`.
pub open spec fn entry_row(e: EntryView, highlighted: bool, width: nat) -> Seq<char> {
    fitted(
        (if highlighted {
            ">"@
        } else {
            " "@
        }) + " "@ + kind_marker(e) + " "@ + e.name,
        width,
    )
}

/// The rows of an unscrolled folder list: every entry, the one at
/// `selected_index` or with the path `highlight` marked; `(empty)` for none.
pub open spec fn directory_lines(
    es: Seq<EntryView>,
    width: nat,
    highlight: Option<Seq<char>>,
    selected_index: Option<int>,
) -> Seq<Seq<char>> {
    if es.len() == 0 {
        seq!["(empty)"@]
    } else {
        Seq::new(
            es.len(),
            |i: int| entry_row(es[i], selected_index == Some(i) || highlight == Some(es[i].path), width),
        )
    }
}

/// `body` followed by empty rows up to `rows` rows, and cut to `rows` rows.
pub open spec fn fill_rows(body: Seq<Seq<char>>, rows: nat) -> Seq<Seq<char>> {
    if body.len() < rows {
        body + Seq::new((rows - body.len()) as nat, |i: int| Seq::<char>::empty())
    } else {
        body.take(rows as int)
    }
}

/// The rows of the scrolled current folder: a "more above" marker when it is
/// scrolled, the visible entries with the selected one marked, a "more below"
/// marker when entries remain, filled up or cut to `rows` (at least one) rows.
pub open spec fn scrolled_lines(
    es: Seq<EntryView>,
    selected: int,
    scroll: int,
    width: nat,
    rows: int,
) -> Seq<Seq<char>> {
    let rows = imax(rows, 1);
    let n = es.len() as int;
    if n == 0 {
        fill_rows(seq![fitted("empty"@, width)], rows as nat)
    } else {
        let (start, end) = visible_range_for(n, scroll, rows);
        let above: Seq<Seq<char>> = if start > 0 {
            seq![fitted("^ more above"@, width)]
        } else {
            Seq::empty()
        };
        let shown = Seq::new(
            (end - start) as nat,
            |k: int| entry_row(es[start + k], start + k == selected, width),
        );
        let below: Seq<Seq<char>> = if more_below_for(n, start, rows) {
            seq![fitted("v more below"@, width)]
        } else {
            Seq::empty()
        };
        fill_rows(above + shown + below, rows as nat)
    }
}

fn entry_row_text(e: &EntryItem, highlighted: bool, width: usize) -> (r: String)
    ensures
        r@ == entry_row(e@, highlighted, width as nat),
{
    let mut s = String::new();
    push_str(&mut s, if highlighted { ">" } else { " " });
    push_str(&mut s, " ");
    push_str(&mut s, if e.is_dir { "[/]" } else if e.is_file { "[.]" } else { "[?]" });
    push_str(&mut s, " ");
    push_str(&mut s, e.name.as_str());
    fit_text(s.as_str(), width)
}

fn fill_to_rows(lines: &mut Vec<String>, rows: usize)
    ensures
        string_views(final(lines)@) == fill_rows(string_views(old(lines)@), rows as nat),
        final(lines)@.len() == rows,
{
    let ghost body = string_views(lines@);
    if lines.len() < rows {
        while lines.len() < rows
            invariant
                lines@.len() <= rows,
                body.len() <= lines@.len(),
                string_views(lines@) == body + Seq::new((lines@.len() - body.len()) as nat, |i: int| Seq::<char>::empty()),
            decreases rows - lines@.len(),
        {
            let ghost before = string_views(lines@);
            lines.push(String::new());
            assert(string_views(lines@) == before.push(Seq::<char>::empty()));
            assert(body + Seq::new((lines@.len() - body.len()) as nat, |i: int| Seq::<char>::empty())
                == (body + Seq::new((before.len() - body.len()) as nat, |i: int| Seq::<char>::empty())).push(Seq::<char>::empty()));
        }
    } else {
        lines.truncate(rows);
        assert(string_views(lines@) == body.take(rows as int));
    }
}

/// The title of a pane: the label and, when given, the folder in brackets.
pub open spec fn panel_title_text(label: Seq<char>, path: Option<Seq<char>>) -> Seq<char> {
    match path {
        Some(p) => label + " ["@ + p + "]"@,
        None => label,
    }
}

/// The labels of the first nine volumes, joined by ` | `.
pub open spec fn volume_list(vs: Seq<Seq<char>>, k: nat) -> Seq<char>
    decreases k,
{
    if k == 0 {
        Seq::empty()
    } else if k == 1 {
        volume_label_text(0, vs[0])
    } else {
        volume_list(vs, (k - 1) as nat) + " | "@ + volume_label_text((k - 1) as nat, vs[k - 1])
    }
}

/// The volume line: `Volumes: ` and the first nine volumes, fitted to `width`.
pub open spec fn volume_summary_text(vs: Seq<Seq<char>>, width: nat) -> Seq<char> {
    if vs.len() == 0 {
        fitted("Volumes: none found"@, width)
    } else {
        fitted("Volumes: "@ + volume_list(vs, if vs.len() < 9 { vs.len() } else { 9 }), width)
    }
}

/// What the terminal shows for the explorer (apart from the help screen).
pub struct Screen {
    /// `File Explorer - ` and the current folder.
    pub title: String,
    /// The line of controls under the title.
    pub controls: String,
    /// The volume line.
    pub volumes: String,
    pub parent_title: String,
    pub current_title: String,
    pub preview_title: String,
    /// The rows of the three panes, separated by ` | `.
    pub rows: Vec<String>,
    /// The terminal row of the status line.
    pub footer_row: u16,
    /// The status line.
    pub footer: String,
    /// The delete question, shown on the row above the status line.
    pub prompt: Option<String>,
}

/// The help screen.
pub struct HelpScreen {
    pub title: String,
    pub lines: Vec<String>,
    pub footer_row: u16,
    pub footer: String,
}

pub open spec fn row_or_empty(ls: Seq<Seq<char>>, i: int) -> Seq<char> {
    if 0 <= i < ls.len() {
        ls[i]
    } else {
        Seq::empty()
    }
}

/// One row of the three panes.
pub open spec fn pane_row(
    left: Seq<Seq<char>>,
    middle: Seq<Seq<char>>,
    right: Seq<Seq<char>>,
    preview_start: int,
    row: int,
    widths: (int, int, int),
) -> Seq<char> {
    fitted(row_or_empty(left, row), widths.0 as nat) + " | "@ + fitted(row_or_empty(middle, row), widths.1 as nat)
        + " | "@ + clipped(row_or_empty(right, preview_start + row), imax(widths.2, 20) as nat)
}

/// The rows of the three panes for the view `v` on a terminal of `size`.
pub open spec fn pane_rows(v: AppView, size: ScreenSize) -> Seq<Seq<char>> {
    let widths = column_widths(size.width as int);
    let content_height = list_rows(size.height as int);
    let left = directory_lines(v.parent_entries, widths.0 as nat, Some(v.current_dir), None);
    let middle = scrolled_lines(v.entries, v.selected, v.scroll_offset, widths.1 as nat, content_height);
    let right = wrapped(v.preview, imax(widths.2, 20) as nat);
    let preview_start = imin(v.preview_scroll_offset, sat_sub(right.len() as int, content_height));
    Seq::new(content_height as nat, |row: int| pane_row(left, middle, right, preview_start, row, widths))
}

/// The preview pane follows its scroll offset: row `r` of the panes ends with
/// the wrapped preview line at the offset plus `r` (the offset held to the
/// last one that still fills the pane), clipped to the preview column, or
/// with nothing past the last line.
pub proof fn law_preview_rows_follow_scroll(v: AppView, size: ScreenSize, r: int)
    requires
        0 <= r < list_rows(size.height as int),
    ensures
        ({
            let width = if column_widths(size.width as int).2 >= 20 {
                column_widths(size.width as int).2
            } else {
                20
            };
            let lines = wrapped(v.preview, width as nat);
            let rows = list_rows(size.height as int);
            let last = if lines.len() >= rows {
                lines.len() - rows
            } else {
                0
            };
            let start = if v.preview_scroll_offset <= last {
                v.preview_scroll_offset
            } else {
                last
            };
            let shown = if 0 <= start + r < lines.len() {
                lines[start + r]
            } else {
                Seq::<char>::empty()
            };
            let tail = clipped(shown, width as nat);
            let row = pane_rows(v, size)[r];
            &&& pane_rows(v, size).len() == rows
            &&& tail.len() <= row.len()
            &&& row.skip(row.len() - tail.len()) == tail
        }),
{
    let widths = column_widths(size.width as int);
    let content_height = list_rows(size.height as int);
    let left = directory_lines(v.parent_entries, widths.0 as nat, Some(v.current_dir), None);
    let middle = scrolled_lines(v.entries, v.selected, v.scroll_offset, widths.1 as nat, content_height);
    let right = wrapped(v.preview, imax(widths.2, 20) as nat);
    let preview_start = imin(v.preview_scroll_offset, sat_sub(right.len() as int, content_height));
    let row = pane_rows(v, size)[r];
    assert(row == pane_row(left, middle, right, preview_start, r, widths));
    let head = fitted(row_or_empty(left, r), widths.0 as nat) + " | "@ + fitted(row_or_empty(middle, r), widths.1 as nat)
        + " | "@;
    let tail = clipped(row_or_empty(right, preview_start + r), imax(widths.2, 20) as nat);
    assert(row == head + tail);
    assert(row.skip(head.len() as int) =~= tail);
}

/// The status line: the status and, when something is on the clipboard, its mode.
pub open spec fn footer_text(v: AppView) -> Seq<char> {
    match v.clipboard {
        Some(c) => v.status + " | Clipboard: "@ + (if c.mode == ClipboardMode::Copy {
            "Copy"@
        } else {
            "Cut"@
        }),
        None => v.status,
    }
}

/// The help text wrapped into the help box; an empty line of help leaves an
/// extra empty line.
pub open spec fn help_content(lines: Seq<Seq<char>>, width: nat, k: nat) -> Seq<Seq<char>>
    decreases k,
{
    if k == 0 || k > lines.len() {
        Seq::empty()
    } else {
        let before = help_content(lines, width, (k - 1) as nat);
        let line = lines[k - 1];
        let with = before + wrapped(line, width);
        if line.len() == 0 {
            with.push(Seq::empty())
        } else {
            with
        }
    }
}

impl App {
    /// The title of a pane (see `panel_title_text`).
    pub fn panel_title(&self, label: &str, path: Option<&String>) -> (r: String)
        ensures
            r@ == panel_title_text(label@, match path { Some(p) => Some(p@), None => None }),
    {
        let mut s = String::from_str(label);
        match path {
            Some(p) => {
                push_str(&mut s, " [");
                push_str(&mut s, p.as_str());
                push_str(&mut s, "]");
            },
            None => {},
        }
        s
    }

    /// The volume line (see `volume_summary_text`).
    pub fn volume_summary(&self, width: usize) -> (r: String)
        ensures
            r@ == volume_summary_text(self@.volumes, width as nat),
    {
        if self.volumes.len() == 0 {
            return fit_text("Volumes: none found", width);
        }
        let mut summary = String::from_str("Volumes: ");
        let ghost vs = self@.volumes;
        let k: usize = if self.volumes.len() < 9 { self.volumes.len() } else { 9 };
        for index in 0..k
            invariant
                k <= vs.len(),
                k <= 9,
                vs == self@.volumes,
                summary@ == "Volumes: "@ + volume_list(vs, index as nat),
        {
            if index > 0 {
                push_str(&mut summary, " | ");
            }
            let label = volume_label(index, &self.volumes[index]);
            push_str(&mut summary, label.as_str());
            proof {
                if index == 0 {
                    assert(volume_list(vs, 0) == Seq::<char>::empty());
                    assert("Volumes: "@ + Seq::<char>::empty() == "Volumes: "@);
                }
            }
        }
        fit_text(summary.as_str(), width)
    }

    /// The rows of an unscrolled folder list (see `directory_lines`).
    pub fn render_directory_lines(
        &self,
        entries: &Vec<EntryItem>,
        width: usize,
        highlight_path: Option<&String>,
        selected_index: Option<usize>,
    ) -> (r: Vec<String>)
        ensures
            string_views(r@) == directory_lines(
                entry_views(entries@),
                width as nat,
                match highlight_path { Some(p) => Some(p@), None => None },
                match selected_index { Some(i) => Some(i as int), None => None },
            ),
    {
        let mut lines: Vec<String> = Vec::new();
        if entries.len() == 0 {
            lines.push(String::from_str("(empty)"));
            return lines;
        }
        let ghost es = entry_views(entries@);
        let ghost hl = match highlight_path { Some(p) => Some(p@), None => None::<Seq<char>> };
        let ghost si = match selected_index { Some(i) => Some(i as int), None => None::<int> };
        let n = entries.len();
        for index in 0..n
            invariant
                n == entries@.len(),
                es == entry_views(entries@),
                hl == match highlight_path { Some(p) => Some(p@), None => None::<Seq<char>> },
                si == match selected_index { Some(i) => Some(i as int), None => None::<int> },
                string_views(lines@) == Seq::new(
                    index as nat,
                    |i: int| entry_row(es[i], si == Some(i) || hl == Some(es[i].path), width as nat),
                ),
        {
            let item = &entries[index];
            let by_index = match selected_index {
                Some(s) => s == index,
                None => false,
            };
            let by_path = match highlight_path {
                Some(p) => *p == item.path,
                None => false,
            };
            let line = entry_row_text(item, by_index || by_path, width);
            let ghost before = string_views(lines@);
            lines.push(line);
            assert(string_views(lines@) == before.push(line@));
        }
        lines
    }

    /// The rows of the scrolled current folder (see `scrolled_lines`).
    pub fn render_scrolled_directory_lines(&self, entries: &Vec<EntryItem>, width: usize, rows: usize) -> (r: Vec<String>)
        ensures
            string_views(r@) == scrolled_lines(entry_views(entries@), self@.selected, self@.scroll_offset, width as nat, rows as int),
            r@.len() == imax(rows as int, 1),
    {
        let rows = if rows >= 1 { rows } else { 1 };
        let mut lines: Vec<String> = Vec::new();
        let n = entries.len();
        if n == 0 {
            lines.push(fit_text("empty", width));
            fill_to_rows(&mut lines, rows);
            return lines;
        }
        let ghost es = entry_views(entries@);
        let (start, end) = visible_range_len(n, self.scroll_offset, rows);
        if start > 0 {
            let marker = fit_text("^ more above", width);
            lines.push(marker);
            assert(string_views(lines@) == seq![marker@]);
        } else {
            assert(string_views(lines@) == Seq::<Seq<char>>::empty());
        }
        let ghost above = string_views(lines@);
        for index in start..end
            invariant
                start <= end <= n,
                n == entries@.len(),
                es == entry_views(entries@),
                string_views(lines@) == above + Seq::new(
                    (index - start) as nat,
                    |k: int| entry_row(es[start + k], start + k == self@.selected, width as nat),
                ),
        {
            let line = entry_row_text(&entries[index], index == self.selected, width);
            let ghost before = string_views(lines@);
            lines.push(line);
            assert(string_views(lines@) == before.push(line@));
        }
        let more_below = if start > 0 {
            capped_add(start, rows - 1, n) < n
        } else {
            capped_add(start, rows, n) < n
        };
        let ghost shown = Seq::new(
            (end - start) as nat,
            |k: int| entry_row(es[start + k], start + k == self@.selected, width as nat),
        );
        assert(string_views(lines@) == above + shown);
        assert(more_below == more_below_for(n as int, start as int, rows as int));
        if more_below {
            let marker = fit_text("v more below", width);
            let ghost before = string_views(lines@);
            lines.push(marker);
            assert(string_views(lines@) == before.push(marker@));
            assert(string_views(lines@) == above + shown + seq![marker@]);
        } else {
            assert(string_views(lines@) == above + shown + Seq::<Seq<char>>::empty());
        }
        fill_to_rows(&mut lines, rows);
        lines
    }

    /// What the terminal shows for the explorer, unless the help screen is open.
    pub fn screen(&self, size: ScreenSize) -> (r: Screen)
        ensures
            r.title@ == "File Explorer - "@ + self@.current_dir,
            r.controls@ == "Controls: arrows move | Right enters folders | Enter opens files in Notepad | H help | Q quit"@,
            r.volumes@ == volume_summary_text(self@.volumes, size.width as nat),
            r.parent_title@ == panel_title_text("Parent"@, self@.parent_dir),
            r.current_title@ == panel_title_text("Current"@, Some(self@.current_dir)),
            r.preview_title@ == "Preview"@,
            string_views(r.rows@) == pane_rows(self@, size),
            r.footer_row == sat_sub(size.height as int, 2),
            r.footer@ == clipped(footer_text(self@), sat_sub(size.width as int, 1) as nat),
            match self@.modal {
                Some(ModalView::ConfirmDelete { path, label }) => r.prompt is Some && r.prompt->0@ == clipped(
                    "Delete '"@ + label + "' ? Press Y to confirm, N to cancel."@,
                    sat_sub(size.width as int, 1) as nat,
                ),
                _ => r.prompt is None,
            },
    {
        let (left_width, middle_width, right_width) = three_column_widths(size.width);
        let content_height = self.current_list_rows(size);
        let mut title = String::from_str("File Explorer - ");
        push_str(&mut title, self.current_dir.as_str());
        let controls = String::from_str(
            "Controls: arrows move | Right enters folders | Enter opens files in Notepad | H help | Q quit",
        );
        let volumes = self.volume_summary(size.width as usize);
        let parent_title = self.panel_title("Parent", self.parent_dir.as_ref());
        let current_title = self.panel_title("Current", Some(&self.current_dir));
        let preview_title = self.panel_title("Preview", None);
        let left_lines = self.render_directory_lines(&self.parent_entries, left_width as usize, Some(&self.current_dir), None);
        let middle_lines = self.render_scrolled_directory_lines(&self.entries, middle_width as usize, content_height);
        let pw: usize = if right_width >= 20 { right_width as usize } else { 20 };
        let right_lines = wrap_text(self.preview.as_str(), pw);
        let preview_max_offset = if right_lines.len() >= content_height { right_lines.len() - content_height } else { 0 };
        let preview_start = if self.preview_scroll_offset <= preview_max_offset { self.preview_scroll_offset } else { preview_max_offset };
        let ghost lv = string_views(left_lines@);
        let ghost mv = string_views(middle_lines@);
        let ghost rv = string_views(right_lines@);
        let ghost widths = (left_width as int, middle_width as int, right_width as int);
        let mut rows: Vec<String> = Vec::new();
        for row in 0..content_height
            invariant
                lv == string_views(left_lines@),
                mv == string_views(middle_lines@),
                rv == string_views(right_lines@),
                preview_start <= preview_max_offset,
                preview_max_offset <= right_lines@.len(),
                widths == (left_width as int, middle_width as int, right_width as int),
                pw as int == imax(widths.2, 20),
                string_views(rows@) == Seq::new(row as nat, |k: int| pane_row(lv, mv, rv, preview_start as int, k, widths)),
        {
            let mut line = String::new();
            let blank = String::new();
            let left = if row < left_lines.len() { fit_text(left_lines[row].as_str(), left_width as usize) } else { fit_text(blank.as_str(), left_width as usize) };
            let middle = if row < middle_lines.len() { fit_text(middle_lines[row].as_str(), middle_width as usize) } else { fit_text(blank.as_str(), middle_width as usize) };
            let right = if preview_start < right_lines.len() && row < right_lines.len() - preview_start {
                clip_text(right_lines[preview_start + row].as_str(), pw)
            } else {
                clip_text(blank.as_str(), pw)
            };
            assert(row < left_lines@.len() ==> lv[row as int] == left_lines@[row as int]@);
            assert(row < middle_lines@.len() ==> mv[row as int] == middle_lines@[row as int]@);
            assert(preview_start + row < right_lines@.len() ==> rv[preview_start + row] == right_lines@[preview_start + row]@);
            assert(left@ == fitted(row_or_empty(lv, row as int), widths.0 as nat));
            assert(middle@ == fitted(row_or_empty(mv, row as int), widths.1 as nat));
            assert(right@ == clipped(row_or_empty(rv, preview_start + row), imax(widths.2, 20) as nat));
            push_str(&mut line, left.as_str());
            push_str(&mut line, " | ");
            push_str(&mut line, middle.as_str());
            push_str(&mut line, " | ");
            push_str(&mut line, right.as_str());
            let ghost before = string_views(rows@);
            rows.push(line);
            assert(string_views(rows@) == before.push(line@));
        }
        let footer_row: u16 = if size.height >= 2 { size.height - 2 } else { 0 };
        let line_width: usize = if size.width >= 1 { (size.width - 1) as usize } else { 0 };
        let mut footer = self.status.clone();
        match &self.clipboard {
            Some(c) => {
                push_str(&mut footer, " | Clipboard: ");
                push_str(&mut footer, match c.mode { ClipboardMode::Copy => "Copy", ClipboardMode::Cut => "Cut" });
            },
            None => {},
        }
        let footer = clip_text(footer.as_str(), line_width);
        let prompt = match &self.modal {
            Some(Modal::ConfirmDelete { path, label }) => {
                let mut p = String::from_str("Delete '");
                push_str(&mut p, label.as_str());
                push_str(&mut p, "' ? Press Y to confirm, N to cancel.");
                Some(clip_text(p.as_str(), line_width))
            },
            _ => None,
        };
        Screen { title, controls, volumes, parent_title, current_title, preview_title, rows, footer_row, footer, prompt }
    }

    /// The help screen for a terminal of `size`.
    pub fn help_screen(&self, size: ScreenSize) -> (r: HelpScreen)
        ensures
            r.title@ == fitted("Help"@, size.width as nat),
            string_views(r.lines@) == ({
                let content = help_content(help_text(), sat_sub(imax(sat_sub(size.width as int, 4), 40), 4) as nat, help_text().len());
                let visible = imin(content.len() as int, sat_sub(size.height as int, 4));
                content.take(visible).map_values(|l: Seq<char>| fitted(l, sat_sub(size.width as int, 4) as nat))
            }),
            r.footer_row == sat_sub(size.height as int, 2),
            r.footer@ == fitted("Press H, Esc, or Enter to close help."@, size.width as nat),
    {
        let lines = help_lines();
        let w4: usize = if size.width >= 4 { (size.width - 4) as usize } else { 0 };
        let box_width: usize = if w4 >= 40 { w4 } else { 40 };
        let wrap_width: usize = box_width - 4;
        let ghost ht = help_text();
        let mut content: Vec<String> = Vec::new();
        let n = lines.len();
        for k in 0..n
            invariant
                n == ht.len(),
                n == lines@.len(),
                ht == help_text(),
                forall|i: int| 0 <= i < n ==> #[trigger] lines@[i]@ == ht[i],
                string_views(content@) == help_content(ht, wrap_width as nat, k as nat),
        {
            let line = lines[k];
            let wrapped_line = wrap_text(line, wrap_width);
            let m = wrapped_line.len();
            let ghost before = string_views(content@);
            for j in 0..m
                invariant
                    m == wrapped_line@.len(),
                    string_views(content@) == before + string_views(wrapped_line@).take(j as int),
            {
                let ghost prev = string_views(content@);
                content.push(wrapped_line[j].clone());
                assert(string_views(content@) == prev.push(wrapped_line@[j as int]@));
                assert(string_views(wrapped_line@).take(j + 1) == string_views(wrapped_line@).take(j as int).push(wrapped_line@[j as int]@));
            }
            assert(string_views(wrapped_line@).take(m as int) == string_views(wrapped_line@));
            if line.is_empty() {
                let ghost prev = string_views(content@);
                content.push(String::new());
                assert(string_views(content@) == prev.push(Seq::<char>::empty()));
            }
            assert(ht[k as int] == line@);
        }
        let h4: usize = if size.height >= 4 { (size.height - 4) as usize } else { 0 };
        let visible = if content.len() <= h4 { content.len() } else { h4 };
        let ghost cv = string_views(content@);
        let mut shown: Vec<String> = Vec::new();
        for k in 0..visible
            invariant
                visible <= content@.len(),
                cv == string_views(content@),
                string_views(shown@) == cv.take(k as int).map_values(|l: Seq<char>| fitted(l, w4 as nat)),
        {
            let line = fit_text(content[k].as_str(), w4);
            let ghost before = string_views(shown@);
            shown.push(line);
            assert(cv.take(k + 1) == cv.take(k as int).push(cv[k as int]));
            assert(string_views(shown@) == before.push(line@));
        }
        HelpScreen {
            title: fit_text("Help", size.width as usize),
            lines: shown,
            footer_row: if size.height >= 2 { size.height - 2 } else { 0 },
            footer: fit_text("Press H, Esc, or Enter to close help.", size.width as usize),
        }
    }
}

} // verus!
