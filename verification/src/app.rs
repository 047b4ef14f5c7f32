//! The explorer's state and how keys change it.
//!
//! The state machine never touches the disk or the terminal: a key yields an
//! `Effect` that names the work to be done outside (listing a folder, reading
//! a preview, copying or deleting), and the result of that work is handed back
//! through the methods that finish each step.
pub mod keys;
pub mod modals;
pub mod render;
pub mod navigation;
pub mod file_actions;

use vstd::prelude::*;
use crate::app::file_actions::{clipped_to_board, delete_requested};
use crate::app::keys::{
    is_filter_char, is_shift_pressed, shortcut_index, spec_is_filter_char,
    spec_is_shift_pressed, volume_shortcut_index, KeyCode, KeyEvent, SHIFT,
};
use crate::app::modals::{handle_modal_key, modal_outcome, ModalAction, ModalResult, ModalResultView};
use crate::app::navigation::with_status;
use crate::app::render::{
    after_preview_scroll, ensured_scroll, imax, imin, list_rows, max_scroll_start_for, sat_sub,
    with_scroll,
};
use crate::chars::{decimal, push_decimal, push_str, spec_to_ascii_lowercase, to_ascii_lowercase, to_chars};
use crate::fs_operations::{drive_letter, drive_root_text};
use crate::text::string_views;
use crate::types::ClipboardMode;
use crate::types::{
    entry_views, option_clipboard_view, option_modal_view, ClipboardItem, ClipboardView,
    EntryItem, EntryView, Modal, ModalView, NavigationHistory, NavigationState,
};

verus! {

/// The size of the terminal in columns and rows.
#[derive(Clone, Copy, PartialEq, Eq, Structural)]
pub struct ScreenSize {
    pub width: u16,
    pub height: u16,
}

/// The explorer's state.
pub struct App {
    pub current_dir: String,
    pub parent_dir: Option<String>,
    pub parent_entries: Vec<EntryItem>,
    pub entries: Vec<EntryItem>,
    pub volumes: Vec<String>,
    pub selected: usize,
    pub status: String,
    pub preview: String,
    pub preview_scroll_offset: usize,
    pub clipboard: Option<ClipboardItem>,
    pub modal: Option<Modal>,
    pub scroll_offset: usize,
    pub navigation_history: NavigationHistory,
    pub shift_filter_query: String,
}

/// What the state machine sees of the explorer's state.
pub struct AppView {
    pub current_dir: Seq<char>,
    pub parent_dir: Option<Seq<char>>,
    pub parent_entries: Seq<EntryView>,
    pub entries: Seq<EntryView>,
    pub volumes: Seq<Seq<char>>,
    pub selected: int,
    pub status: Seq<char>,
    pub preview: Seq<char>,
    pub preview_scroll_offset: int,
    pub clipboard: Option<ClipboardView>,
    pub modal: Option<ModalView>,
    pub scroll_offset: int,
    pub history: Map<Seq<char>, NavigationState>,
    pub filter: Seq<char>,
}

pub open spec fn option_string_view(s: Option<String>) -> Option<Seq<char>> {
    match s {
        Some(t) => Some(t@),
        None => None,
    }
}

impl View for App {
    type V = AppView;

    open spec fn view(&self) -> AppView {
        AppView {
            current_dir: self.current_dir@,
            parent_dir: option_string_view(self.parent_dir),
            parent_entries: entry_views(self.parent_entries@),
            entries: entry_views(self.entries@),
            volumes: string_views(self.volumes@),
            selected: self.selected as int,
            status: self.status@,
            preview: self.preview@,
            preview_scroll_offset: self.preview_scroll_offset as int,
            clipboard: option_clipboard_view(self.clipboard),
            modal: option_modal_view(self.modal),
            scroll_offset: self.scroll_offset as int,
            history: self.navigation_history.view(),
            filter: self.shift_filter_query@,
        }
    }
}

/// The selection points at an entry, or at the first place of an empty folder.
pub open spec fn selection_ok(v: AppView) -> bool {
    v.selected == 0 || v.selected < v.entries.len()
}

impl App {
    /// The state is well formed: the history has one record per folder and the
    /// selection is within the listing.
    pub open spec fn wf(&self) -> bool {
        &&& self.navigation_history.wf()
        &&& selection_ok(self@)
    }
}

/// What the explorer learns from the disk about a folder: the volumes, the
/// parent folder and both listings.
pub struct Listing {
    pub volumes: Vec<String>,
    pub parent_dir: Option<String>,
    pub parent_entries: Vec<EntryItem>,
    pub entries: Vec<EntryItem>,
}

pub struct ListingView {
    pub volumes: Seq<Seq<char>>,
    pub parent_dir: Option<Seq<char>>,
    pub parent_entries: Seq<EntryView>,
    pub entries: Seq<EntryView>,
}

impl View for Listing {
    type V = ListingView;

    open spec fn view(&self) -> ListingView {
        ListingView {
            volumes: string_views(self.volumes@),
            parent_dir: option_string_view(self.parent_dir),
            parent_entries: entry_views(self.parent_entries@),
            entries: entry_views(self.entries@),
        }
    }
}

/// The work that a key asks of the world outside the state machine.
pub enum Effect {
    /// Nothing more to do.
    Stay,
    /// Leave the program.
    Quit,
    /// The selection moved: read the preview of the selected item and hand it
    /// to `update_preview`.
    RefreshPreview,
    /// List the current folder again and hand the listing to `reload`.
    Reload,
    /// List this folder and hand the listing to `enter_directory`.
    EnterDirectory(String),
    /// List the parent folder and hand the listing to `go_parent`.
    GoParent(String),
    /// List the root of this volume and hand the listing to `switch_root`.
    SwitchRoot(usize, String),
    /// Open this file in the editor.
    Open(String),
    /// Paste the clipboard item into this folder and hand the destination to
    /// `paste_selected`.
    Paste(ClipboardItem, String),
    /// Delete this path and then call `delete_confirmed` with the label.
    Delete(String, String),
}

pub enum EffectView {
    Stay,
    Quit,
    RefreshPreview,
    Reload,
    EnterDirectory(Seq<char>),
    GoParent(Seq<char>),
    SwitchRoot(int, Seq<char>),
    Open(Seq<char>),
    Paste(ClipboardView, Seq<char>),
    Delete(Seq<char>, Seq<char>),
}

impl View for Effect {
    type V = EffectView;

    open spec fn view(&self) -> EffectView {
        match self {
            Effect::Stay => EffectView::Stay,
            Effect::Quit => EffectView::Quit,
            Effect::RefreshPreview => EffectView::RefreshPreview,
            Effect::Reload => EffectView::Reload,
            Effect::EnterDirectory(p) => EffectView::EnterDirectory(p@),
            Effect::GoParent(p) => EffectView::GoParent(p@),
            Effect::SwitchRoot(i, p) => EffectView::SwitchRoot(*i as int, p@),
            Effect::Open(p) => EffectView::Open(p@),
            Effect::Paste(item, p) => EffectView::Paste(item@, p@),
            Effect::Delete(p, l) => EffectView::Delete(p@, l@),
        }
    }
}

/// Whether the entry's name starts with the filter `q`.
pub open spec fn matches_filter(e: EntryView, q: Seq<char>) -> bool {
    q.len() <= e.name.len() && forall|k: int|
        0 <= k < q.len() ==> #[trigger] spec_to_ascii_lowercase(e.name[k]) == q[k]
}

/// The first entry from `i` on whose name starts with `q`.
pub open spec fn first_match_from(es: Seq<EntryView>, q: Seq<char>, i: int) -> Option<int>
    decreases es.len() - i,
{
    if i < 0 || i >= es.len() {
        None
    } else if matches_filter(es[i], q) {
        Some(i)
    } else {
        first_match_from(es, q, i + 1)
    }
}

/// The view with the scroll offset brought to the selection (see `ensured_scroll`).
pub open spec fn ensured_view(w: AppView, rows: int) -> AppView {
    with_scroll(w, ensured_scroll(w.entries.len() as int, w.selected, w.scroll_offset, rows))
}

/// After the Shift filter changed: the selection jumps to the first entry
/// whose name starts with it, if the filter is not empty and there is one.
pub open spec fn jumped(v: AppView, rows: int) -> (AppView, EffectView) {
    if v.filter.len() > 0 {
        match first_match_from(v.entries, v.filter, 0) {
            Some(i) => (ensured_view(AppView { selected: i, ..v }, rows), EffectView::RefreshPreview),
            None => (v, EffectView::Stay),
        }
    } else {
        (v, EffectView::Stay)
    }
}

/// Keys that Shift turns into preview scrolling and filtering.
pub open spec fn shift_handles(code: KeyCode) -> bool {
    match code {
        KeyCode::Up | KeyCode::Down | KeyCode::Backspace | KeyCode::Esc => true,
        KeyCode::Char(c) => spec_is_filter_char(c),
        _ => false,
    }
}

/// A key held with Shift: Up and Down scroll the preview, letters, digits,
/// `_`, `-` and `.` extend the filter, Backspace shortens it and Esc clears it.
pub open spec fn shift_key_outcome(v: AppView, code: KeyCode, size: ScreenSize) -> (AppView, EffectView) {
    let rows = list_rows(size.height as int);
    match code {
        KeyCode::Up => (after_preview_scroll(v, -1, size), EffectView::Stay),
        KeyCode::Down => (after_preview_scroll(v, 1, size), EffectView::Stay),
        KeyCode::Backspace => jumped(
            AppView {
                filter: if v.filter.len() > 0 {
                    v.filter.drop_last()
                } else {
                    v.filter
                },
                ..v
            },
            rows,
        ),
        KeyCode::Esc => (
            AppView { filter: Seq::empty(), status: "Shift filter cleared."@, ..v },
            EffectView::Stay,
        ),
        KeyCode::Char(c) => jumped(AppView { filter: v.filter.push(spec_to_ascii_lowercase(c)), ..v }, rows),
        _ => (v, EffectView::Stay),
    }
}

/// The drive root that volume shortcut `i` names: `C:\` for the first,
/// `D:\` for the second, and so on.
pub open spec fn shortcut_root(i: int) -> Seq<char> {
    drive_root_text(drive_letter(i))
}

/// Whether the drive that volume shortcut `i` names is among the volumes.
pub open spec fn shortcut_available(v: AppView, i: int) -> bool {
    0 <= i < 24 && v.volumes.contains(shortcut_root(i))
}

/// A character key: `q` quits, `h` opens help, `r` refreshes, `c`, `x` and
/// `v` copy, cut and paste, `d` asks to delete (in either case), and the
/// volume shortcuts switch roots.
pub open spec fn char_key_outcome(v: AppView, ch: char) -> (AppView, EffectView) {
    let lc = spec_to_ascii_lowercase(ch);
    if lc == 'q' {
        (v, EffectView::Quit)
    } else if lc == 'h' {
        (AppView { modal: Some(ModalView::Help), ..v }, EffectView::Stay)
    } else if lc == 'r' {
        (with_status(v, "Refreshing folder contents."@), EffectView::Reload)
    } else if lc == 'c' {
        (clipped_to_board(v, ClipboardMode::Copy, "Copied "@), EffectView::Stay)
    } else if lc == 'x' {
        (clipped_to_board(v, ClipboardMode::Cut, "Cut "@), EffectView::Stay)
    } else if lc == 'v' {
        match v.clipboard {
            Some(c) => (v, EffectView::Paste(c, v.current_dir)),
            None => (with_status(v, "Clipboard is empty."@), EffectView::Stay),
        }
    } else if lc == 'd' {
        (delete_requested(v), EffectView::Stay)
    } else {
        match shortcut_index(ch) {
            Some(i) => if shortcut_available(v, i as int) {
                (v, EffectView::SwitchRoot(i as int, shortcut_root(i as int)))
            } else {
                (with_status(v, "Volume "@ + decimal((i + 1) as nat) + " is not available."@), EffectView::Stay)
            },
            None => (v, EffectView::Stay),
        }
    }
}

/// A key without a dialog open and not taken by the Shift filter.
pub open spec fn plain_key_outcome(v: AppView, code: KeyCode, size: ScreenSize) -> (AppView, EffectView) {
    let rows = list_rows(size.height as int);
    let n = v.entries.len() as int;
    let step = imax(sat_sub(rows, 2), 1);
    let has_item = 0 <= v.selected < n;
    match code {
        KeyCode::Char(ch) => char_key_outcome(v, ch),
        KeyCode::Up => if v.selected > 0 {
            (ensured_view(AppView { selected: v.selected - 1, ..v }, rows), EffectView::RefreshPreview)
        } else {
            (v, EffectView::Stay)
        },
        KeyCode::Down => if v.selected + 1 < n {
            (ensured_view(AppView { selected: v.selected + 1, ..v }, rows), EffectView::RefreshPreview)
        } else {
            (v, EffectView::Stay)
        },
        KeyCode::PageUp => (
            ensured_view(
                AppView {
                    scroll_offset: sat_sub(v.scroll_offset, step),
                    selected: sat_sub(v.selected, step),
                    ..v
                },
                rows,
            ),
            EffectView::RefreshPreview,
        ),
        KeyCode::PageDown => (
            ensured_view(AppView { selected: imin(v.selected + step, sat_sub(n, 1)), ..v }, rows),
            EffectView::RefreshPreview,
        ),
        KeyCode::Home => (AppView { selected: 0, scroll_offset: 0, ..v }, EffectView::RefreshPreview),
        KeyCode::End => if n > 0 {
            (
                AppView {
                    selected: n - 1,
                    scroll_offset: imin(sat_sub(n, step), max_scroll_start_for(n, rows)),
                    ..v
                },
                EffectView::RefreshPreview,
            )
        } else {
            (v, EffectView::Stay)
        },
        KeyCode::Right => if has_item && v.entries[v.selected].is_dir {
            (v, EffectView::EnterDirectory(v.entries[v.selected].path))
        } else {
            (v, EffectView::Stay)
        },
        KeyCode::Enter => if has_item && v.entries[v.selected].is_dir {
            (v, EffectView::EnterDirectory(v.entries[v.selected].path))
        } else if has_item && v.entries[v.selected].is_file {
            (
                with_status(v, "Opened "@ + v.entries[v.selected].name + " in Notepad."@),
                EffectView::Open(v.entries[v.selected].path),
            )
        } else {
            (v, EffectView::Stay)
        },
        KeyCode::Backspace | KeyCode::Left => match v.parent_dir {
            Some(p) => (v, EffectView::GoParent(p)),
            None => (with_status(v, "You are already at a root folder."@), EffectView::Stay),
        },
        _ => (v, EffectView::Stay),
    }
}

/// A key while the dialog `m` is open: the help screen closes; the delete
/// question asks for the deletion, or closes with a note that it was cancelled.
pub open spec fn modal_key_outcome(v: AppView, m: ModalView, key: KeyEvent) -> (AppView, EffectView) {
    match modal_outcome(m, key) {
        ModalResultView::Continue => (v, EffectView::Stay),
        ModalResultView::Close => match m {
            ModalView::Help => (AppView { modal: None, ..v }, EffectView::Stay),
            ModalView::ConfirmDelete { .. } => (
                AppView { modal: None, status: "Delete cancelled."@, ..v },
                EffectView::Stay,
            ),
        },
        ModalResultView::ConfirmDelete { path, label } => (v, EffectView::Delete(path, label)),
    }
}

/// What a key does to the explorer: the next state and the work it asks for.
pub open spec fn key_outcome(v: AppView, key: KeyEvent, size: ScreenSize) -> (AppView, EffectView) {
    match v.modal {
        Some(m) => modal_key_outcome(v, m, key),
        None => {
            let shift = spec_is_shift_pressed(key);
            let v1 = if !shift {
                AppView { filter: Seq::empty(), ..v }
            } else {
                v
            };
            if shift && shift_handles(key.code) {
                shift_key_outcome(v1, key.code, size)
            } else {
                plain_key_outcome(v1, key.code, size)
            }
        },
    }
}

impl App {
    /// The explorer opened in `current_dir`, whose listing is given, with the
    /// first entry selected; the preview is filled in by `update_preview`.
    pub fn new(current_dir: String, listing: Listing) -> (r: App)
        ensures
            r.wf(),
            r@.current_dir == current_dir@,
            r@.volumes == listing@.volumes,
            r@.parent_dir == listing@.parent_dir,
            r@.parent_entries == listing@.parent_entries,
            r@.entries == listing@.entries,
            r@.selected == 0,
            r@.scroll_offset == 0,
            r@.preview_scroll_offset == 0,
            r@.status == "Arrows move | 1-9 (layout-aware) switch volumes | Enter opens files in Notepad | H help | Q quit"@,
            r@.preview == "Select a folder or file."@,
            r@.clipboard is None,
            r@.modal is None,
            r@.history == Map::<Seq<char>, NavigationState>::empty(),
            r@.filter == Seq::<char>::empty(),
    {
        let Listing { volumes, parent_dir, parent_entries, entries } = listing;
        App {
            current_dir,
            parent_dir,
            parent_entries,
            entries,
            volumes,
            selected: 0,
            scroll_offset: 0,
            status: String::from_str(
                "Arrows move | 1-9 (layout-aware) switch volumes | Enter opens files in Notepad | H help | Q quit",
            ),
            preview: String::from_str("Select a folder or file."),
            preview_scroll_offset: 0,
            clipboard: None,
            modal: None,
            navigation_history: NavigationHistory::new(),
            shift_filter_query: String::new(),
        }
    }

    /// The first entry whose name starts with the Shift filter.
    fn find_filter_match(&self) -> (r: Option<usize>)
        ensures
            r is Some <==> first_match_from(self@.entries, self@.filter, 0) is Some,
            r is Some ==> r->0 as int == first_match_from(self@.entries, self@.filter, 0)->0,
    {
        let q = to_chars(self.shift_filter_query.as_str());
        let n = self.entries.len();
        let ghost es = self@.entries;
        let ghost fq = self@.filter;
        for i in 0..n
            invariant
                n == es.len(),
                es == self@.entries,
                fq == self@.filter,
                q@ == fq,
                first_match_from(es, fq, 0) == first_match_from(es, fq, i as int),
        {
            let name = to_chars(self.entries[i].name.as_str());
            assert(name@ == es[i as int].name);
            let mut ok = q.len() <= name.len();
            if ok {
                let m = q.len();
                for j in 0..m
                    invariant
                        m == q@.len(),
                        m <= name@.len(),
                        ok == (forall|k: int| 0 <= k < j ==> #[trigger] spec_to_ascii_lowercase(name@[k]) == q@[k]),
                {
                    let c = to_ascii_lowercase(name[j]);
                    if c != q[j] {
                        ok = false;
                    }
                }
            }
            assert(ok == matches_filter(es[i as int], fq));
            if ok {
                return Some(i);
            }
        }
        None
    }

    fn jump_to_shift_filter_match(&mut self, rows: usize) -> (e: Effect)
        requires
            old(self).wf(),
        ensures
            final(self).wf(),
            (final(self)@, e@) == jumped(old(self)@, rows as int),
    {
        if self.shift_filter_query.as_str().unicode_len() > 0 {
            match self.find_filter_match() {
                Some(i) => {
                    proof {
                        lemma_first_match_in_range(self@.entries, self@.filter, 0);
                    }
                    self.selected = i;
                    self.ensure_selected_visible(rows);
                    Effect::RefreshPreview
                },
                None => Effect::Stay,
            }
        } else {
            Effect::Stay
        }
    }

    fn handle_modal_key(&mut self, key: KeyEvent) -> (e: Effect)
        requires
            old(self).wf(),
            old(self)@.modal is Some,
        ensures
            final(self).wf(),
            (final(self)@, e@) == modal_key_outcome(old(self)@, old(self)@.modal->0, key),
    {
        let is_help = matches!(self.modal, Some(Modal::Help));
        let result = match &self.modal {
            Some(m) => handle_modal_key(key, m),
            None => ModalResult::Continue,
        };
        match result {
            ModalResult::Continue => Effect::Stay,
            ModalResult::Close => {
                self.modal = None;
                if !is_help {
                    self.status = String::from_str("Delete cancelled.");
                }
                Effect::Stay
            },
            ModalResult::Action(ModalAction::ConfirmDelete { path, label }) => Effect::Delete(
                path,
                label,
            ),
        }
    }

    fn handle_shift_key(&mut self, code: KeyCode, size: ScreenSize) -> (e: Effect)
        requires
            old(self).wf(),
            shift_handles(code),
        ensures
            final(self).wf(),
            (final(self)@, e@) == shift_key_outcome(old(self)@, code, size),
    {
        let rows = self.current_list_rows(size);
        match code {
            KeyCode::Up => {
                self.scroll_preview_by(-1, size);
                Effect::Stay
            },
            KeyCode::Down => {
                self.scroll_preview_by(1, size);
                Effect::Stay
            },
            KeyCode::Backspace => {
                let mut q = to_chars(self.shift_filter_query.as_str());
                if q.len() > 0 {
                    q.pop();
                }
                self.shift_filter_query = crate::chars::string_from_chars(&q);
                self.jump_to_shift_filter_match(rows)
            },
            KeyCode::Esc => {
                self.shift_filter_query = String::new();
                self.status = String::from_str("Shift filter cleared.");
                Effect::Stay
            },
            KeyCode::Char(ch) => {
                crate::chars::push_char(&mut self.shift_filter_query, to_ascii_lowercase(ch));
                self.jump_to_shift_filter_match(rows)
            },
            _ => Effect::Stay,
        }
    }

    fn handle_char_key(&mut self, ch: char) -> (e: Effect)
        requires
            old(self).wf(),
        ensures
            final(self).wf(),
            (final(self)@, e@) == char_key_outcome(old(self)@, ch),
    {
        let lc = to_ascii_lowercase(ch);
        if lc == 'q' {
            Effect::Quit
        } else if lc == 'h' {
            self.modal = Some(Modal::Help);
            Effect::Stay
        } else if lc == 'r' {
            self.status = String::from_str("Refreshing folder contents.");
            Effect::Reload
        } else if lc == 'c' {
            self.copy_selected();
            Effect::Stay
        } else if lc == 'x' {
            self.cut_selected();
            Effect::Stay
        } else if lc == 'v' {
            match &self.clipboard {
                Some(item) => Effect::Paste(item.duplicate(), self.current_dir.clone()),
                None => {
                    self.status = String::from_str("Clipboard is empty.");
                    Effect::Stay
                },
            }
        } else if lc == 'd' {
            self.request_delete();
            Effect::Stay
        } else {
            match volume_shortcut_index(ch) {
                Some(index) => match self.shortcut_volume(index) {
                    Some(root) => Effect::SwitchRoot(index, root),
                    None => {
                        let mut s = String::from_str("Volume ");
                        push_decimal(&mut s, index + 1);
                        push_str(&mut s, " is not available.");
                        self.status = s;
                        Effect::Stay
                    },
                },
                None => Effect::Stay,
            }
        }
    }

    fn handle_plain_key(&mut self, code: KeyCode, size: ScreenSize) -> (e: Effect)
        requires
            old(self).wf(),
        ensures
            final(self).wf(),
            (final(self)@, e@) == plain_key_outcome(old(self)@, code, size),
    {
        let rows = self.current_list_rows(size);
        let n = self.entries.len();
        let step: usize = if rows >= 3 { rows - 2 } else { 1 };
        match code {
            KeyCode::Char(ch) => self.handle_char_key(ch),
            KeyCode::Up => {
                if self.selected > 0 {
                    self.selected = self.selected - 1;
                    self.ensure_selected_visible(rows);
                    Effect::RefreshPreview
                } else {
                    Effect::Stay
                }
            },
            KeyCode::Down => {
                if self.selected < n && n - self.selected > 1 {
                    self.selected = self.selected + 1;
                    self.ensure_selected_visible(rows);
                    Effect::RefreshPreview
                } else {
                    Effect::Stay
                }
            },
            KeyCode::PageUp => {
                self.scroll_offset = if self.scroll_offset >= step { self.scroll_offset - step } else { 0 };
                self.selected = if self.selected >= step { self.selected - step } else { 0 };
                self.ensure_selected_visible(rows);
                Effect::RefreshPreview
            },
            KeyCode::PageDown => {
                let last = if n >= 1 { n - 1 } else { 0 };
                self.selected = if self.selected <= last && last - self.selected >= step {
                    self.selected + step
                } else {
                    last
                };
                self.ensure_selected_visible(rows);
                Effect::RefreshPreview
            },
            KeyCode::Home => {
                self.selected = 0;
                self.scroll_offset = 0;
                Effect::RefreshPreview
            },
            KeyCode::End => {
                if n > 0 {
                    self.selected = n - 1;
                    let s = if n >= step { n - step } else { 0 };
                    let m = self.max_scroll_start(rows);
                    self.scroll_offset = if s <= m { s } else { m };
                    Effect::RefreshPreview
                } else {
                    Effect::Stay
                }
            },
            KeyCode::Right => {
                if self.selected < n && self.entries[self.selected].is_dir {
                    Effect::EnterDirectory(self.entries[self.selected].path.clone())
                } else {
                    Effect::Stay
                }
            },
            KeyCode::Enter => {
                if self.selected < n && self.entries[self.selected].is_dir {
                    Effect::EnterDirectory(self.entries[self.selected].path.clone())
                } else if self.selected < n && self.entries[self.selected].is_file {
                    let mut s = String::from_str("Opened ");
                    push_str(&mut s, self.entries[self.selected].name.as_str());
                    push_str(&mut s, " in Notepad.");
                    let path = self.entries[self.selected].path.clone();
                    self.status = s;
                    Effect::Open(path)
                } else {
                    Effect::Stay
                }
            },
            KeyCode::Backspace | KeyCode::Left => {
                match &self.parent_dir {
                    Some(p) => Effect::GoParent(p.clone()),
                    None => {
                        self.status = String::from_str("You are already at a root folder.");
                        Effect::Stay
                    },
                }
            },
            _ => Effect::Stay,
        }
    }

    /// Handles one key press (see `key_outcome`); the caller performs the
    /// returned effect and hands its result back.
    pub fn handle_key(&mut self, key: KeyEvent, size: ScreenSize) -> (e: Effect)
        requires
            old(self).wf(),
        ensures
            final(self).wf(),
            (final(self)@, e@) == key_outcome(old(self)@, key, size),
    {
        if self.modal.is_some() {
            return self.handle_modal_key(key);
        }
        let shift_pressed = is_shift_pressed(&key);
        if !shift_pressed {
            self.shift_filter_query = String::new();
        }
        if shift_pressed {
            let handled = match key.code {
                KeyCode::Up | KeyCode::Down | KeyCode::Backspace | KeyCode::Esc => true,
                KeyCode::Char(ch) => is_filter_char(ch),
                _ => false,
            };
            if handled {
                return self.handle_shift_key(key.code, size);
            }
        }
        self.handle_plain_key(key.code, size)
    }
}

/// The `h` key shows the help screen and, pressed again, hides it.
pub proof fn law_help_toggles(v: AppView, size: ScreenSize)
    requires
        v.modal is None,
    ensures
        ({
            let key = KeyEvent { code: KeyCode::Char('h'), modifiers: 0 };
            let (shown, e1) = key_outcome(v, key, size);
            let (hidden, e2) = key_outcome(shown, key, size);
            &&& shown.modal == Some(ModalView::Help)
            &&& e1 == EffectView::Stay
            &&& hidden == AppView { modal: None, ..shown }
            &&& e2 == EffectView::Stay
        }),
{
    assert(0u8 & SHIFT == 0) by (bit_vector);
}

/// Nothing is deleted without confirmation: `d` only asks about the
/// selected item; in that question `y` asks for exactly that deletion and `n`
/// closes the question without deleting.
pub proof fn law_delete_needs_confirmation(v: AppView, size: ScreenSize)
    requires
        v.modal is None,
        0 <= v.selected < v.entries.len(),
    ensures
        ({
            let e = v.entries[v.selected];
            let (asked, e1) = key_outcome(v, KeyEvent { code: KeyCode::Char('d'), modifiers: 0 }, size);
            let (confirmed, e2) = key_outcome(asked, KeyEvent { code: KeyCode::Char('y'), modifiers: 0 }, size);
            let (cancelled, e3) = key_outcome(asked, KeyEvent { code: KeyCode::Char('n'), modifiers: 0 }, size);
            &&& e1 == EffectView::Stay
            &&& asked.modal == Some(ModalView::ConfirmDelete { path: e.path, label: e.name })
            &&& e2 == EffectView::Delete(e.path, e.name)
            &&& confirmed == asked
            &&& e3 == EffectView::Stay
            &&& cancelled.modal is None
            &&& cancelled.status == "Delete cancelled."@
        }),
{
    assert(0u8 & SHIFT == 0) by (bit_vector);
}

/// While the delete question is open, only `y` or `Y` asks for a deletion.
pub proof fn law_only_yes_deletes(v: AppView, key: KeyEvent, size: ScreenSize)
    requires
        v.modal matches Some(ModalView::ConfirmDelete { .. }),
        key_outcome(v, key, size).1 is Delete,
    ensures
        key.code == KeyCode::Char('y') || key.code == KeyCode::Char('Y'),
{
}

/// Copy then paste: after `c` puts the selected item on the clipboard, `v`
/// asks to paste that item, as a copy, into the current folder.
pub proof fn law_copy_then_paste(v: AppView, size: ScreenSize)
    requires
        v.modal is None,
        0 <= v.selected < v.entries.len(),
    ensures
        ({
            let (copied, _) = key_outcome(v, KeyEvent { code: KeyCode::Char('c'), modifiers: 0 }, size);
            let (_, e) = key_outcome(copied, KeyEvent { code: KeyCode::Char('v'), modifiers: 0 }, size);
            e == EffectView::Paste(
                ClipboardView { source: v.entries[v.selected].path, mode: ClipboardMode::Copy },
                v.current_dir,
            )
        }),
{
    assert(0u8 & SHIFT == 0) by (bit_vector);
}

/// Enter on a folder opens it: with no dialog and no Shift, Enter asks to
/// list the selected folder, exactly as Right does, and changes nothing but
/// clearing the Shift filter.
pub proof fn law_enter_opens_selected_folder(v: AppView, modifiers: u8, size: ScreenSize)
    requires
        v.modal is None,
        modifiers & SHIFT == 0,
        0 <= v.selected < v.entries.len(),
        v.entries[v.selected].is_dir,
    ensures
        ({
            let enter = key_outcome(v, KeyEvent { code: KeyCode::Enter, modifiers }, size);
            let right = key_outcome(v, KeyEvent { code: KeyCode::Right, modifiers }, size);
            &&& enter.1 == EffectView::EnterDirectory(v.entries[v.selected].path)
            &&& enter.0 == AppView { filter: Seq::empty(), ..v }
            &&& enter == right
        }),
{
}

/// One page is the list height less two rows, and at least one entry.
pub open spec fn page_step(height: u16) -> int {
    let rows = if height >= 8 {
        height - 7
    } else {
        1
    };
    if rows >= 3 {
        rows - 2
    } else {
        1
    }
}

/// PageDown moves the selection one page down, stopping at the last entry;
/// PageUp moves it one page up, stopping at the first. Neither moves it by
/// more than a page, and both ask for the preview of the new selection.
pub proof fn law_page_keys_move_one_page(v: AppView, modifiers: u8, size: ScreenSize)
    requires
        v.modal is None,
        modifiers & SHIFT == 0,
        0 <= v.selected < v.entries.len(),
    ensures
        ({
            let n = v.entries.len() as int;
            let step = page_step(size.height);
            let down = key_outcome(v, KeyEvent { code: KeyCode::PageDown, modifiers }, size);
            let up = key_outcome(v, KeyEvent { code: KeyCode::PageUp, modifiers }, size);
            &&& down.0.selected == (if v.selected + step <= n - 1 {
                v.selected + step
            } else {
                n - 1
            })
            &&& up.0.selected == (if v.selected >= step {
                v.selected - step
            } else {
                0
            })
            &&& v.selected <= down.0.selected <= v.selected + step
            &&& v.selected - step <= up.0.selected <= v.selected
            &&& down.1 == EffectView::RefreshPreview
            &&& up.1 == EffectView::RefreshPreview
            &&& down.0.entries == v.entries
            &&& down.0.current_dir == v.current_dir
        }),
{
}

pub proof fn lemma_first_match_in_range(es: Seq<EntryView>, q: Seq<char>, i: int)
    ensures
        first_match_from(es, q, i) matches Some(j) ==> i <= j < es.len() && matches_filter(es[j], q),
    decreases es.len() - i,
{
    if 0 <= i < es.len() && !matches_filter(es[i], q) {
        lemma_first_match_in_range(es, q, i + 1);
    }
}

} // verus!
