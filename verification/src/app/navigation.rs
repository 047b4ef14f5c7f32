//! Moving between folders, remembering the position in each, and the preview
//! of the selected item.
use vstd::prelude::*;
use crate::app::{
    selection_ok, shortcut_available, shortcut_root, App, AppView, Listing, ListingView, ScreenSize,
};
use crate::fs_operations::{drive_letter, drive_root, str_equal};
use crate::text::string_views;
use crate::app::render::{clamped_scroll, list_rows, sat_sub, with_scroll};
use crate::chars::{decimal, push_decimal, push_str};
use crate::types::{EntryItem, NavigationState};

verus! {

/// The view after taking in a fresh listing: the selection moves to the last
/// entry when it fell off the end, and the scroll offset is clamped to it.
pub open spec fn reloaded(v: AppView, l: ListingView, height: int) -> AppView {
    let n = l.entries.len() as int;
    let sel = if v.selected >= n {
        sat_sub(n, 1)
    } else {
        v.selected
    };
    let w = AppView {
        volumes: l.volumes,
        parent_dir: l.parent_dir,
        parent_entries: l.parent_entries,
        entries: l.entries,
        selected: sel,
        ..v
    };
    with_scroll(w, clamped_scroll(n, sel, v.scroll_offset, list_rows(height)))
}

/// The view after remembering the position in the current folder.
pub open spec fn saved(v: AppView) -> AppView {
    AppView {
        history: v.history.insert(
            v.current_dir,
            NavigationState { selected: v.selected as usize, scroll_offset: v.scroll_offset as usize },
        ),
        ..v
    }
}

/// The view after taking up the position remembered for the current folder,
/// or the top of the list when there is none.
pub open spec fn restored(v: AppView) -> AppView {
    if v.history.dom().contains(v.current_dir) {
        AppView {
            selected: v.history[v.current_dir].selected as int,
            scroll_offset: v.history[v.current_dir].scroll_offset as int,
            ..v
        }
    } else {
        AppView { selected: 0, scroll_offset: 0, ..v }
    }
}

/// The view after moving into `path`: the position here is remembered and the
/// one remembered there is taken up.
pub open spec fn moved_to(v: AppView, path: Seq<char>) -> AppView {
    restored(AppView { current_dir: path, ..saved(v) })
}

pub open spec fn with_preview(v: AppView, p: Seq<char>) -> AppView {
    AppView { preview: p, ..v }
}

/// The view at the top of the root `root`, before its listing is taken in.
pub open spec fn at_root(v: AppView, root: Seq<char>) -> AppView {
    AppView { current_dir: root, selected: 0, scroll_offset: 0, ..v }
}

pub open spec fn with_status(v: AppView, s: Seq<char>) -> AppView {
    AppView { status: s, ..v }
}

/// The text of the preview pane for the selected item; `loaded` is what
/// reading a selected file gave (its preview, or the error message).
pub open spec fn preview_for(v: AppView, loaded: Result<Seq<char>, Seq<char>>) -> Seq<char> {
    if 0 <= v.selected < v.entries.len() {
        let e = v.entries[v.selected];
        if e.is_dir {
            "Folder: "@ + e.name + "\nPath: "@ + e.path
                + "\n\nEnter opens the folder. Right arrow does the same."@
        } else if e.is_file {
            match loaded {
                Ok(contents) => "File: "@ + e.name + "\nPath: "@ + e.path + "\n\n"@ + contents,
                Err(error) => "File: "@ + e.name + "\n\nUnable to load preview: "@ + error,
            }
        } else {
            "Item: "@ + e.name + "\n\nUnknown item type."@
        }
    } else {
        "This folder is empty."@
    }
}

pub open spec fn result_view(r: Result<String, String>) -> Result<Seq<char>, Seq<char>> {
    match r {
        Ok(s) => Ok(s@),
        Err(e) => Err(e@),
    }
}

/// Going back to a folder takes up the position it had when it was left:
/// entering a sub-folder and then moving to the parent again restores the
/// selection in the parent, as long as its listing is as long as before.
pub proof fn law_return_restores_selection(
    v: AppView,
    path: Seq<char>,
    into: ListingView,
    back: ListingView,
    height: int,
)
    requires
        selection_ok(v),
        0 <= v.selected <= usize::MAX,
        0 <= v.scroll_offset <= usize::MAX,
        path != v.current_dir,
        into.parent_dir == Some(v.current_dir),
        back.entries.len() == v.entries.len(),
    ensures
        ({
            let w = with_status(reloaded(moved_to(v, path), into, height), "Folder opened."@);
            &&& w.current_dir == path
            &&& w.parent_dir == Some(v.current_dir)
            &&& ({
                let u = with_status(
                    reloaded(moved_to(w, v.current_dir), back, height),
                    "Moved to parent folder."@,
                );
                &&& u.current_dir == v.current_dir
                &&& u.selected == v.selected
            })
        }),
{
    let w = with_status(reloaded(moved_to(v, path), into, height), "Folder opened."@);
    let state = NavigationState { selected: v.selected as usize, scroll_offset: v.scroll_offset as usize };
    assert(w.history == v.history.insert(v.current_dir, state));
    let w2 = saved(w);
    assert(w2.history.dom().contains(v.current_dir));
    assert(w2.history[v.current_dir] == state);
}

impl App {
    /// The item under the cursor, if the folder is not empty.
    pub fn selected_item(&self) -> (r: Option<&EntryItem>)
        ensures
            match r {
                Some(e) => 0 <= self@.selected < self@.entries.len() && e@ == self@.entries[self@.selected],
                None => !(self@.selected < self@.entries.len()),
            },
    {
        if self.selected < self.entries.len() {
            Some(&self.entries[self.selected])
        } else {
            None
        }
    }

    /// Takes in a fresh listing of the current folder (see `reloaded`).
    /// The preview is refreshed afterwards with `update_preview`.
    pub fn reload(&mut self, listing: Listing, size: ScreenSize)
        requires
            old(self).navigation_history.wf(),
        ensures
            final(self).wf(),
            final(self)@ == reloaded(old(self)@, listing@, size.height as int),
    {
        let Listing { volumes, parent_dir, parent_entries, entries } = listing;
        self.volumes = volumes;
        self.parent_dir = parent_dir;
        self.parent_entries = parent_entries;
        self.entries = entries;
        if self.selected >= self.entries.len() {
            self.selected = if self.entries.len() >= 1 { self.entries.len() - 1 } else { 0 };
        }
        let rows = self.current_list_rows(size);
        self.clamp_scroll_to_selection(rows);
    }

    /// Remembers the position in the current folder.
    pub fn save_navigation_state(&mut self)
        requires
            old(self).wf(),
        ensures
            final(self).wf(),
            final(self)@ == saved(old(self)@),
    {
        let key = self.current_dir.clone();
        let state = NavigationState { selected: self.selected, scroll_offset: self.scroll_offset };
        self.navigation_history.insert(key, state);
    }

    /// Takes up the position remembered for the current folder, or the top.
    /// The selection may lie past the listing until the next `reload`.
    pub fn restore_navigation_state(&mut self)
        requires
            old(self).navigation_history.wf(),
        ensures
            final(self).navigation_history == old(self).navigation_history,
            final(self)@ == restored(old(self)@),
    {
        match self.navigation_history.get(&self.current_dir) {
            Some(state) => {
                self.selected = state.selected;
                self.scroll_offset = state.scroll_offset;
            },
            None => {
                self.selected = 0;
                self.scroll_offset = 0;
            },
        }
    }

    /// Moves into `path`, whose listing is given.
    pub fn enter_directory(&mut self, path: String, listing: Listing, size: ScreenSize)
        requires
            old(self).wf(),
        ensures
            final(self).wf(),
            final(self)@ == with_status(
                reloaded(moved_to(old(self)@, path@), listing@, size.height as int),
                "Folder opened."@,
            ),
    {
        self.save_navigation_state();
        self.current_dir = path;
        self.restore_navigation_state();
        self.reload(listing, size);
        self.status = String::from_str("Folder opened.");
    }

    /// Moves to the parent folder, whose listing is given; at a root only
    /// says so.
    pub fn go_parent(&mut self, listing: Listing, size: ScreenSize)
        requires
            old(self).wf(),
        ensures
            final(self).wf(),
            final(self)@ == match old(self)@.parent_dir {
                Some(parent) => with_status(
                    reloaded(moved_to(old(self)@, parent), listing@, size.height as int),
                    "Moved to parent folder."@,
                ),
                None => with_status(old(self)@, "You are already at a root folder."@),
            },
    {
        match &self.parent_dir {
            Some(parent) => {
                let parent = parent.clone();
                self.save_navigation_state();
                self.current_dir = parent;
                self.restore_navigation_state();
                self.reload(listing, size);
                self.status = String::from_str("Moved to parent folder.");
            },
            None => {
                self.status = String::from_str("You are already at a root folder.");
            },
        }
    }

    /// The drive root that volume shortcut `index` names, when it is among the
    /// volumes (see `shortcut_root`).
    pub(crate) fn shortcut_volume(&self, index: usize) -> (r: Option<String>)
        ensures
            r is Some <==> shortcut_available(self@, index as int),
            r matches Some(root) ==> root@ == shortcut_root(index as int),
    {
        if index >= 24 {
            return None;
        }
        let c: u32 = 67 + index as u32;
        let letter: char = (c as u8) as char;
        assert(letter == drive_letter(index as int));
        let root = drive_root(letter);
        let n = self.volumes.len();
        for i in 0..n
            invariant
                n == self.volumes@.len(),
                index < 24,
                root@ == shortcut_root(index as int),
                forall|j: int| 0 <= j < i ==> string_views(self.volumes@)[j] != root@,
        {
            if str_equal(self.volumes[i].as_str(), root.as_str()) {
                assert(self@.volumes == string_views(self.volumes@));
                assert(self@.volumes[i as int] == root@);
                assert(self@.volumes.contains(root@));
                return Some(root);
            }
        }
        assert(!string_views(self.volumes@).contains(root@));
        None
    }

    /// Switches to the drive root that volume shortcut `index` names
    /// (`C:\` for 0), whose listing is given, or says that this volume is not
    /// among the available ones.
    pub fn switch_root(&mut self, index: usize, listing: Listing, size: ScreenSize)
        requires
            old(self).wf(),
            index < usize::MAX,
        ensures
            final(self).wf(),
            final(self)@ == if shortcut_available(old(self)@, index as int) {
                with_status(
                    reloaded(
                        at_root(old(self)@, shortcut_root(index as int)),
                        listing@,
                        size.height as int,
                    ),
                    "Switched to volume "@ + decimal((index + 1) as nat) + "."@,
                )
            } else {
                with_status(old(self)@, "Volume "@ + decimal((index + 1) as nat) + " is not available."@)
            },
    {
        if let Some(root) = self.shortcut_volume(index) {
            self.current_dir = root;
            self.selected = 0;
            self.scroll_offset = 0;
            self.reload(listing, size);
            let mut s = String::from_str("Switched to volume ");
            push_decimal(&mut s, index + 1);
            push_str(&mut s, ".");
            self.status = s;
        } else {
            let mut s = String::from_str("Volume ");
            push_decimal(&mut s, index + 1);
            push_str(&mut s, " is not available.");
            self.status = s;
        }
    }

    /// The file whose preview `update_preview` needs, if the selection is a file.
    pub fn preview_target(&self) -> (r: Option<String>)
        ensures
            match r {
                Some(p) => 0 <= self@.selected < self@.entries.len()
                    && !self@.entries[self@.selected].is_dir
                    && self@.entries[self@.selected].is_file
                    && p@ == self@.entries[self@.selected].path,
                None => !(0 <= self@.selected < self@.entries.len()
                    && !self@.entries[self@.selected].is_dir
                    && self@.entries[self@.selected].is_file),
            },
    {
        match self.selected_item() {
            Some(item) => if !item.is_dir && item.is_file {
                Some(item.path.clone())
            } else {
                None
            },
            None => None,
        }
    }

    /// Writes the preview of the selected item; `loaded` is what reading the
    /// selected file gave and is used only when a file is selected.
    pub fn update_preview(&mut self, loaded: Result<String, String>)
        requires
            old(self).wf(),
        ensures
            final(self).wf(),
            final(self)@ == with_preview(old(self)@, preview_for(old(self)@, result_view(loaded))),
    {
        let mut text = String::new();
        if self.selected < self.entries.len() {
            let item = &self.entries[self.selected];
            if item.is_dir {
                push_str(&mut text, "Folder: ");
                push_str(&mut text, item.name.as_str());
                push_str(&mut text, "\nPath: ");
                push_str(&mut text, item.path.as_str());
                push_str(&mut text, "\n\nEnter opens the folder. Right arrow does the same.");
            } else if item.is_file {
                match &loaded {
                    Ok(contents) => {
                        push_str(&mut text, "File: ");
                        push_str(&mut text, item.name.as_str());
                        push_str(&mut text, "\nPath: ");
                        push_str(&mut text, item.path.as_str());
                        push_str(&mut text, "\n\n");
                        push_str(&mut text, contents.as_str());
                    },
                    Err(error) => {
                        push_str(&mut text, "File: ");
                        push_str(&mut text, item.name.as_str());
                        push_str(&mut text, "\n\nUnable to load preview: ");
                        push_str(&mut text, error.as_str());
                    },
                }
            } else {
                push_str(&mut text, "Item: ");
                push_str(&mut text, item.name.as_str());
                push_str(&mut text, "\n\nUnknown item type.");
            }
        } else {
            push_str(&mut text, "This folder is empty.");
        }
        self.preview = text;
    }
}

} // verus!
