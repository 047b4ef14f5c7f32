//! Copy, cut, paste and delete as seen by the state machine.
use vstd::prelude::*;
use crate::app::{App, AppView, Listing, ScreenSize};
use crate::app::navigation::{reloaded, with_status};
use crate::chars::push_str;
use crate::types::{ClipboardItem, ClipboardMode, ClipboardView, Modal, ModalView};

verus! {

/// The view after putting the selected item on the clipboard in `mode`, with
/// the status `verb` followed by the item's name; unchanged when nothing is selected.
pub open spec fn clipped_to_board(v: AppView, mode: ClipboardMode, verb: Seq<char>) -> AppView {
    if 0 <= v.selected < v.entries.len() {
        let e = v.entries[v.selected];
        AppView {
            clipboard: Some(ClipboardView { source: e.path, mode }),
            status: verb + e.name + "."@,
            ..v
        }
    } else {
        v
    }
}

/// The view after asking whether the selected item should be deleted.
pub open spec fn delete_requested(v: AppView) -> AppView {
    if 0 <= v.selected < v.entries.len() {
        let e = v.entries[v.selected];
        AppView { modal: Some(ModalView::ConfirmDelete { path: e.path, label: e.name }), ..v }
    } else {
        v
    }
}

/// The view after a paste to `destination` and a fresh listing: a cut item
/// leaves the clipboard. With an empty clipboard nothing was pasted: only the
/// status says so.
pub open spec fn pasted(v: AppView, destination: Seq<char>, l: crate::app::ListingView, height: int) -> AppView {
    match v.clipboard {
        Some(c) => {
            let cleared = if c.mode == ClipboardMode::Cut {
                AppView { clipboard: None, ..v }
            } else {
                v
            };
            with_status(reloaded(cleared, l, height), "Pasted to "@ + destination + "."@)
        },
        None => with_status(v, "Clipboard is empty."@),
    }
}

/// The view after a deletion and a fresh listing.
pub open spec fn deleted(v: AppView, label: Seq<char>, l: crate::app::ListingView, height: int) -> AppView {
    with_status(reloaded(AppView { modal: None, ..v }, l, height), "Deleted "@ + label + "."@)
}

impl App {
    fn put_on_clipboard(&mut self, mode: ClipboardMode, verb: &str)
        requires
            old(self).wf(),
        ensures
            final(self).wf(),
            final(self)@ == clipped_to_board(old(self)@, mode, verb@),
    {
        if self.selected < self.entries.len() {
            let source = self.entries[self.selected].path.clone();
            let mut status = String::from_str(verb);
            push_str(&mut status, self.entries[self.selected].name.as_str());
            push_str(&mut status, ".");
            self.clipboard = Some(ClipboardItem { source, mode });
            self.status = status;
        }
    }

    /// Puts the selected item on the clipboard to be copied.
    pub fn copy_selected(&mut self)
        requires
            old(self).wf(),
        ensures
            final(self).wf(),
            final(self)@ == clipped_to_board(old(self)@, ClipboardMode::Copy, "Copied "@),
    {
        self.put_on_clipboard(ClipboardMode::Copy, "Copied ");
    }

    /// Puts the selected item on the clipboard to be moved.
    pub fn cut_selected(&mut self)
        requires
            old(self).wf(),
        ensures
            final(self).wf(),
            final(self)@ == clipped_to_board(old(self)@, ClipboardMode::Cut, "Cut "@),
    {
        self.put_on_clipboard(ClipboardMode::Cut, "Cut ");
    }

    /// Finishes a paste that put the clipboard item at `destination`, given the
    /// fresh listing of the current folder; with an empty clipboard it only
    /// says so (see `pasted`).
    pub fn paste_selected(&mut self, destination: String, listing: Listing, size: ScreenSize)
        requires
            old(self).wf(),
        ensures
            final(self).wf(),
            final(self)@ == pasted(old(self)@, destination@, listing@, size.height as int),
    {
        let cut = match &self.clipboard {
            Some(item) => matches!(item.mode, ClipboardMode::Cut),
            None => {
                self.status = String::from_str("Clipboard is empty.");
                return;
            },
        };
        if cut {
            self.clipboard = None;
        }
        self.reload(listing, size);
        let mut status = String::from_str("Pasted to ");
        push_str(&mut status, destination.as_str());
        push_str(&mut status, ".");
        self.status = status;
    }

    /// Asks whether the selected item should be deleted.
    pub fn request_delete(&mut self)
        requires
            old(self).wf(),
        ensures
            final(self).wf(),
            final(self)@ == delete_requested(old(self)@),
    {
        if self.selected < self.entries.len() {
            let path = self.entries[self.selected].path.clone();
            let label = self.entries[self.selected].name.clone();
            self.modal = Some(Modal::ConfirmDelete { path, label });
        }
    }

    /// Finishes the deletion of the item shown as `label`, given the fresh
    /// listing of the current folder (see `deleted`).
    pub fn delete_confirmed(&mut self, label: String, listing: Listing, size: ScreenSize)
        requires
            old(self).wf(),
        ensures
            final(self).wf(),
            final(self)@ == deleted(old(self)@, label@, listing@, size.height as int),
    {
        self.modal = None;
        self.reload(listing, size);
        let mut status = String::from_str("Deleted ");
        push_str(&mut status, label.as_str());
        push_str(&mut status, ".");
        self.status = status;
    }
}

} // verus!
