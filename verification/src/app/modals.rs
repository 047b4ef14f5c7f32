//! What a key does while a dialog is open.
use vstd::prelude::*;
use crate::app::keys::{KeyCode, KeyEvent};
use crate::types::{Modal, ModalView};

verus! {

/// What a dialog does with a key.
#[derive(Debug)]
pub enum ModalResult {
    /// The dialog stays open.
    Continue,
    /// The dialog closes.
    Close,
    /// The dialog asks for an action.
    Action(ModalAction),
}

/// The action a dialog asks for.
#[derive(Debug)]
pub enum ModalAction {
    ConfirmDelete { path: String, label: String },
}

pub enum ModalResultView {
    Continue,
    Close,
    ConfirmDelete { path: Seq<char>, label: Seq<char> },
}

impl View for ModalResult {
    type V = ModalResultView;

    open spec fn view(&self) -> ModalResultView {
        match self {
            ModalResult::Continue => ModalResultView::Continue,
            ModalResult::Close => ModalResultView::Close,
            ModalResult::Action(ModalAction::ConfirmDelete { path, label }) => ModalResultView::ConfirmDelete {
                path: path@,
                label: label@,
            },
        }
    }
}

/// Keys that close the help screen: Esc, `h`, `H` and Enter.
pub open spec fn closes_help(code: KeyCode) -> bool {
    code == KeyCode::Esc || code == KeyCode::Char('h') || code == KeyCode::Char('H') || code
        == KeyCode::Enter
}

/// Keys that confirm a deletion: `y` and `Y`.
pub open spec fn confirms(code: KeyCode) -> bool {
    code == KeyCode::Char('y') || code == KeyCode::Char('Y')
}

/// Keys that cancel a deletion: Esc, `n` and `N`.
pub open spec fn cancels(code: KeyCode) -> bool {
    code == KeyCode::Esc || code == KeyCode::Char('n') || code == KeyCode::Char('N')
}

/// What the dialog `m` does with `key`.
pub open spec fn modal_outcome(m: ModalView, key: KeyEvent) -> ModalResultView {
    match m {
        ModalView::Help => if closes_help(key.code) {
            ModalResultView::Close
        } else {
            ModalResultView::Continue
        },
        ModalView::ConfirmDelete { path, label } => if confirms(key.code) {
            ModalResultView::ConfirmDelete { path, label }
        } else if cancels(key.code) {
            ModalResultView::Close
        } else {
            ModalResultView::Continue
        },
    }
}

/// A key in the help screen.
pub fn handle_help_key(key: KeyEvent) -> (r: ModalResult)
    ensures
        r@ == modal_outcome(ModalView::Help, key),
{
    match key.code {
        KeyCode::Esc | KeyCode::Char('h') | KeyCode::Char('H') | KeyCode::Enter => {
            ModalResult::Close
        },
        _ => ModalResult::Continue,
    }
}

/// A key in the question whether `path` (shown as `label`) should be deleted.
pub fn handle_confirm_delete_key(key: KeyEvent, path: String, label: String) -> (r: ModalResult)
    ensures
        r@ == modal_outcome(ModalView::ConfirmDelete { path: path@, label: label@ }, key),
{
    match key.code {
        KeyCode::Char('y') | KeyCode::Char('Y') => {
            ModalResult::Action(ModalAction::ConfirmDelete { path, label })
        },
        KeyCode::Esc | KeyCode::Char('n') | KeyCode::Char('N') => ModalResult::Close,
        _ => ModalResult::Continue,
    }
}

/// A key in whichever dialog is open.
pub fn handle_modal_key(key: KeyEvent, modal: &Modal) -> (r: ModalResult)
    ensures
        r@ == modal_outcome(modal@, key),
{
    match modal {
        Modal::Help => handle_help_key(key),
        Modal::ConfirmDelete { path, label } => {
            handle_confirm_delete_key(key, path.clone(), label.clone())
        },
    }
}

} // verus!
