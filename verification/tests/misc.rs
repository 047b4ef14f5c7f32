use pruzkumnik::actions::paste_file_name;
use pruzkumnik::app::modals::{handle_confirm_delete_key, handle_help_key, handle_modal_key, ModalAction, ModalResult};
use pruzkumnik::app::keys::{KeyCode, KeyEvent};
use pruzkumnik::help::help_lines;
use pruzkumnik::types::{Modal, NavigationHistory, NavigationState};

fn k(code: KeyCode) -> KeyEvent {
    KeyEvent { code, modifiers: 0 }
}

#[test]
fn help_text_has_sixteen_lines() {
    let lines = help_lines();
    assert_eq!(lines.len(), 16);
    assert_eq!(lines[0], "Help");
    assert_eq!(lines[9], "1,2,3,4 = switch root drive (C:, D:, E:, F:)");
}

#[test]
fn help_dialog_closes_on_its_keys() {
    for code in [KeyCode::Esc, KeyCode::Char('h'), KeyCode::Char('H'), KeyCode::Enter] {
        assert!(matches!(handle_help_key(k(code)), ModalResult::Close));
    }
    assert!(matches!(handle_help_key(k(KeyCode::Char('q'))), ModalResult::Continue));
}

#[test]
fn delete_dialog_answers() {
    match handle_confirm_delete_key(k(KeyCode::Char('y')), String::from("/p"), String::from("p")) {
        ModalResult::Action(ModalAction::ConfirmDelete { path, label }) => {
            assert_eq!(path, "/p");
            assert_eq!(label, "p");
        }
        _ => panic!("no action"),
    }
    assert!(matches!(handle_confirm_delete_key(k(KeyCode::Char('N')), String::new(), String::new()), ModalResult::Close));
    assert!(matches!(handle_confirm_delete_key(k(KeyCode::Enter), String::new(), String::new()), ModalResult::Continue));
    let modal = Modal::ConfirmDelete { path: String::from("/q"), label: String::from("q") };
    assert!(matches!(handle_modal_key(k(KeyCode::Char('Y')), &modal), ModalResult::Action(_)));
    assert!(matches!(handle_modal_key(k(KeyCode::Esc), &Modal::Help), ModalResult::Close));
}

#[test]
fn pasted_items_without_a_name_are_called_item() {
    assert_eq!(paste_file_name(None), "item");
    assert_eq!(paste_file_name(Some(String::from("a.txt"))), "a.txt");
}

#[test]
fn history_keeps_one_record_per_folder() {
    let mut h = NavigationHistory::new();
    let a = String::from("/a");
    assert!(h.get(&a).is_none());
    h.insert(a.clone(), NavigationState { selected: 3, scroll_offset: 1 });
    h.insert(String::from("/b"), NavigationState { selected: 1, scroll_offset: 0 });
    h.insert(a.clone(), NavigationState { selected: 5, scroll_offset: 2 });
    assert_eq!(h.records.len(), 2);
    let s = h.get(&a).expect("remembered");
    assert_eq!((s.selected, s.scroll_offset), (5, 2));
}
