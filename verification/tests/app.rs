use pruzkumnik::app::keys::{KeyCode, KeyEvent};
use pruzkumnik::app::{App, Effect, Listing, ScreenSize};
use pruzkumnik::types::{ClipboardMode, EntryItem, Modal};

const SIZE: ScreenSize = ScreenSize { width: 80, height: 24 };

fn entry(dir: &str, name: &str, is_dir: bool) -> EntryItem {
    EntryItem { name: String::from(name), path: format!("{}/{}", dir, name), is_dir, is_file: !is_dir }
}

fn listing(dir: &str, parent: Option<&str>, names: &[(&str, bool)]) -> Listing {
    Listing {
        volumes: vec![String::from("/"), String::from("/mnt/data")],
        parent_dir: parent.map(String::from),
        parent_entries: vec![],
        entries: names.iter().map(|(n, d)| entry(dir, n, *d)).collect(),
    }
}

fn home() -> App {
    App::new(
        String::from("/home"),
        listing("/home", Some("/"), &[("docs", true), ("music", true), ("a.txt", false), ("b.txt", false)]),
    )
}

fn key(c: char) -> KeyEvent {
    KeyEvent { code: KeyCode::Char(c), modifiers: 0 }
}

fn shift(code: KeyCode) -> KeyEvent {
    KeyEvent { code, modifiers: 1 }
}

fn plain(code: KeyCode) -> KeyEvent {
    KeyEvent { code, modifiers: 0 }
}

#[test]
fn new_app_starts_at_the_top() {
    let app = home();
    assert_eq!(app.selected, 0);
    assert_eq!(app.preview, "Select a folder or file.");
    assert!(app.status.starts_with("Arrows move"));
    assert!(app.clipboard.is_none());
    assert!(app.modal.is_none());
}

#[test]
fn arrows_move_the_selection_and_ask_for_a_preview() {
    let mut app = home();
    assert!(matches!(app.handle_key(plain(KeyCode::Up), SIZE), Effect::Stay));
    assert!(matches!(app.handle_key(plain(KeyCode::Down), SIZE), Effect::RefreshPreview));
    assert_eq!(app.selected, 1);
    app.handle_key(plain(KeyCode::End), SIZE);
    assert_eq!(app.selected, 3);
    assert!(matches!(app.handle_key(plain(KeyCode::Down), SIZE), Effect::Stay));
    app.handle_key(plain(KeyCode::Home), SIZE);
    assert_eq!(app.selected, 0);
    app.handle_key(plain(KeyCode::PageDown), SIZE);
    assert_eq!(app.selected, 3);
    app.handle_key(plain(KeyCode::PageUp), SIZE);
    assert_eq!(app.selected, 0);
}

#[test]
fn preview_texts_for_folders_files_and_errors() {
    let mut app = home();
    app.update_preview(Ok(String::from("unused")));
    assert_eq!(app.preview, "Folder: docs\nPath: /home/docs\n\nEnter opens the folder. Right arrow does the same.");
    app.handle_key(plain(KeyCode::End), SIZE);
    assert_eq!(app.preview_target(), Some(String::from("/home/b.txt")));
    app.update_preview(Ok(String::from("hello")));
    assert_eq!(app.preview, "File: b.txt\nPath: /home/b.txt\n\nhello");
    app.update_preview(Err(String::from("denied")));
    assert_eq!(app.preview, "File: b.txt\n\nUnable to load preview: denied");
}

#[test]
fn empty_folder_preview() {
    let mut app = App::new(String::from("/empty"), listing("/empty", Some("/"), &[]));
    app.update_preview(Ok(String::new()));
    assert_eq!(app.preview, "This folder is empty.");
    assert!(matches!(app.handle_key(plain(KeyCode::End), SIZE), Effect::Stay));
    assert!(matches!(app.handle_key(plain(KeyCode::Enter), SIZE), Effect::Stay));
}

#[test]
fn q_quits_in_either_case_without_shift() {
    let mut app = home();
    assert!(matches!(app.handle_key(key('q'), SIZE), Effect::Quit));
    assert!(matches!(app.handle_key(key('Q'), SIZE), Effect::Quit));
    assert!(matches!(app.handle_key(shift(KeyCode::Char('Q')), SIZE), Effect::RefreshPreview | Effect::Stay));
    assert_eq!(app.shift_filter_query, "q");
}

#[test]
fn help_opens_and_closes() {
    let mut app = home();
    app.handle_key(key('h'), SIZE);
    assert!(matches!(app.modal, Some(Modal::Help)));
    app.handle_key(key('x'), SIZE);
    assert!(matches!(app.modal, Some(Modal::Help)));
    assert!(app.clipboard.is_none());
    app.handle_key(plain(KeyCode::Esc), SIZE);
    assert!(app.modal.is_none());
    app.handle_key(key('H'), SIZE);
    app.handle_key(plain(KeyCode::Enter), SIZE);
    assert!(app.modal.is_none());
}

#[test]
fn delete_asks_first() {
    let mut app = home();
    app.handle_key(plain(KeyCode::End), SIZE);
    assert!(matches!(app.handle_key(key('d'), SIZE), Effect::Stay));
    match &app.modal {
        Some(Modal::ConfirmDelete { path, label }) => {
            assert_eq!(path, "/home/b.txt");
            assert_eq!(label, "b.txt");
        }
        _ => panic!("no question"),
    }
    assert!(matches!(app.handle_key(key('z'), SIZE), Effect::Stay));
    assert!(matches!(app.handle_key(key('n'), SIZE), Effect::Stay));
    assert!(app.modal.is_none());
    assert_eq!(app.status, "Delete cancelled.");

    app.handle_key(key('d'), SIZE);
    match app.handle_key(key('Y'), SIZE) {
        Effect::Delete(path, label) => {
            assert_eq!(path, "/home/b.txt");
            app.delete_confirmed(label, listing("/home", Some("/"), &[("docs", true), ("music", true), ("a.txt", false)]), SIZE);
        }
        _ => panic!("no deletion"),
    }
    assert!(app.modal.is_none());
    assert_eq!(app.status, "Deleted b.txt.");
    assert_eq!(app.selected, 2);
}

#[test]
fn copy_cut_and_paste() {
    let mut app = home();
    assert!(matches!(app.handle_key(key('v'), SIZE), Effect::Stay));
    assert_eq!(app.status, "Clipboard is empty.");
    app.handle_key(plain(KeyCode::End), SIZE);
    app.handle_key(key('c'), SIZE);
    assert_eq!(app.status, "Copied b.txt.");
    match app.handle_key(key('v'), SIZE) {
        Effect::Paste(item, dir) => {
            assert_eq!(item.source, "/home/b.txt");
            assert!(matches!(item.mode, ClipboardMode::Copy));
            assert_eq!(dir, "/home");
        }
        _ => panic!("no paste"),
    }
    app.paste_selected(String::from("/home/b_copy1.txt"), listing("/home", Some("/"), &[("b.txt", false), ("b_copy1.txt", false)]), SIZE);
    assert_eq!(app.status, "Pasted to /home/b_copy1.txt.");
    assert!(app.clipboard.is_some());
    app.handle_key(key('x'), SIZE);
    assert_eq!(app.status, "Cut b_copy1.txt.");
    app.paste_selected(String::from("/tmp/b_copy1.txt"), listing("/home", Some("/"), &[("b.txt", false)]), SIZE);
    assert!(app.clipboard.is_none());
    assert_eq!(app.selected, 0);
}

#[test]
fn paste_with_an_empty_clipboard_changes_nothing_else() {
    let mut app = home();
    app.handle_key(plain(KeyCode::End), SIZE);
    app.paste_selected(String::from("/home/z.txt"), listing("/home", Some("/"), &[]), SIZE);
    assert_eq!(app.status, "Clipboard is empty.");
    assert_eq!(app.entries.len(), 4);
    assert_eq!(app.selected, 3);
    assert!(app.clipboard.is_none());
}

#[test]
fn returning_to_a_folder_restores_its_selection() {
    let mut app = home();
    app.handle_key(plain(KeyCode::Down), SIZE);
    match app.handle_key(plain(KeyCode::Right), SIZE) {
        Effect::EnterDirectory(path) => {
            assert_eq!(path, "/home/music");
            app.enter_directory(path, listing("/home/music", Some("/home"), &[("song.mp3", false)]), SIZE);
        }
        _ => panic!("did not enter"),
    }
    assert_eq!(app.current_dir, "/home/music");
    assert_eq!(app.selected, 0);
    assert_eq!(app.status, "Folder opened.");
    match app.handle_key(plain(KeyCode::Backspace), SIZE) {
        Effect::GoParent(parent) => {
            assert_eq!(parent, "/home");
            app.go_parent(listing("/home", Some("/"), &[("docs", true), ("music", true), ("a.txt", false), ("b.txt", false)]), SIZE);
        }
        _ => panic!("did not go up"),
    }
    assert_eq!(app.current_dir, "/home");
    assert_eq!(app.selected, 1);
    assert_eq!(app.status, "Moved to parent folder.");
}

#[test]
fn at_a_root_there_is_no_parent() {
    let mut app = App::new(String::from("/"), listing("/", None, &[("home", true)]));
    assert!(matches!(app.handle_key(plain(KeyCode::Left), SIZE), Effect::Stay));
    assert_eq!(app.status, "You are already at a root folder.");
}

#[test]
fn volume_shortcuts_switch_roots() {
    let drives = |dir: &str, names: &[(&str, bool)]| Listing {
        volumes: vec![String::from("D:\\"), String::from("E:\\")],
        parent_dir: None,
        parent_entries: vec![],
        entries: names.iter().map(|(n, d)| entry(dir, n, *d)).collect(),
    };
    let mut app = App::new(String::from("D:\\"), drives("D:", &[("a.txt", false)]));
    assert!(matches!(app.handle_key(key('1'), SIZE), Effect::Stay));
    assert_eq!(app.status, "Volume 1 is not available.");
    match app.handle_key(key('3'), SIZE) {
        Effect::SwitchRoot(index, root) => {
            assert_eq!(index, 2);
            assert_eq!(root, "E:\\");
            app.switch_root(index, drives("E:", &[("x", false)]), SIZE);
        }
        _ => panic!("no switch"),
    }
    assert_eq!(app.current_dir, "E:\\");
    assert_eq!(app.status, "Switched to volume 3.");
    match app.handle_key(key('ě'), SIZE) {
        Effect::SwitchRoot(index, root) => {
            assert_eq!(index, 1);
            assert_eq!(root, "D:\\");
            app.switch_root(index, drives("D:", &[("a.txt", false)]), SIZE);
        }
        _ => panic!("no switch"),
    }
    assert_eq!(app.current_dir, "D:\\");
    assert_eq!(app.status, "Switched to volume 2.");
    assert!(matches!(app.handle_key(key('4'), SIZE), Effect::Stay));
    assert_eq!(app.status, "Volume 4 is not available.");
    app.switch_root(0, drives("C:", &[]), SIZE);
    assert_eq!(app.current_dir, "D:\\");
    assert_eq!(app.status, "Volume 1 is not available.");
}

#[test]
fn volume_shortcuts_name_drives_not_positions() {
    let mut app = home();
    assert!(matches!(app.handle_key(key('2'), SIZE), Effect::Stay));
    assert_eq!(app.status, "Volume 2 is not available.");
    assert_eq!(app.current_dir, "/home");
}

#[test]
fn enter_on_a_file_opens_it() {
    let mut app = home();
    app.handle_key(plain(KeyCode::End), SIZE);
    match app.handle_key(plain(KeyCode::Enter), SIZE) {
        Effect::Open(path) => assert_eq!(path, "/home/b.txt"),
        _ => panic!("not opened"),
    }
    assert_eq!(app.status, "Opened b.txt in Notepad.");
    assert!(matches!(app.handle_key(plain(KeyCode::Right), SIZE), Effect::Stay));
}

#[test]
fn refresh_asks_for_a_listing() {
    let mut app = home();
    assert!(matches!(app.handle_key(key('r'), SIZE), Effect::Reload));
    assert_eq!(app.status, "Refreshing folder contents.");
    app.handle_key(plain(KeyCode::End), SIZE);
    app.reload(listing("/home", Some("/"), &[("docs", true)]), SIZE);
    assert_eq!(app.selected, 0);
    assert_eq!(app.entries.len(), 1);
}

#[test]
fn shift_filter_jumps_to_the_first_match() {
    let mut app = home();
    assert!(matches!(app.handle_key(shift(KeyCode::Char('M')), SIZE), Effect::RefreshPreview));
    assert_eq!(app.selected, 1);
    assert!(matches!(app.handle_key(shift(KeyCode::Char('x')), SIZE), Effect::Stay));
    assert_eq!(app.shift_filter_query, "mx");
    app.handle_key(shift(KeyCode::Backspace), SIZE);
    assert_eq!(app.shift_filter_query, "m");
    app.handle_key(shift(KeyCode::Esc), SIZE);
    assert_eq!(app.shift_filter_query, "");
    assert_eq!(app.status, "Shift filter cleared.");
    app.handle_key(shift(KeyCode::Char('b')), SIZE);
    assert_eq!(app.selected, 3);
    app.handle_key(plain(KeyCode::Up), SIZE);
    assert_eq!(app.shift_filter_query, "");
}

#[test]
fn shift_arrows_scroll_the_preview() {
    let mut app = home();
    let long: Vec<String> = (0..40).map(|i| format!("line {}", i)).collect();
    app.handle_key(plain(KeyCode::End), SIZE);
    app.update_preview(Ok(long.join("\n")));
    app.handle_key(shift(KeyCode::Down), SIZE);
    assert_eq!(app.preview_scroll_offset, 1);
    assert_eq!(app.status, "Preview scroll: 1/26");
    app.handle_key(shift(KeyCode::Up), SIZE);
    app.handle_key(shift(KeyCode::Up), SIZE);
    assert_eq!(app.preview_scroll_offset, 0);
    assert_eq!(app.status, "Preview scroll: 0/26");
}

#[test]
fn long_folders_scroll_with_markers() {
    let names: Vec<String> = (0..30).map(|i| format!("f{:02}", i)).collect();
    let pairs: Vec<(&str, bool)> = names.iter().map(|n| (n.as_str(), false)).collect();
    let mut app = App::new(String::from("/big"), listing("/big", Some("/"), &pairs));
    let size = ScreenSize { width: 80, height: 12 };
    let rows = app.render_scrolled_directory_lines(&app.entries, 10, 5);
    assert_eq!(rows.len(), 5);
    assert_eq!(rows[0], "> [.] f00 ");
    assert_eq!(rows[3], "  [.] f03 ");
    assert_eq!(rows[4], "v more be…");
    for _ in 0..10 {
        app.handle_key(plain(KeyCode::Down), size);
    }
    assert_eq!(app.selected, 10);
    let rows = app.render_scrolled_directory_lines(&app.entries, 10, 5);
    assert_eq!(rows[0], "^ more ab…");
    assert!(rows.iter().any(|r| r.starts_with("> [.] f10")));
    assert!(app.scroll_offset <= app.max_scroll_start(5));
    app.handle_key(plain(KeyCode::End), size);
    assert_eq!(app.selected, 29);
    assert_eq!(app.scroll_offset, 26);
    assert_eq!(app.visible_entry_range(26, 5), (26, 30));
}

#[test]
fn screen_shows_three_panes_and_the_status() {
    let mut app = home();
    app.clipboard = None;
    app.handle_key(key('c'), SIZE);
    let screen = app.screen(SIZE);
    assert_eq!(screen.title, "File Explorer - /home");
    assert_eq!(screen.volumes.chars().count(), 80);
    assert!(screen.volumes.starts_with("Volumes: 1: / | 2: /mnt/data"));
    assert_eq!(screen.parent_title, "Parent [/]");
    assert_eq!(screen.current_title, "Current [/home]");
    assert_eq!(screen.preview_title, "Preview");
    assert_eq!(screen.rows.len(), 17);
    assert!(screen.rows[0].starts_with("(empty)"));
    assert!(screen.rows[0].contains(" | > [/] docs"));
    assert_eq!(screen.footer_row, 22);
    assert_eq!(screen.footer, "Copied docs. | Clipboard: Copy");
    assert!(screen.prompt.is_none());
    app.handle_key(key('d'), SIZE);
    let screen = app.screen(SIZE);
    assert_eq!(screen.prompt, Some(String::from("Delete 'docs' ? Press Y to confirm, N to cancel.")));
}

#[test]
fn help_screen_lists_the_keys() {
    let app = home();
    let help = app.help_screen(SIZE);
    assert_eq!(help.title.trim_end(), "Help");
    assert_eq!(help.lines.len(), 19);
    assert!(help.lines[0].starts_with("Help"));
    assert!(help.lines[3].starts_with("H = show or hide help"));
    assert_eq!(help.footer.trim_end(), "Press H, Esc, or Enter to close help.");
    assert_eq!(help.footer_row, 22);
    let short = app.help_screen(ScreenSize { width: 80, height: 8 });
    assert_eq!(short.lines.len(), 4);
}

#[test]
fn panel_titles_and_volume_summary() {
    let app = home();
    assert_eq!(app.panel_title("Parent", None), "Parent");
    assert_eq!(app.panel_title("Current", Some(&String::from("/x"))), "Current [/x]");
    assert_eq!(app.volume_summary(40), "Volumes: 1: / | 2: /mnt/data            ");
    let none = App::new(String::from("/"), Listing { volumes: vec![], parent_dir: None, parent_entries: vec![], entries: vec![] });
    assert_eq!(none.volume_summary(12), "Volumes: no…");
}

#[test]
fn directory_lines_mark_the_current_folder() {
    let app = home();
    let entries = vec![entry("/", "bin", true), entry("/", "home", true), entry("/", "x", false)];
    let lines = app.render_directory_lines(&entries, 12, Some(&String::from("//home")), None);
    assert_eq!(lines, vec!["  [/] bin   ", "> [/] home  ", "  [.] x     "]);
    let lines = app.render_directory_lines(&entries, 12, None, Some(2));
    assert_eq!(lines[2], "> [.] x     ");
    assert_eq!(app.render_directory_lines(&vec![], 12, None, None), vec!["(empty)"]);
}
