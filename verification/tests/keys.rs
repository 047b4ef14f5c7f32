use pruzkumnik::app::keys::{is_filter_char, is_shift_pressed, volume_shortcut_index, KeyCode, KeyEvent};

#[test]
fn maps_numeric_root_shortcuts() {
    assert_eq!(volume_shortcut_index('1'), Some(0));
    assert_eq!(volume_shortcut_index('4'), Some(3));
    assert_eq!(volume_shortcut_index('9'), Some(8));
}

#[test]
fn maps_czech_keyboard_shortcuts() {
    assert_eq!(volume_shortcut_index('ě'), Some(1));
    assert_eq!(volume_shortcut_index('š'), Some(2));
    assert_eq!(volume_shortcut_index('č'), Some(3));
}

#[test]
fn accepts_filter_chars_only() {
    assert!(is_filter_char('a'));
    assert!(is_filter_char('_'));
    assert!(is_filter_char('.'));
    assert!(!is_filter_char('/'));
    assert!(!is_filter_char(' '));
}

#[test]
fn maps_every_digit_and_shifted_digit() {
    let digits = ['1', '2', '3', '4', '5', '6', '7', '8', '9'];
    let shifted = ['!', '@', '#', '$', '%', '^', '&', '*', '('];
    let czech = ['+', 'ě', 'š', 'č', 'ř', 'ž', 'ý', 'á', 'í'];
    for i in 0..9 {
        assert_eq!(volume_shortcut_index(digits[i]), Some(i));
        assert_eq!(volume_shortcut_index(shifted[i]), Some(i));
        assert_eq!(volume_shortcut_index(czech[i]), Some(i));
    }
    assert_eq!(volume_shortcut_index('Ě'), Some(1));
    assert_eq!(volume_shortcut_index('0'), None);
    assert_eq!(volume_shortcut_index('a'), None);
}

#[test]
fn filter_chars_cover_letters_digits_and_three_marks() {
    assert!(is_filter_char('Z'));
    assert!(is_filter_char('7'));
    assert!(is_filter_char('-'));
    assert!(!is_filter_char('é'));
    assert!(!is_filter_char('!'));
}

#[test]
fn shift_is_the_lowest_modifier_bit() {
    assert!(is_shift_pressed(&KeyEvent { code: KeyCode::Up, modifiers: 1 }));
    assert!(is_shift_pressed(&KeyEvent { code: KeyCode::Up, modifiers: 3 }));
    assert!(!is_shift_pressed(&KeyEvent { code: KeyCode::Up, modifiers: 2 }));
    assert!(!is_shift_pressed(&KeyEvent { code: KeyCode::Up, modifiers: 0 }));
}

#[test]
fn digit_shortcuts_reach_drives_c_to_f() {
    let volumes = pruzkumnik::explorer_fs::available_volumes(&vec![true; 24]);
    let expected = ["C:\\", "D:\\", "E:\\", "F:\\"];
    for (digit, root) in ['1', '2', '3', '4'].iter().zip(expected.iter()) {
        let index = volume_shortcut_index(*digit).expect("shortcut");
        assert_eq!(volumes[index], *root);
    }
}
