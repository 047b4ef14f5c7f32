//! Keys as the explorer sees them, and the keyboard shortcuts.
use vstd::prelude::*;
use crate::chars::{is_ascii_alphanumeric, spec_is_ascii_alphanumeric};

verus! {

/// The key that was pressed.
#[derive(Clone, Copy, Debug, PartialEq, Eq, Structural)]
pub enum KeyCode {
    Char(char),
    Up,
    Down,
    Left,
    Right,
    PageUp,
    PageDown,
    Home,
    End,
    Enter,
    Backspace,
    Esc,
    Other,
}

/// The Shift bit of `KeyEvent::modifiers`.
pub const SHIFT: u8 = 1;

/// A key press: the key and the modifier bits held with it
/// (Shift = 1, Control = 2, Alt = 4, as the terminal reports them).
#[derive(Clone, Copy, Debug, PartialEq, Eq, Structural)]
pub struct KeyEvent {
    pub code: KeyCode,
    pub modifiers: u8,
}

/// Whether the Shift bit is set.
pub open spec fn spec_is_shift_pressed(key: KeyEvent) -> bool {
    key.modifiers & SHIFT != 0
}

/// Whether Shift was held with the key.
pub fn is_shift_pressed(key: &KeyEvent) -> (r: bool)
    ensures
        r == spec_is_shift_pressed(*key),
{
    key.modifiers & SHIFT != 0
}

/// The volume that a key selects: the digits 1 to 9, the characters that the
/// Czech layout puts on those keys, and the shifted digits of the US layout.
pub open spec fn shortcut_index(ch: char) -> Option<usize> {
    if ch == '1' || ch == '+' || ch == '!' {
        Some(0)
    } else if ch == '2' || ch == 'ě' || ch == 'Ě' || ch == '@' {
        Some(1)
    } else if ch == '3' || ch == 'š' || ch == 'Š' || ch == '#' {
        Some(2)
    } else if ch == '4' || ch == 'č' || ch == 'Č' || ch == '$' {
        Some(3)
    } else if ch == '5' || ch == 'ř' || ch == 'Ř' || ch == '%' {
        Some(4)
    } else if ch == '6' || ch == 'ž' || ch == 'Ž' || ch == '^' {
        Some(5)
    } else if ch == '7' || ch == 'ý' || ch == 'Ý' || ch == '&' {
        Some(6)
    } else if ch == '8' || ch == 'á' || ch == 'Á' || ch == '*' {
        Some(7)
    } else if ch == '9' || ch == 'í' || ch == 'Í' || ch == '(' {
        Some(8)
    } else {
        None
    }
}

/// Maps a key to the index of the volume it switches to.
pub fn volume_shortcut_index(ch: char) -> (r: Option<usize>)
    ensures
        r == shortcut_index(ch),
        r is Some ==> r->0 < 9,
{
    match ch {
        '1' | '+' | '!' => Some(0),
        '2' | 'ě' | 'Ě' | '@' => Some(1),
        '3' | 'š' | 'Š' | '#' => Some(2),
        '4' | 'č' | 'Č' | '$' => Some(3),
        '5' | 'ř' | 'Ř' | '%' => Some(4),
        '6' | 'ž' | 'Ž' | '^' => Some(5),
        '7' | 'ý' | 'Ý' | '&' => Some(6),
        '8' | 'á' | 'Á' | '*' => Some(7),
        '9' | 'í' | 'Í' | '(' => Some(8),
        _ => None,
    }
}

/// Characters that extend the Shift filter: ASCII letters and digits,
/// underscore, hyphen and dot.
pub open spec fn spec_is_filter_char(ch: char) -> bool {
    spec_is_ascii_alphanumeric(ch) || ch == '_' || ch == '-' || ch == '.'
}

/// Whether `ch` extends the Shift filter.
pub fn is_filter_char(ch: char) -> (r: bool)
    ensures
        r == spec_is_filter_char(ch),
{
    is_ascii_alphanumeric(ch) || ch == '_' || ch == '-' || ch == '.'
}

} // verus!
