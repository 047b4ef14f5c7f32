use std::path::Path;

use pruzkumnik::chars::{
    is_ascii_alphanumeric, is_control, is_whitespace, push_decimal, to_ascii_lowercase,
    to_ascii_uppercase, to_chars,
};
use pruzkumnik::fs_operations::{
    is_zip_file, lex_less, str_equal, unescape_mount_field, unique_destination_name,
};
use pruzkumnik::text::{split_lines, split_words};

fn all_chars() -> impl Iterator<Item = char> {
    (0u32..=0x10ffff).filter_map(char::from_u32)
}

#[test]
fn character_classes_agree_with_std_for_every_char() {
    for c in all_chars() {
        assert_eq!(is_whitespace(c), c.is_whitespace(), "{:?}", c);
        assert_eq!(is_control(c), c.is_control(), "{:?}", c);
        assert_eq!(is_ascii_alphanumeric(c), c.is_ascii_alphanumeric(), "{:?}", c);
        assert_eq!(to_ascii_lowercase(c), c.to_ascii_lowercase(), "{:?}", c);
        assert_eq!(to_ascii_uppercase(c), c.to_ascii_uppercase(), "{:?}", c);
    }
}

fn samples() -> Vec<&'static str> {
    vec![
        "", "a", " ", "\n", "\r\n", "a\nb", "a\r\nb\r\n", "a\rb", "tail\r", "\n\n", "x\n\ny\n",
        "  two  words ", "tab\tand\u{a0}nbsp", "\u{3000}ideo\u{2003}space", "emoji 😀 here",
        "mixed \r\n lines \n\r end",
    ]
}

#[test]
fn lines_and_words_agree_with_std() {
    for s in samples() {
        let cs = to_chars(s);
        let lines: Vec<String> = split_lines(&cs).into_iter().map(|l| l.into_iter().collect()).collect();
        let expected: Vec<String> = s.lines().map(String::from).collect();
        assert_eq!(lines, expected, "{:?}", s);
        let words: Vec<String> = split_words(&cs).into_iter().map(|w| w.into_iter().collect()).collect();
        let expected: Vec<String> = s.split_whitespace().map(String::from).collect();
        assert_eq!(words, expected, "{:?}", s);
    }
}

#[test]
fn unescape_agrees_with_chained_replace() {
    let inputs = [
        "/a\\040b", "\\040\\040", "\\\\040", "\\134040", "\\0\\040", "x\\011y\\012z\\134", "\\04", "",
        "\\134\\134040",
    ];
    for s in inputs {
        let expected = s.replace("\\040", " ").replace("\\011", "\t").replace("\\012", "\n").replace("\\134", "\\");
        assert_eq!(unescape_mount_field(s), expected, "{:?}", s);
    }
}

#[test]
fn copy_names_agree_with_path_stem_and_extension() {
    let names = ["file.txt", "archive.tar.gz", "README", ".bashrc", "dot.", ".", "..", "", "a..b", "..a", ".a.b"];
    for name in names {
        let path = Path::new(name);
        let stem = path.file_stem().and_then(|v| v.to_str()).unwrap_or(name);
        let extension = path.extension().and_then(|v| v.to_str()).unwrap_or("");
        for index in [1usize, 7, 999] {
            let expected = if extension.is_empty() {
                format!("{}_copy{}", stem, index)
            } else {
                format!("{}_copy{}.{}", stem, index, extension)
            };
            assert_eq!(unique_destination_name(name, index), expected, "{:?}", name);
        }
        assert_eq!(unique_destination_name(name, 1000), format!("{}_copy_final", stem), "{:?}", name);
        let zip = path
            .extension()
            .and_then(|e| e.to_str())
            .map(|e| e.eq_ignore_ascii_case("zip"))
            .unwrap_or(false);
        assert_eq!(is_zip_file(name), zip, "{:?}", name);
    }
}

#[test]
fn order_of_text_agrees_with_string_order() {
    let words = ["", "a", "b", "ab", "aa", "A", "é", "e", "ee", "zz", "z", "😀", "日本"];
    for a in words {
        for b in words {
            assert_eq!(lex_less(&to_chars(a), &to_chars(b)), a < b, "{:?} {:?}", a, b);
            assert_eq!(str_equal(a, b), a == b);
        }
    }
}

#[test]
fn decimal_agrees_with_display() {
    for n in [0usize, 1, 9, 10, 11, 99, 100, 12345, usize::MAX] {
        let mut s = String::new();
        push_decimal(&mut s, n);
        assert_eq!(s, n.to_string());
    }
}
