use pruzkumnik::app::render::three_column_widths;
use pruzkumnik::text::{clip_text, fit_text, pad_to_width, wrap_text};

#[test]
fn fit_text_pads_or_cuts_to_the_width() {
    assert_eq!(fit_text("abc", 5), "abc  ");
    assert_eq!(fit_text("abcdef", 4), "abc…");
    assert_eq!(fit_text("abcd", 4), "abcd");
    assert_eq!(fit_text("abc", 0), "");
    assert_eq!(fit_text("žluťoučký", 5), "žluť…");
    for width in 0..12 {
        assert_eq!(fit_text("some longer text", width).chars().count(), width);
    }
}

#[test]
fn clip_text_cuts_with_a_dot() {
    assert_eq!(clip_text("abc", 5), "abc");
    assert_eq!(clip_text("abcdef", 4), "abc.");
    assert_eq!(clip_text("abc", 0), "");
    assert_eq!(clip_text("abc", 1), ".");
}

#[test]
fn pad_to_width_only_adds() {
    assert_eq!(pad_to_width(String::from("ab"), 4), "ab  ");
    assert_eq!(pad_to_width(String::from("abcdef"), 4), "abcdef");
}

#[test]
fn wrap_text_packs_words_greedily() {
    assert_eq!(wrap_text("one two three four", 9), vec!["one two", "three", "four"]);
    assert_eq!(wrap_text("", 10), vec![""]);
    assert_eq!(wrap_text("a\n\nb", 10), vec!["a", "", "b"]);
    assert_eq!(wrap_text("abcdefghij xy", 4), vec!["abcd", "xy"]);
    assert_eq!(wrap_text("   ", 4), vec![""]);
    assert_eq!(wrap_text("line\r\nnext\n", 10), vec!["line", "next"]);
    assert_eq!(wrap_text("ab", 0), vec!["a"]);
}

#[test]
fn wrap_text_lines_never_exceed_the_width() {
    let text = "Folder: some-very-long-name-without-spaces\nPath: /a/b/c\n\nEnter opens the folder. Right arrow does the same.";
    for width in 1..30 {
        for line in wrap_text(text, width) {
            assert!(line.chars().count() <= width);
        }
    }
}

#[test]
fn three_column_widths_small_terminals() {
    assert_eq!(three_column_widths(0), (1, 1, 1));
    assert_eq!(three_column_widths(10), (1, 1, 1));
    assert_eq!(three_column_widths(11), (1, 1, 2));
    assert_eq!(three_column_widths(41), (11, 11, 12));
    assert_eq!(three_column_widths(80), (18, 21, 34));
}

fn float_reference(total_width: u16) -> (u16, u16, u16) {
    let separators = 6;
    let safety_margin = 1;
    if total_width <= separators + safety_margin + 3 {
        return (1, 1, 1);
    }
    let available = total_width - separators - safety_margin;
    let min_left = 10;
    let min_middle = 12;
    let min_right = 12;
    if available <= min_left + min_middle + min_right {
        let left = (available / 3).max(1);
        let middle = ((available - left) / 2).max(1);
        let right = available.saturating_sub(left + middle).max(1);
        return (left, middle, right);
    }
    let mut left = ((available as f32) * 0.25) as u16;
    let mut middle = ((available as f32) * 0.30) as u16;
    left = left.max(min_left);
    middle = middle.max(min_middle);
    if left + middle + min_right > available {
        let overflow = left + middle + min_right - available;
        let cut_left = (overflow / 2).min(left.saturating_sub(min_left));
        left -= cut_left;
        let remaining = overflow - cut_left;
        let cut_middle = remaining.min(middle.saturating_sub(min_middle));
        middle -= cut_middle;
    }
    let right = available.saturating_sub(left + middle).max(min_right);
    (left, middle, right)
}

#[test]
fn three_column_widths_matches_the_fractional_split_for_every_width() {
    for width in 0..=u16::MAX {
        assert_eq!(three_column_widths(width), float_reference(width), "width {}", width);
    }
}

#[test]
fn wrap_text_keeps_every_word_whole_and_in_order() {
    let text = "the quick  brown\tfox\r\njumps over\n\nthe lazy dog";
    let lines = wrap_text(text, 10);
    let out: Vec<&str> = lines.iter().flat_map(|l| l.split_whitespace()).collect();
    let expected: Vec<&str> = text.split_whitespace().collect();
    assert_eq!(out, expected);
    assert_eq!(lines, vec!["the quick", "brown fox", "jumps over", "", "the lazy", "dog"]);
}
