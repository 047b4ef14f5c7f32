use std::io::{Cursor, Write};

use pruzkumnik::explorer_fs;
use pruzkumnik::fs_operations;
use pruzkumnik::fs_operations::finish_text_preview;
use pruzkumnik::zip_preview::format_zip_listing;
use zip::write::SimpleFileOptions;
use zip::CompressionMethod;
use zip::ZipWriter;

fn archive(files: &[&str], dirs: &[&str]) -> Vec<u8> {
    let mut writer = ZipWriter::new(Cursor::new(Vec::new()));
    let options = SimpleFileOptions::default().compression_method(CompressionMethod::Stored);
    for name in files {
        writer.start_file(*name, options).expect("start file");
        writer.write_all(b"data").expect("write");
    }
    for name in dirs {
        writer.add_directory(*name, options).expect("add directory");
    }
    writer.finish().expect("finish").into_inner()
}

/// Sets the "encrypted" flag of every header of an archive.
fn mark_encrypted(mut bytes: Vec<u8>) -> Vec<u8> {
    let mut i = 0;
    while i + 4 <= bytes.len() {
        let sig = &bytes[i..i + 4];
        if sig == [0x50, 0x4b, 0x03, 0x04] {
            bytes[i + 6] |= 1;
        } else if sig == [0x50, 0x4b, 0x01, 0x02] {
            bytes[i + 8] |= 1;
        }
        i += 1;
    }
    bytes
}

#[test]
fn zip_preview_lists_entries() {
    let bytes = archive(&["a.txt", "b.txt"], &["dir/"]);
    let text = explorer_fs::read_preview("/x/a.zip", "a.zip", bytes, 8000).expect("preview");
    assert_eq!(text, "ZIP archive: /x/a.zip\n\n[FILE] a.txt\n[FILE] b.txt\n[DIR] dir/");
}

#[test]
fn zip_preview_in_czech() {
    let bytes = archive(&["a.txt"], &[]);
    let text = fs_operations::read_preview("/x/a.ZIP", "a.ZIP", bytes, 8000).expect("preview");
    assert_eq!(text, "ZIP archiv: /x/a.ZIP\n\n[FILE] a.txt");
}

#[test]
fn empty_zip_has_a_note() {
    let bytes = archive(&[], &[]);
    assert_eq!(explorer_fs::read_zip_preview("e.zip", bytes.clone()).expect("preview"), "ZIP archive is empty.");
    assert_eq!(fs_operations::read_zip_preview("e.zip", bytes).expect("preview"), "ZIP archive je prázdný.");
}

#[test]
fn zip_preview_stops_after_forty_entries() {
    let names: Vec<String> = (0..45).map(|i| format!("f{:02}.txt", i)).collect();
    let refs: Vec<&str> = names.iter().map(|s| s.as_str()).collect();
    let bytes = archive(&refs, &[]);
    let text = explorer_fs::read_zip_preview("many.zip", bytes).expect("preview");
    let lines: Vec<&str> = text.lines().collect();
    assert_eq!(lines.len(), 2 + 40 + 1);
    assert_eq!(lines[2], "[FILE] f00.txt");
    assert_eq!(lines[41], "[FILE] f39.txt");
    assert_eq!(lines[42], "... (more entries)");
}

#[test]
fn encrypted_zip_is_reported() {
    let bytes = mark_encrypted(archive(&["secret.txt"], &[]));
    assert_eq!(explorer_fs::read_zip_preview("s.zip", bytes.clone()).expect("preview"), "Archive is encrypted.");
    assert_eq!(fs_operations::read_zip_preview("s.zip", bytes).expect("preview"), "Archiv je zašifrovaný.");
}

#[test]
fn broken_zip_is_an_error() {
    assert!(explorer_fs::read_preview("b.zip", "b.zip", b"not a zip".to_vec(), 8000).is_err());
}

#[test]
fn text_preview_is_cut_at_the_limit() {
    let text = explorer_fs::read_preview("t.txt", "t.txt", b"hello world".to_vec(), 5).expect("preview");
    assert_eq!(text, "hello\n... (zkráceno)");
    let whole = explorer_fs::read_preview("t.txt", "t.txt", b"hello".to_vec(), 5).expect("preview");
    assert_eq!(whole, "hello");
}

#[test]
fn czech_text_preview_blanks_control_characters() {
    let text = fs_operations::read_preview("t.txt", "t.txt", b"a\x07b\r\n\tc".to_vec(), 100).expect("preview");
    assert_eq!(text, "a b\r\n\tc");
    let raw = explorer_fs::read_preview("t.txt", "t.txt", b"a\x07b".to_vec(), 100).expect("preview");
    assert_eq!(raw, "a\u{7}b");
}

#[test]
fn invalid_utf8_becomes_replacement_characters() {
    let text = explorer_fs::read_preview("t.bin", "t.bin", vec![b'a', 0xff, b'b'], 100).expect("preview");
    assert_eq!(text, "a\u{fffd}b");
}

fn summary(encrypted: bool, is_dir: bool, name: Option<&str>) -> Option<pruzkumnik::zip_preview::ZipEntrySummary> {
    Some(pruzkumnik::zip_preview::ZipEntrySummary { encrypted, is_dir, name: name.map(String::from) })
}

#[test]
fn zip_listing_text_from_given_entries() {
    let texts = explorer_fs::zip_texts();
    let shown = vec![summary(false, true, Some("d/")), summary(false, false, Some("d/f.txt"))];
    assert_eq!(
        format_zip_listing("x.zip", &shown, 2, &texts),
        Some(String::from("ZIP archive: x.zip\n\n[DIR] d/\n[FILE] d/f.txt"))
    );
    assert_eq!(
        format_zip_listing("x.zip", &shown, 41, &texts),
        Some(String::from("ZIP archive: x.zip\n\n[DIR] d/\n[FILE] d/f.txt\n... (more entries)"))
    );
    assert_eq!(format_zip_listing("x.zip", &vec![], 0, &texts), Some(String::from("ZIP archive is empty.")));
    let locked = vec![summary(false, false, Some("a")), summary(true, false, Some("b")), None];
    assert_eq!(format_zip_listing("x.zip", &locked, 3, &texts), Some(String::from("Archive is encrypted.")));
    let broken = vec![summary(false, false, Some("a")), None, summary(true, false, Some("b"))];
    assert_eq!(format_zip_listing("x.zip", &broken, 3, &texts), None);
    let nameless = vec![summary(false, false, None)];
    assert_eq!(format_zip_listing("x.zip", &nameless, 1, &texts), None);
    let czech = fs_operations::zip_texts();
    assert_eq!(
        format_zip_listing("y.zip", &vec![summary(false, false, Some("a"))], 1, &czech),
        Some(String::from("ZIP archiv: y.zip\n\n[FILE] a"))
    );
}

#[test]
fn finishing_a_text_preview() {
    assert_eq!(finish_text_preview(String::from("a\u{1b}b"), false, false), "a\u{1b}b");
    assert_eq!(finish_text_preview(String::from("a\u{1b}b"), false, true), "a b");
    assert_eq!(finish_text_preview(String::from("abc"), true, true), "abc\n... (zkráceno)");
}
