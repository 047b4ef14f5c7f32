use pruzkumnik::fs_operations::{
    add_root_if_absent, available_volumes, drive_root, is_virtual_fs, is_zip_file,
    mount_candidates, order_entries, order_entries_by_keys, parse_mount_line, sanitize_preview_text, sorted_volumes,
    unescape_mount_field, unique_destination_name, volume_label, LAST_COPY_ATTEMPT,
    next_copy_attempt, mount_point_volumes, gathered_volumes,
};
use pruzkumnik::types::EntryItem;

#[test]
fn sanitize_preview_replaces_control_chars() {
    let text = sanitize_preview_text("a\u{0007}b\n\t");
    assert_eq!(text, "a b\n\t");
}

#[test]
fn parse_mount_line_extracts_mount_path_and_fs() {
    let line = "/dev/sda2 /mnt/data ext4 rw,relatime 0 0";
    let parsed = parse_mount_line(line).expect("mount line");

    assert_eq!(parsed.0, "/mnt/data");
    assert_eq!(parsed.1, "ext4");
}

#[test]
fn mount_unescape_decodes_spaces() {
    let unescaped = unescape_mount_field("/run/media/My\\040Disk");
    assert_eq!(unescaped, "/run/media/My Disk");
}

#[test]
fn mount_unescape_decodes_all_escapes_in_order() {
    assert_eq!(unescape_mount_field("a\\011b\\012c\\134d"), "a\tb\nc\\d");
    assert_eq!(unescape_mount_field("\\134040"), "\\040");
    assert_eq!(unescape_mount_field("plain"), "plain");
}

#[test]
fn parse_mount_line_rejects_short_and_relative_lines() {
    assert_eq!(parse_mount_line("/dev/sda1 /boot"), None);
    assert_eq!(parse_mount_line(""), None);
    assert_eq!(parse_mount_line("none relative tmpfs rw 0 0"), None);
    let parsed = parse_mount_line("  /dev/sdb1\t/media/My\\040Stick  vfat rw 0 0").expect("mount line");
    assert_eq!(parsed.0, "/media/My Stick");
    assert_eq!(parsed.1, "vfat");
}

#[test]
fn virtual_file_systems_are_recognised() {
    for name in ["proc", "sysfs", "tmpfs", "overlay", "binfmt_misc", "cgroup2"] {
        assert!(is_virtual_fs(name));
    }
    for name in ["ext4", "vfat", "ntfs", "btrfs", "Proc", ""] {
        assert!(!is_virtual_fs(name));
    }
}

#[test]
fn mount_candidates_skip_virtual_and_broken_lines() {
    let data = "proc /proc proc rw 0 0\n/dev/sda2 /mnt/data ext4 rw 0 0\n\nbroken\n/dev/sdb1 /media/usb vfat rw 0 0\r\n";
    let found = mount_candidates(data);
    assert_eq!(found, vec![String::from("/mnt/data"), String::from("/media/usb")]);
}

#[test]
fn drive_roots_are_upper_case() {
    assert_eq!(drive_root('c'), "C:\\");
    assert_eq!(drive_root('D'), "D:\\");
}

#[test]
fn available_volumes_keeps_existing_drives_in_order() {
    let mut exists = vec![false; 24];
    exists[0] = true;
    exists[1] = true;
    exists[23] = true;
    assert_eq!(
        available_volumes(&exists),
        vec![String::from("C:\\"), String::from("D:\\"), String::from("Z:\\")]
    );
    assert!(available_volumes(&vec![false; 24]).is_empty());
    assert_eq!(available_volumes(&vec![true; 24]).len(), 24);
}

#[test]
fn volume_labels_count_from_one() {
    assert_eq!(volume_label(0, &String::from("C:\\")), "1: C:\\");
    assert_eq!(volume_label(11, &String::from("/mnt/data")), "12: /mnt/data");
}

#[test]
fn sorted_volumes_orders_and_removes_duplicates() {
    let input = vec![
        String::from("/mnt/b"),
        String::from("/"),
        String::from("/mnt/a"),
        String::from("/mnt/b"),
        String::from("/media"),
    ];
    assert_eq!(
        sorted_volumes(input),
        vec![
            String::from("/"),
            String::from("/media"),
            String::from("/mnt/a"),
            String::from("/mnt/b"),
        ]
    );
}

#[test]
fn add_root_if_absent_keeps_one_copy() {
    let mut volumes = vec![String::from("/")];
    add_root_if_absent(&mut volumes, &String::from("/mnt"));
    add_root_if_absent(&mut volumes, &String::from("/"));
    add_root_if_absent(&mut volumes, &String::from("/mnt"));
    assert_eq!(volumes, vec![String::from("/"), String::from("/mnt")]);
}

fn entry(name: &str, is_dir: bool) -> EntryItem {
    EntryItem { name: String::from(name), path: format!("/tmp/{}", name), is_dir, is_file: !is_dir }
}

#[test]
fn order_entries_sorts_directories_first() {
    let entries = vec![entry("file.txt", false), entry("folder", true)];
    let ordered = order_entries(entries);
    assert_eq!(ordered.len(), 2);
    assert!(ordered[0].is_dir);
    assert!(ordered[1].is_file);
}

#[test]
fn order_entries_ignores_case_and_keeps_ties_in_place() {
    let entries = vec![
        entry("b.txt", false),
        entry("Zeta", true),
        entry("A.txt", false),
        entry("alpha", true),
        entry("a.TXT", false),
        entry("Čaj", false),
    ];
    let names: Vec<String> = order_entries(entries).into_iter().map(|e| e.name).collect();
    assert_eq!(names, vec!["alpha", "Zeta", "A.txt", "a.TXT", "b.txt", "Čaj"]);
}

#[test]
fn unique_destination_adds_copy_suffix_to_the_name() {
    assert_eq!(unique_destination_name("file.txt", 0), "file.txt");
    let first = unique_destination_name("file.txt", 1);
    assert_ne!(first, "file.txt");
    assert!(first.contains("_copy"));
    assert_eq!(first, "file_copy1.txt");
    assert_eq!(unique_destination_name("file.txt", 42), "file_copy42.txt");
    assert_eq!(unique_destination_name("archive.tar.gz", 2), "archive.tar_copy2.gz");
    assert_eq!(unique_destination_name("README", 3), "README_copy3");
    assert_eq!(unique_destination_name(".bashrc", 1), ".bashrc_copy1");
    assert_eq!(unique_destination_name("dot.", 1), "dot_copy1");
    assert_eq!(unique_destination_name("file.txt", LAST_COPY_ATTEMPT), "file_copy_final");
    assert_eq!(unique_destination_name("file.txt", 999), "file_copy999.txt");
}

#[test]
fn zip_files_are_recognised_by_extension() {
    assert!(is_zip_file("a.zip"));
    assert!(is_zip_file("A.ZiP"));
    assert!(!is_zip_file(".zip"));
    assert!(!is_zip_file("zip"));
    assert!(!is_zip_file("a.zip.txt"));
    assert!(!is_zip_file("a.zipx"));
}

#[test]
fn order_by_given_keys_is_stable() {
    let entries = vec![entry("x", false), entry("y", true), entry("z", false), entry("w", false)];
    let keys = vec![String::from("b"), String::from("z"), String::from("a"), String::from("b")];
    let (ordered, ordered_keys) = order_entries_by_keys(entries, keys);
    let names: Vec<String> = ordered.into_iter().map(|e| e.name).collect();
    assert_eq!(names, vec!["y", "z", "x", "w"]);
    assert_eq!(ordered_keys, vec!["z", "a", "b", "b"]);
}

#[test]
fn copy_search_stops_at_the_first_free_name_or_the_last_attempt() {
    assert_eq!(next_copy_attempt(0, false), None);
    assert_eq!(next_copy_attempt(0, true), Some(1));
    assert_eq!(next_copy_attempt(41, true), Some(42));
    assert_eq!(next_copy_attempt(999, true), Some(1000));
    assert_eq!(next_copy_attempt(LAST_COPY_ATTEMPT, true), None);
    let taken = |attempt: usize| attempt < 3;
    let mut attempt = 0;
    while let Some(next) = next_copy_attempt(attempt, taken(attempt)) {
        attempt = next;
    }
    assert_eq!(attempt, 3);
    assert_eq!(unique_destination_name("file.txt", attempt), "file_copy3.txt");
}

#[test]
fn mount_points_keep_directories_once_and_add_the_root() {
    let candidates = vec![
        String::from("/mnt/data"),
        String::from("/gone"),
        String::from("/mnt/data"),
        String::from("/home"),
    ];
    let is_dir = vec![true, false, true, true];
    assert_eq!(
        mount_point_volumes(&candidates, &is_dir, true),
        vec![String::from("/mnt/data"), String::from("/home"), String::from("/")]
    );
    assert_eq!(
        mount_point_volumes(&candidates, &is_dir, false),
        vec![String::from("/mnt/data"), String::from("/home")]
    );
    let with_root = vec![String::from("/"), String::from("/boot")];
    assert_eq!(mount_point_volumes(&with_root, &vec![true, true], true), vec![String::from("/"), String::from("/boot")]);
    assert!(mount_point_volumes(&vec![], &vec![], false).is_empty());
}

#[test]
fn gathered_volumes_sort_and_merge_the_extra_folders() {
    let mounts = vec![String::from("/mnt/data"), String::from("/")];
    let extra = vec![String::from("/media"), String::from("/mnt"), String::from("/mnt/data")];
    assert_eq!(
        gathered_volumes(mounts, true, &extra),
        vec![String::from("/"), String::from("/media"), String::from("/mnt"), String::from("/mnt/data")]
    );
    assert_eq!(gathered_volumes(vec![], true, &vec![String::from("/mnt")]), vec![String::from("/"), String::from("/mnt")]);
    assert_eq!(gathered_volumes(vec![], false, &vec![String::from("/mnt")]), vec![String::from("/mnt")]);
}
