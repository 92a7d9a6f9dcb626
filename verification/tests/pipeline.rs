use myls::config::{parse_file_colors, SuffixColors};
use myls::entry::{process_entry, ProcessedEntry, RawEntry, Tier};
use myls::listing::{gather_entries, is_hidden_name, missing_path_message, ListingRequest};
use myls::platform::local_date_parts;
use myls::render::{build_report, name_col, render_row_now};
use myls::sort::sort_entries;

fn raw(name: &str, perm: u32, size: u64, is_dir: bool) -> RawEntry {
    RawEntry {
        name: String::from(name),
        permission_bits: perm,
        size_bytes: size,
        owner_id: 1,
        group_id: 2,
        modified_secs: 1_000_000,
        is_directory: is_dir,
        is_symlink: false,
        is_executable: perm & 0o100 != 0,
        is_main_dir: false,
        link_target: None,
        target_is_dir: false,
    }
}

fn raw_symlink(name: &str, target: &str, target_is_dir: bool, executable: bool) -> RawEntry {
    RawEntry {
        name: String::from(name),
        permission_bits: 0o777,
        size_bytes: 11,
        owner_id: 1,
        group_id: 2,
        modified_secs: 1_000_000,
        is_directory: false,
        is_symlink: true,
        is_executable: executable,
        is_main_dir: false,
        link_target: Some(String::from(target)),
        target_is_dir,
    }
}

fn process(r: RawEntry) -> ProcessedEntry {
    process_entry(r, false, 0, Some(String::from("u")), Some(String::from("g")))
}

#[test]
fn directories_sort_before_files() {
    // Scenario: a directory `b` and a file `a.txt` in one listing.
    let mut v = vec![process(raw("a.txt", 0o644, 500, false)), process(raw("b", 0o755, 4096, true))];
    sort_entries(&mut v);
    assert_eq!(v[0].original_name, "b");
    assert_eq!(v[0].tier, Tier::DirectoryLike);
    // The directory row shows no size.
    assert_eq!(v[0].size_text, "");
    assert_eq!(v[0].size_unit, "");
    assert_eq!(v[1].original_name, "a.txt");
    assert_eq!(v[1].tier, Tier::Other);
    assert_eq!(v[1].size_text, "500");
}

#[test]
fn names_sort_case_insensitively() {
    // Case-folded ordering: 'B' sorts by 'b', after 'a'.
    let mut v = vec![process(raw("B", 0o644, 1, false)), process(raw("a", 0o644, 1, false))];
    sort_entries(&mut v);
    assert_eq!(v[0].original_name, "a");
    assert_eq!(v[1].original_name, "B");
}

#[test]
fn symlink_to_directory_sorts_with_directories() {
    let mut v = vec![
        process(raw("aaa", 0o644, 1, false)),
        process(raw_symlink("zzz", "/somewhere", true, false)),
    ];
    sort_entries(&mut v);
    assert_eq!(v[0].original_name, "zzz");
    assert_eq!(v[0].tier, Tier::DirectoryLike);
}

#[test]
fn equal_keys_keep_collection_order() {
    // Two distinct inputs with the same name: the sort is stable.
    let mut first = raw("same", 0o644, 1, false);
    first.owner_id = 10;
    let a = process_entry(first, false, 0, Some(String::from("first")), None);
    let b = process(raw("same", 0o644, 2, false));
    let mut v = vec![a, b];
    sort_entries(&mut v);
    assert_eq!(v[0].owner_text, "first");
    assert_eq!(v[1].size_text, "2");
}

#[test]
fn sorting_twice_keeps_the_order() {
    let mut v = vec![
        process(raw("c", 0o644, 1, false)),
        process(raw("dir", 0o755, 1, true)),
        process(raw("A", 0o644, 1, false)),
        process(raw("b", 0o644, 1, false)),
    ];
    sort_entries(&mut v);
    let once: Vec<String> = v.iter().map(|e| e.original_name.clone()).collect();
    sort_entries(&mut v);
    let twice: Vec<String> = v.iter().map(|e| e.original_name.clone()).collect();
    assert_eq!(once, twice);
    assert_eq!(once, vec!["dir", "A", "b", "c"]);
}

#[test]
fn executable_suppression_in_name_color() {
    let colors = SuffixColors::new();
    // A plain executable file is painted green.
    let f = process(raw("run", 0o755, 1, false));
    assert!(f.effective_executable);
    assert_eq!(name_col(&f, &colors), "\x1b[32mrun\x1b[0m\x1b[0m");
    // A directory with the execute bit never shows the executable color.
    let d = process(raw("dir", 0o755, 1, true));
    assert!(!d.effective_executable);
    assert_eq!(name_col(&d, &colors), "\u{25a0} dir\x1b[0m");
    // A symlink to a directory with the execute bit: suppressed too.
    let ld = process(raw_symlink("link", "/d", true, true));
    assert!(!ld.effective_executable);
    // A symlink to a regular executable file: shown.
    let lf = process(raw_symlink("link2", "/f", false, true));
    assert!(lf.effective_executable);
    assert_eq!(
        name_col(&lf, &colors),
        "\x1b[32mlink2\x1b[0m -> /f\x1b[0m"
    );
}

#[test]
fn suffix_color_applies_unless_executable() {
    let colors = parse_file_colors(".txt=38;5;1m").unwrap();
    let plain = process(raw("a.txt", 0o644, 500, false));
    assert_eq!(name_col(&plain, &colors), "\x1b[38;5;1ma.txt\x1b[0m\x1b[0m");
    // The executable color takes precedence over the suffix color.
    let exe = process(raw("a.txt", 0o755, 500, false));
    assert_eq!(name_col(&exe, &colors), "\x1b[32ma.txt\x1b[0m\x1b[0m");
    // No configured suffix matches: the name stays bare.
    let other = process(raw("a.py", 0o644, 500, false));
    assert_eq!(name_col(&other, &colors), "a.py\x1b[0m");
}

#[test]
fn icons_and_truncation_in_display_names() {
    let d = process_entry(raw("docs", 0o755, 1, true), true, 0, None, None);
    assert_eq!(d.display_name, "\u{1f4c1} docs");
    let long = process_entry(raw("abcdefghij", 0o644, 1, false), false, 4, None, None);
    assert_eq!(long.display_name, "ab(...)ij");
    let link = process_entry(
        raw_symlink("l", "/very/long/target/path", true, false),
        false,
        6,
        None,
        None,
    );
    assert_eq!(link.link_target_name, "\u{25a0} /ve(...)ath");
}

#[test]
fn main_directory_marked_once_and_first() {
    let req = ListingRequest::SingleDirectory(
        Some(raw("home", 0o755, 4096, true)),
        vec![raw("a.txt", 0o644, 500, false), raw("b", 0o755, 4096, true)],
    );
    let mut out = gather_entries(req);
    assert_eq!(out.len(), 3);
    assert!(out[0].is_main_dir);
    assert!(!out[1].is_main_dir);
    assert!(!out[2].is_main_dir);
    let first = process(out.remove(0));
    assert_eq!(first.tier, Tier::Primary);
}

#[test]
fn standalone_mode_marks_nothing() {
    let req = ListingRequest::Standalone(vec![
        raw("a", 0o644, 1, false),
        raw("d", 0o755, 1, true),
    ]);
    let out = gather_entries(req);
    assert_eq!(out.len(), 2);
    assert!(out.iter().all(|e| !e.is_main_dir));
    // So no processed entry reaches the primary tier.
    for e in out {
        assert_ne!(process(e).tier, Tier::Primary);
    }
}

#[test]
fn report_line_counts() {
    let colors = SuffixColors::new();
    // Standalone entries: one header line plus one row each.
    let req = ListingRequest::Standalone(vec![
        raw("a", 0o644, 1, false),
        raw("d", 0o755, 1, true),
    ]);
    let lines = build_report(gather_entries(req), false, 0, &colors, 1_000_000);
    assert_eq!(lines.len(), 3);
    assert!(lines[0].starts_with("\x1b[4m\x1b[47m\x1b[30m"));
    // Single-directory mode: header, the directory's own row, a separator,
    // then the children.
    let req = ListingRequest::SingleDirectory(
        Some(raw("home", 0o755, 4096, true)),
        vec![raw("a.txt", 0o644, 500, false), raw("b", 0o755, 4096, true)],
    );
    let lines = build_report(gather_entries(req), false, 0, &colors, 1_000_000);
    assert_eq!(lines.len(), 5);
    assert_eq!(lines[2].len(), 60);
    // An empty listing still prints the header alone.
    let lines = build_report(Vec::new(), false, 0, &colors, 0);
    assert_eq!(lines.len(), 1);
}

#[test]
fn rendered_row_carries_all_columns() {
    let colors = SuffixColors::new();
    let e = process(raw("a.txt", 0o644, 500, false));
    let row = render_row_now(&e, 0, 4, &colors, 1_000_000);
    assert!(row.starts_with("\x1b[0m\x1b[48;5;236m 644 "));
    assert!(row.contains("   500\x1b[32mB"));
    assert!(row.contains("u:g "));
    assert!(row.ends_with("a.txt\x1b[0m"));
}

#[test]
fn hidden_names() {
    assert!(is_hidden_name(".bashrc"));
    assert!(is_hidden_name("."));
    assert!(!is_hidden_name("visible"));
    assert!(!is_hidden_name(""));
}

#[test]
fn missing_path_diagnostic() {
    assert_eq!(missing_path_message("/no/such"), "Error: /no/such does not exist");
}

#[test]
fn local_calendar_fields_stay_in_range() {
    for secs in [0i64, 86400, 1_000_000_000, 253402128000] {
        let p = local_date_parts(secs);
        assert!(p.month >= 1 && p.month <= 12);
        assert!(p.day >= 1 && p.day <= 31);
        assert!(p.hour < 24);
        assert!(p.minute < 60);
        assert!(p.year >= 1969 && p.year <= 9999);
    }
}
