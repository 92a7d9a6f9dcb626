use myls::entry::{octal3, size_and_unit, truncate_name, identity_text, folder_icon};
use myls::platform::DateParts;
use myls::render::{
    age_in_days, date_col, header_line, owner_col, permission_col, render_row, separator_line,
    size_col,
};
use myls::text::{pad_left, pad_right, str_ends_with, str_eq, u64_dec, u64_pad2};

fn parts(year: u32, month: u8, day: u8, hour: u8, minute: u8) -> DateParts {
    DateParts { year, month, day, hour, minute }
}

fn sample_entry(
    size: u64,
    is_dir: bool,
    is_symlink: bool,
) -> myls::entry::ProcessedEntry {
    let raw = myls::entry::RawEntry {
        name: String::from("a.txt"),
        permission_bits: 0o644,
        size_bytes: size,
        owner_id: 7,
        group_id: 9,
        modified_secs: 1_000_000,
        is_directory: is_dir,
        is_symlink,
        is_executable: false,
        is_main_dir: false,
        link_target: None,
        target_is_dir: false,
    };
    myls::entry::process_entry(raw, false, 0, Some(String::from("u")), Some(String::from("g")))
}

#[test]
fn decimal_rendering() {
    assert_eq!(u64_dec(0), "0");
    assert_eq!(u64_dec(7), "7");
    assert_eq!(u64_dec(1234567890), "1234567890");
    assert_eq!(u64_pad2(5), "05");
    assert_eq!(u64_pad2(42), "42");
}

#[test]
fn padding() {
    assert_eq!(pad_left("ab", 4), "  ab");
    assert_eq!(pad_left("abcde", 4), "abcde");
    assert_eq!(pad_right("ab", 4), "ab  ");
    assert_eq!(pad_right("", 3), "   ");
}

#[test]
fn string_predicates() {
    assert!(str_eq("abc", "abc"));
    assert!(!str_eq("abc", "abd"));
    assert!(str_ends_with("a.txt", ".txt"));
    assert!(!str_ends_with("a.txt", ".py"));
    assert!(str_ends_with("x", ""));
}

#[test]
fn octal_permissions() {
    assert_eq!(octal3(0o644), "644");
    assert_eq!(octal3(0o755), "755");
    assert_eq!(octal3(0), "000");
}

#[test]
fn size_units_at_thresholds() {
    assert_eq!(size_and_unit(0, false, false), (String::from("0"), String::from("B")));
    assert_eq!(size_and_unit(500, false, false), (String::from("500"), String::from("B")));
    assert_eq!(size_and_unit(1023, false, false), (String::from("1023"), String::from("B")));
    // The kilobyte boundary itself shows magnitude 1.
    assert_eq!(size_and_unit(1024, false, false), (String::from("1"), String::from("K")));
    assert_eq!(size_and_unit(2048, false, false), (String::from("2"), String::from("K")));
    assert_eq!(size_and_unit(1048575, false, false), (String::from("1023"), String::from("K")));
    assert_eq!(size_and_unit(1048576, false, false), (String::from("1.0"), String::from("M")));
    assert_eq!(
        size_and_unit(3 * 1048576 + 524288, false, false),
        (String::from("3.5"), String::from("M"))
    );
    assert_eq!(size_and_unit(1073741823, false, false), (String::from("1024.0"), String::from("M")));
    assert_eq!(size_and_unit(1073741824, false, false), (String::from("1.0"), String::from("G")));
    assert_eq!(
        size_and_unit(5 * 1073741824 + 3 * 107374182, false, false),
        (String::from("5.3"), String::from("G"))
    );
}

#[test]
fn size_empty_for_directories_and_symlinks() {
    assert_eq!(size_and_unit(123456, true, false), (String::new(), String::new()));
    assert_eq!(size_and_unit(123456, false, true), (String::new(), String::new()));
    assert_eq!(size_and_unit(0, true, true), (String::new(), String::new()));
}

#[test]
fn truncation_budget() {
    // Unlimited budget: nothing changes.
    assert_eq!(truncate_name("abcdefghijklmnop", 0), "abcdefghijklmnop");
    // Within budget + 5: unchanged.
    assert_eq!(truncate_name("abcdefghi", 4), "abcdefghi");
    // Over budget + 5: marker in the middle, budget/2 kept on each side.
    assert_eq!(truncate_name("abcdefghij", 4), "ab(...)ij");
    assert_eq!(truncate_name("abcdefghij", 4).len(), 2 * (4 / 2) + 5);
    assert_eq!(truncate_name("abcdefghijk", 5), "ab(...)jk");
    // Odd budgets floor the halves.
    assert_eq!(truncate_name("0123456789abcdef", 7), "012(...)def");
}

#[test]
fn identity_fallback() {
    assert_eq!(identity_text(Some(String::from("root")), 0), "root");
    assert_eq!(identity_text(None, 1234), "1234");
}

#[test]
fn folder_icons() {
    assert_eq!(folder_icon(false, false), "\u{25a0}");
    assert_eq!(folder_icon(false, true), "\u{25a0}");
    assert_eq!(folder_icon(true, true), "\u{1f4c2}");
    assert_eq!(folder_icon(true, false), "\u{1f4c1}");
}

#[test]
fn permission_column_text() {
    let e = sample_entry(500, false, false);
    assert_eq!(permission_col(&e, 0), "\x1b[0m\x1b[48;5;236m 644");
    assert_eq!(permission_col(&e, 1), "\x1b[0m\x1b[48;5;235m 644");
}

#[test]
fn size_column_text() {
    let e = sample_entry(500, false, false);
    assert_eq!(size_col(&e, 0), "   500\x1b[32mB\x1b[0m\x1b[48;5;236m");
    let m = sample_entry(1048576, false, false);
    assert_eq!(size_col(&m, 0), "   1.0\x1b[33mM\x1b[0m\x1b[48;5;236m");
    let g = sample_entry(2 * 1073741824, false, false);
    assert_eq!(size_col(&g, 1), "   2.0\x1b[31mG\x1b[0m\x1b[48;5;235m");
    let d = sample_entry(500, true, false);
    assert_eq!(size_col(&d, 0), "      -");
}

#[test]
fn owner_column_text() {
    let e = sample_entry(500, false, false);
    assert_eq!(owner_col(&e, 5), "u:g  ");
    assert_eq!(owner_col(&e, 2), "u:g");
}

#[test]
fn age_truncates_toward_zero() {
    assert_eq!(age_in_days(2 * 86400 + 3600, 0), 2);
    // Twenty-three hours old: age 0.
    assert_eq!(age_in_days(23 * 3600, 0), 0);
    assert_eq!(age_in_days(0, 3600), 0);
    assert_eq!(age_in_days(0, 2 * 86400 + 3600), -2);
    assert_eq!(age_in_days(400 * 86400, 0), 400);
}

#[test]
fn date_column_by_age() {
    // Same calendar day: time of day in the today color.
    assert_eq!(
        date_col(0, parts(2024, 2, 1, 14, 5), 0),
        "\x1b[37m     14:05\x1b[0m\x1b[48;5;236m"
    );
    // Within a month: day/month in the recent tint.
    assert_eq!(
        date_col(10, parts(2024, 2, 1, 14, 5), 0),
        "\x1b[38;5;39m     01/02\x1b[0m\x1b[48;5;236m"
    );
    // Forty days: day/month in the older tint.
    assert_eq!(
        date_col(40, parts(2024, 2, 1, 14, 5), 0),
        "\x1b[38;5;33m     01/02\x1b[0m\x1b[48;5;236m"
    );
    // Beyond a year: the full date.
    assert_eq!(
        date_col(400, parts(2024, 2, 1, 14, 5), 0),
        "\x1b[38;5;33m01/02/2024\x1b[0m\x1b[48;5;236m"
    );
}

#[test]
fn full_row_text() {
    let colors = myls::config::SuffixColors::new();
    let e = sample_entry(500, false, false);
    let row = render_row(&e, 0, 4, &colors, 10, parts(2024, 2, 1, 14, 5));
    let expected = String::new()
        + "\x1b[0m\x1b[48;5;236m 644"
        + " "
        + "   500\x1b[32mB\x1b[0m\x1b[48;5;236m"
        + " "
        + "u:g "
        + " "
        + "\x1b[38;5;39m     01/02\x1b[0m\x1b[48;5;236m"
        + " "
        + "a.txt\x1b[0m";
    assert_eq!(row, expected);
}

#[test]
fn header_and_separator() {
    let h = header_line(5);
    assert_eq!(
        h,
        "\x1b[4m\x1b[47m\x1b[30mPERM    SIZE OWNER   MODIFIED NAME\x1b[0m"
    );
    let s = separator_line();
    assert_eq!(s.len(), 60);
    assert!(s.chars().all(|c| c == '-'));
}
