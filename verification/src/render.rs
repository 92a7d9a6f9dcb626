//! The renderer: zebra-striped, color-escaped column strings for each
//! processed entry, and the assembled report.
use vstd::prelude::*;

use crate::config::SuffixColors;
use crate::config::find_color;
use crate::config::first_match;
use crate::entry::ProcessedEntry;
use crate::entry::RawEntry;
use crate::entry::process_with_lookup;
use crate::entry::processed_rep_ok;
use crate::platform::DateParts;
use crate::platform::MAX_DATE_SECS;
use crate::platform::local_date_parts;
use crate::sort::lemma_sort_len;
use crate::sort::lemma_sort_membership;
use crate::sort::sort_entries;
use crate::sort::sort_rep;
use crate::text::dec_rep;
use crate::text::pad2_rep;
use crate::text::pad_left;
use crate::text::pad_left_rep;
use crate::text::pad_right;
use crate::text::pad_right_rep;
use crate::text::str_eq;
use crate::text::u64_dec;
use crate::text::u64_pad2;

verus! {

pub open spec fn reset_rep() -> Seq<char> {
    "\x1b[0m"@
}

/// The alternating row backgrounds, by row index parity.
pub open spec fn zebra_rep(i: nat) -> Seq<char> {
    if i % 2 == 0 {
        "\x1b[48;5;236m"@
    } else {
        "\x1b[48;5;235m"@
    }
}

/// The reset written inside a row: it restores the row's background, so a
/// foreground change never clears the stripe.
pub open spec fn row_reset_rep(i: nat) -> Seq<char> {
    reset_rep() + zebra_rep(i)
}

pub open spec fn green_rep() -> Seq<char> {
    "\x1b[32m"@
}

pub open spec fn yellow_rep() -> Seq<char> {
    "\x1b[33m"@
}

pub open spec fn red_rep() -> Seq<char> {
    "\x1b[31m"@
}

pub open spec fn today_color_rep() -> Seq<char> {
    "\x1b[37m"@
}

pub open spec fn day_color_rep() -> Seq<char> {
    "\x1b[38;5;39m"@
}

pub open spec fn month_color_rep() -> Seq<char> {
    "\x1b[38;5;33m"@
}

pub open spec fn header_background_rep() -> Seq<char> {
    "\x1b[4m\x1b[47m\x1b[30m"@
}

/// The row's opening escape: a reset carrying this row's background.
pub fn row_reset(i: usize) -> (r: String)
    ensures
        r@ == row_reset_rep(i as nat),
{
    if i % 2 == 0 {
        "\x1b[0m".to_owned().concat("\x1b[48;5;236m")
    } else {
        "\x1b[0m".to_owned().concat("\x1b[48;5;235m")
    }
}

/// Permission column: the stripe escape, then the octal text right-aligned
/// to four characters.
pub open spec fn permission_col_rep(perm: Seq<char>, i: nat) -> Seq<char> {
    row_reset_rep(i) + pad_left_rep(perm, 4)
}

pub fn permission_col(e: &ProcessedEntry, i: usize) -> (r: String)
    ensures
        r@ == permission_col_rep(e.permission_text@, i as nat),
{
    row_reset(i).concat(pad_left(e.permission_text.as_str(), 4).as_str())
}

/// Foreground for the unit letter: sizes in bytes or kilobytes are fine,
/// megabytes warn, gigabytes alarm.
pub open spec fn unit_color_rep(unit: Seq<char>) -> Seq<char> {
    if unit == "B"@ || unit == "K"@ {
        green_rep()
    } else if unit == "M"@ {
        yellow_rep()
    } else {
        red_rep()
    }
}

/// Size column: six right-aligned magnitude characters and the colored unit
/// letter, or a right-aligned dash when the entry shows no size.
pub open spec fn size_col_rep(size: Seq<char>, unit: Seq<char>, i: nat) -> Seq<char> {
    if size.len() == 0 {
        "      -"@
    } else {
        pad_left_rep(size, 6) + unit_color_rep(unit) + unit + row_reset_rep(i)
    }
}

pub fn size_col(e: &ProcessedEntry, i: usize) -> (r: String)
    ensures
        r@ == size_col_rep(e.size_text@, e.size_unit@, i as nat),
{
    if e.size_text.unicode_len() == 0 {
        proof {
            assert(e.size_text@.len() == 0);
        }
        return "      -".to_owned();
    }
    let unit_color: &'static str = if str_eq(e.size_unit.as_str(), "B") || str_eq(
        e.size_unit.as_str(),
        "K",
    ) {
        "\x1b[32m"
    } else if str_eq(e.size_unit.as_str(), "M") {
        "\x1b[33m"
    } else {
        "\x1b[31m"
    };
    pad_left(e.size_text.as_str(), 6).concat(unit_color).concat(e.size_unit.as_str()).concat(
        row_reset(i).as_str(),
    )
}

/// Owner column: `owner:group`, left-aligned to the global width.
pub open spec fn owner_col_rep(owner: Seq<char>, group: Seq<char>, w: nat) -> Seq<char> {
    pad_right_rep(owner + ":"@ + group, w)
}

pub fn owner_col(e: &ProcessedEntry, w: usize) -> (r: String)
    ensures
        r@ == owner_col_rep(e.owner_text@, e.group_text@, w as nat),
{
    let joined = e.owner_text.clone().concat(":").concat(e.group_text.as_str());
    pad_right(joined.as_str(), w)
}

/// Age of an entry in whole days, truncated toward zero: an entry modified
/// twenty-three hours ago has age 0.
pub open spec fn age_days_rep(now: int, modified: int) -> int {
    if now >= modified {
        (now - modified) / 86400
    } else {
        -((modified - now) / 86400)
    }
}

pub fn age_in_days(now: i64, modified: i64) -> (r: i64)
    ensures
        r as int == age_days_rep(now as int, modified as int),
{
    if now >= modified {
        let diff: i128 = (now as i128) - (modified as i128);
        let du: u128 = diff as u128;
        let days: u128 = du / 86400;
        proof {
            assert(du == now - modified);
            assert(days <= du / 86400);
            assert(days < 0x8000_0000_0000_0000u128);
        }
        days as i64
    } else {
        let diff: i128 = (modified as i128) - (now as i128);
        let du: u128 = diff as u128;
        let days: u128 = du / 86400;
        proof {
            assert(du == modified - now);
            assert(days < 0x8000_0000_0000_0000u128);
        }
        let d: i64 = days as i64;
        -d
    }
}

/// The date text: time of day for today, day/month within a year, and the
/// full date beyond.
pub open spec fn date_text_rep(age: int, p: DateParts) -> Seq<char> {
    if age > 364 {
        pad2_rep(p.day as nat) + "/"@ + pad2_rep(p.month as nat) + "/"@ + dec_rep(p.year as nat)
    } else if age > 0 {
        pad2_rep(p.day as nat) + "/"@ + pad2_rep(p.month as nat)
    } else {
        pad2_rep(p.hour as nat) + ":"@ + pad2_rep(p.minute as nat)
    }
}

/// The date's tint by age: recent days bright, the past month dimmer, and
/// everything older in the oldest tier's color.
pub open spec fn date_color_rep(age: int) -> Seq<char> {
    if age > 30 {
        month_color_rep()
    } else if age > 0 {
        day_color_rep()
    } else {
        today_color_rep()
    }
}

/// Date column: tint, ten right-aligned characters of date text, stripe
/// reset.
pub open spec fn date_col_rep(age: int, p: DateParts, i: nat) -> Seq<char> {
    date_color_rep(age) + pad_left_rep(date_text_rep(age, p), 10) + row_reset_rep(i)
}

pub fn date_col(age: i64, p: DateParts, i: usize) -> (r: String)
    requires
        p.wf(),
    ensures
        r@ == date_col_rep(age as int, p, i as nat),
{
    let text = if age > 364 {
        u64_pad2(p.day as u64).concat("/").concat(u64_pad2(p.month as u64).as_str()).concat(
            "/",
        ).concat(u64_dec(p.year as u64).as_str())
    } else if age > 0 {
        u64_pad2(p.day as u64).concat("/").concat(u64_pad2(p.month as u64).as_str())
    } else {
        u64_pad2(p.hour as u64).concat(":").concat(u64_pad2(p.minute as u64).as_str())
    };
    let color: &'static str = if age > 30 {
        "\x1b[38;5;33m"
    } else if age > 0 {
        "\x1b[38;5;39m"
    } else {
        "\x1b[37m"
    };
    color.to_owned().concat(pad_left(text.as_str(), 10).as_str()).concat(row_reset(i).as_str())
}

/// Date column for a modification time, against the given clock reading.
/// The age is exact; which calendar digits appear depends on the machine's
/// time zone, so they are pinned only to well-formed calendar fields.
pub fn modified_col(modified_secs: i64, now: i64, i: usize) -> (r: String)
    ensures
        exists|p: DateParts|
            p.wf() && r@ == date_col_rep(
                age_days_rep(now as int, modified_secs as int),
                p,
                i as nat,
            ),
{
    let age = age_in_days(now, modified_secs);
    let clamped: i64 = if modified_secs < 0 {
        0
    } else if modified_secs > MAX_DATE_SECS {
        MAX_DATE_SECS
    } else {
        modified_secs
    };
    let p = local_date_parts(clamped);
    let r = date_col(age, p, i);
    proof {
        assert(p.wf() && r@ == date_col_rep(
            age_days_rep(now as int, modified_secs as int),
            p,
            i as nat,
        ));
    }
    r
}

/// Name column: the display name, colored green when effective-executable,
/// else by the first matching suffix color; a symlink's resolved target is
/// appended outside that color span; a final reset closes the column.
pub open spec fn name_col_rep(e: ProcessedEntry, colors: Seq<(Seq<char>, Seq<char>)>) -> Seq<
    char,
> {
    let base = if e.effective_executable {
        green_rep() + e.display_name@ + reset_rep()
    } else {
        match first_match(colors, e.original_name@) {
            Option::Some(c) => "\x1b["@ + c + e.display_name@ + reset_rep(),
            Option::None => e.display_name@,
        }
    };
    let linked = if e.link_target_name@.len() > 0 {
        base + " -> "@ + e.link_target_name@
    } else {
        base
    };
    linked + reset_rep()
}

pub fn name_col(e: &ProcessedEntry, colors: &SuffixColors) -> (r: String)
    ensures
        r@ == name_col_rep(*e, colors@),
{
    let base = if e.effective_executable {
        "\x1b[32m".to_owned().concat(e.display_name.as_str()).concat("\x1b[0m")
    } else {
        match find_color(colors, e.original_name.as_str()) {
            Option::Some(c) => "\x1b[".to_owned().concat(c.as_str()).concat(
                e.display_name.as_str(),
            ).concat("\x1b[0m"),
            Option::None => e.display_name.clone(),
        }
    };
    let linked = if e.link_target_name.unicode_len() > 0 {
        base.concat(" -> ").concat(e.link_target_name.as_str())
    } else {
        base
    };
    linked.concat("\x1b[0m")
}

/// The fixed header row, in reverse video, with the owner label aligned to
/// the computed width.
pub open spec fn header_rep(w: nat) -> Seq<char> {
    header_background_rep() + pad_left_rep("PERM"@, 4) + " "@ + pad_left_rep("SIZE"@, 7) + " "@
        + pad_left_rep("OWNER"@, w) + " "@ + pad_left_rep("MODIFIED"@, 10) + " NAME"@
        + reset_rep()
}

pub fn header_line(w: usize) -> (r: String)
    ensures
        r@ == header_rep(w as nat),
{
    "\x1b[4m\x1b[47m\x1b[30m".to_owned().concat(pad_left("PERM", 4).as_str()).concat(" ").concat(
        pad_left("SIZE", 7).as_str(),
    ).concat(" ").concat(pad_left("OWNER", w).as_str()).concat(" ").concat(
        pad_left("MODIFIED", 10).as_str(),
    ).concat(" NAME").concat("\x1b[0m")
}

/// The dashes printed between the listed directory's own row and its
/// contents.
pub open spec fn separator_rep() -> Seq<char> {
    "------------------------------------------------------------"@
}

pub fn separator_line() -> (r: String)
    ensures
        r@ == separator_rep(),
{
    "------------------------------------------------------------".to_owned()
}

/// One full report row: the five columns joined by single spaces.
pub open spec fn row_rep(
    e: ProcessedEntry,
    w: nat,
    i: nat,
    colors: Seq<(Seq<char>, Seq<char>)>,
    age: int,
    p: DateParts,
) -> Seq<char> {
    permission_col_rep(e.permission_text@, i) + " "@ + size_col_rep(e.size_text@, e.size_unit@, i)
        + " "@ + owner_col_rep(e.owner_text@, e.group_text@, w) + " "@ + date_col_rep(age, p, i)
        + " "@ + name_col_rep(e, colors)
}

/// Render one row from its entry, row index, owner width and date fields.
pub fn render_row(
    e: &ProcessedEntry,
    i: usize,
    w: usize,
    colors: &SuffixColors,
    age: i64,
    p: DateParts,
) -> (r: String)
    requires
        p.wf(),
    ensures
        r@ == row_rep(*e, w as nat, i as nat, colors@, age as int, p),
{
    permission_col(e, i).concat(" ").concat(size_col(e, i).as_str()).concat(" ").concat(
        owner_col(e, w).as_str(),
    ).concat(" ").concat(date_col(age, p, i).as_str()).concat(" ").concat(
        name_col(e, colors).as_str(),
    )
}

/// Render one row against the given clock reading; the calendar digits
/// depend on the machine's time zone.
pub fn render_row_now(
    e: &ProcessedEntry,
    i: usize,
    w: usize,
    colors: &SuffixColors,
    now: i64,
) -> (r: String)
    ensures
        exists|p: DateParts|
            p.wf() && r@ == row_rep(
                *e,
                w as nat,
                i as nat,
                colors@,
                age_days_rep(now as int, e.modified_secs as int),
                p,
            ),
{
    let age = age_in_days(now, e.modified_secs);
    let clamped: i64 = if e.modified_secs < 0 {
        0
    } else if e.modified_secs > MAX_DATE_SECS {
        MAX_DATE_SECS
    } else {
        e.modified_secs
    };
    let p = local_date_parts(clamped);
    let r = render_row(e, i, w, colors, age, p);
    proof {
        assert(p.wf() && r@ == row_rep(
            *e,
            w as nat,
            i as nat,
            colors@,
            age_days_rep(now as int, e.modified_secs as int),
            p,
        ));
    }
    r
}

/// The widest `owner` plus `group` length over the whole set.
pub open spec fn owner_width_rep(s: Seq<ProcessedEntry>) -> nat
    decreases s.len(),
{
    if s.len() == 0 {
        0
    } else {
        let rest = owner_width_rep(s.drop_last());
        let last = s.last().owner_text@.len() + s.last().group_text@.len();
        if last > rest {
            last
        } else {
            rest
        }
    }
}

/// The owner column's width: one more than the widest combined owner and
/// group text (saturating at the machine's limit).
pub fn max_owner_width(v: &Vec<ProcessedEntry>) -> (w: usize)
    ensures
        owner_width_rep(v@) + 1 <= usize::MAX ==> w as nat == owner_width_rep(v@) + 1,
        owner_width_rep(v@) + 1 > usize::MAX ==> w == usize::MAX,
{
    let n = v.len();
    let mut m: usize = 0;
    proof {
        assert(v@.take(0) =~= Seq::<ProcessedEntry>::empty());
    }
    let mut i: usize = 0;
    while i < n
        invariant
            i <= n,
            n == v@.len(),
            owner_width_rep(v@.take(i as int)) <= usize::MAX ==> m as nat == owner_width_rep(
                v@.take(i as int),
            ),
            owner_width_rep(v@.take(i as int)) > usize::MAX ==> m == usize::MAX,
        decreases n - i,
    {
        let a = v[i].owner_text.unicode_len();
        let b = v[i].group_text.unicode_len();
        let combined: usize = if a <= usize::MAX - b {
            a + b
        } else {
            usize::MAX
        };
        if combined > m {
            m = combined;
        }
        i = i + 1;
        proof {
            assert(v@.take(i as int).drop_last() =~= v@.take(i - 1));
            assert(v@.take(i as int).last() == v@[i - 1]);
        }
    }
    proof {
        assert(v@.take(n as int) =~= v@);
    }
    if m < usize::MAX {
        m + 1
    } else {
        usize::MAX
    }
}

/// The emitted line is the rendered row of `e` at row index `i`, for some
/// well-formed local calendar fields.
pub open spec fn line_is_row(
    line: Seq<char>,
    e: ProcessedEntry,
    w: nat,
    i: nat,
    colors: Seq<(Seq<char>, Seq<char>)>,
    now: int,
) -> bool {
    exists|p: DateParts|
        p.wf() && line == row_rep(e, w, i, colors, age_days_rep(now, e.modified_secs as int), p)
}

/// The assembled report over the sorted entries: the header first; then,
/// when the primary-directory row leads the set, that row alone, a dash
/// separator iff more rows follow, and the remaining rows; otherwise every
/// row in order. Row indices count all entries, the primary included.
pub open spec fn report_lines_ok(
    lines: Seq<String>,
    sorted: Seq<ProcessedEntry>,
    w: nat,
    colors: Seq<(Seq<char>, Seq<char>)>,
    now: int,
) -> bool {
    let n = sorted.len();
    &&& lines.len() >= 1
    &&& lines[0]@ == header_rep(w)
    &&& if n > 0 && sorted[0].is_main_dir {
        &&& lines.len() == (if n == 1 {
            2nat
        } else {
            n + 2
        })
        &&& line_is_row(lines[1]@, sorted[0], w, 0, colors, now)
        &&& (n > 1 ==> lines[2]@ == separator_rep())
        &&& (forall|k: int|
            1 <= k < n ==> line_is_row(lines[k + 2]@, sorted[k], w, k as nat, colors, now))
    } else {
        &&& lines.len() == n + 1
        &&& (forall|k: int|
            0 <= k < n ==> line_is_row(lines[k + 1]@, sorted[k], w, k as nat, colors, now))
    }
}

/// When no entry carries the main-directory mark — as in multi-path mode —
/// no primary row leads the sorted set, so the report is the header
/// followed by exactly one row per entry, and never a separator line.
pub proof fn lemma_report_without_primary(
    lines: Seq<String>,
    ps: Seq<ProcessedEntry>,
    w: nat,
    colors: Seq<(Seq<char>, Seq<char>)>,
    now: int,
)
    requires
        forall|k: int| 0 <= k < ps.len() ==> !(#[trigger] ps[k]).is_main_dir,
        report_lines_ok(lines, sort_rep(ps), w, colors, now),
    ensures
        lines.len() == ps.len() + 1,
        forall|k: int|
            0 <= k < ps.len() ==> line_is_row(
                #[trigger] lines[k + 1]@,
                sort_rep(ps)[k],
                w,
                k as nat,
                colors,
                now,
            ),
{
    lemma_sort_len(ps);
    lemma_sort_membership(ps);
    if ps.len() > 0 {
        assert(ps.contains(sort_rep(ps)[0]));
        let j = choose|j: int| 0 <= j < ps.len() && ps[j] == sort_rep(ps)[0];
        assert(!ps[j].is_main_dir);
    }
}

/// Build the whole report for one invocation: process each raw record,
/// sort by the tiered key, and emit the header, the listed directory's own
/// row with its separator where one leads the set, and a row per entry.
/// The lines are pinned to the rendered rows of the sorted processed set,
/// up to the identity-database answers and the machine's time zone.
pub fn build_report(
    raws: Vec<RawEntry>,
    show_icons: bool,
    max_name_length: usize,
    colors: &SuffixColors,
    now: i64,
) -> (lines: Vec<String>)
    requires
        forall|k: int| 0 <= k < raws@.len() ==> raws@[k].wf(),
    ensures
        raws@.len() + 1 <= lines@.len() <= raws@.len() + 2,
        raws@.len() == 0 ==> lines@.len() == 1,
        exists|ps: Seq<ProcessedEntry>, w: nat|
            {
                &&& ps.len() == raws@.len()
                &&& (forall|k: int|
                    0 <= k < ps.len() ==> processed_rep_ok(
                        raws@[k],
                        #[trigger] ps[k],
                        show_icons,
                        max_name_length as nat,
                    ))
                &&& (owner_width_rep(sort_rep(ps)) + 1 <= usize::MAX ==> w == owner_width_rep(
                    sort_rep(ps),
                ) + 1)
                &&& (owner_width_rep(sort_rep(ps)) + 1 > usize::MAX ==> w == usize::MAX as nat)
                &&& report_lines_ok(lines@, sort_rep(ps), w, colors@, now as int)
            },
{
    let ghost orig = raws@;
    let mut raws = raws;
    let ghost mut done: int = 0;
    let mut entries: Vec<ProcessedEntry> = Vec::new();
    proof {
        assert(raws@ =~= orig.skip(0));
    }
    while raws.len() > 0
        invariant
            0 <= done <= orig.len(),
            raws@ == orig.skip(done),
            entries@.len() == done,
            forall|k: int| 0 <= k < orig.len() ==> orig[k].wf(),
            forall|k: int|
                0 <= k < done ==> processed_rep_ok(
                    orig[k],
                    #[trigger] entries@[k],
                    show_icons,
                    max_name_length as nat,
                ),
        decreases raws@.len(),
    {
        let ghost rest = raws@;
        let r = raws.remove(0);
        proof {
            assert(rest[0] == orig.skip(done)[0]);
            assert(r == orig[done]);
        }
        let p = process_with_lookup(r, show_icons, max_name_length);
        entries.push(p);
        proof {
            done = done + 1;
            assert(raws@ =~= orig.skip(done));
        }
    }
    let ghost ps = entries@;
    proof {
        assert(ps.len() == orig.len());
        lemma_sort_len(ps);
    }
    sort_entries(&mut entries);
    let ghost sorted = sort_rep(ps);
    let w = max_owner_width(&entries);
    let n = entries.len();
    let mut lines: Vec<String> = Vec::new();
    lines.push(header_line(w));
    if n > 0 && entries[0].is_main_dir {
        let first = render_row_now(&entries[0], 0, w, colors, now);
        proof {
            assert(line_is_row(first@, sorted[0], w as nat, 0, colors@, now as int));
        }
        lines.push(first);
        if n > 1 {
            lines.push(separator_line());
        }
        let mut k: usize = 1;
        while k < n
            invariant
                1 <= k <= n,
                n == entries@.len(),
                entries@ == sorted,
                sorted[0].is_main_dir,
                lines@.len() == (if n == 1 {
                    2int
                } else {
                    k + 2
                }),
                lines@[0]@ == header_rep(w as nat),
                line_is_row(lines@[1]@, sorted[0], w as nat, 0, colors@, now as int),
                n > 1 ==> lines@[2]@ == separator_rep(),
                forall|h: int|
                    1 <= h < k ==> line_is_row(
                        #[trigger] lines@[h + 2]@,
                        sorted[h],
                        w as nat,
                        h as nat,
                        colors@,
                        now as int,
                    ),
            decreases n - k,
        {
            let row = render_row_now(&entries[k], k, w, colors, now);
            proof {
                assert(line_is_row(row@, sorted[k as int], w as nat, k as nat, colors@,
                    now as int));
            }
            lines.push(row);
            k = k + 1;
        }
    } else {
        let mut k: usize = 0;
        while k < n
            invariant
                k <= n,
                n == entries@.len(),
                entries@ == sorted,
                lines@.len() == k + 1,
                lines@[0]@ == header_rep(w as nat),
                forall|h: int|
                    0 <= h < k ==> line_is_row(
                        #[trigger] lines@[h + 1]@,
                        sorted[h],
                        w as nat,
                        h as nat,
                        colors@,
                        now as int,
                    ),
            decreases n - k,
        {
            let row = render_row_now(&entries[k], k, w, colors, now);
            proof {
                assert(line_is_row(row@, sorted[k as int], w as nat, k as nat, colors@,
                    now as int));
            }
            lines.push(row);
            k = k + 1;
        }
    }
    proof {
        assert(report_lines_ok(lines@, sorted, w as nat, colors@, now as int));
        assert(exists|ps0: Seq<ProcessedEntry>, w0: nat|
            {
                &&& ps0.len() == orig.len()
                &&& (forall|k: int|
                    0 <= k < ps0.len() ==> processed_rep_ok(
                        orig[k],
                        #[trigger] ps0[k],
                        show_icons,
                        max_name_length as nat,
                    ))
                &&& (owner_width_rep(sort_rep(ps0)) + 1 <= usize::MAX ==> w0 == owner_width_rep(
                    sort_rep(ps0),
                ) + 1)
                &&& (owner_width_rep(sort_rep(ps0)) + 1 > usize::MAX ==> w0 == usize::MAX as nat)
                &&& report_lines_ok(lines@, sort_rep(ps0), w0, colors@, now as int)
            }) by {
            assert({
                &&& ps.len() == orig.len()
                &&& (forall|k: int|
                    0 <= k < ps.len() ==> processed_rep_ok(
                        orig[k],
                        #[trigger] ps[k],
                        show_icons,
                        max_name_length as nat,
                    ))
                &&& (owner_width_rep(sort_rep(ps)) + 1 <= usize::MAX ==> (w as nat)
                    == owner_width_rep(sort_rep(ps)) + 1)
                &&& (owner_width_rep(sort_rep(ps)) + 1 > usize::MAX ==> (w as nat) == usize::MAX
                    as nat)
                &&& report_lines_ok(lines@, sort_rep(ps), w as nat, colors@, now as int)
            });
        }
    }
    lines
}

} // verus!
