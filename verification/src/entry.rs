//! The entry processor: turns one raw metadata record into the
//! display-ready fields of a processed entry.
use vstd::prelude::*;

use crate::platform::lookup_group_name;
use crate::platform::lookup_user_name;
use crate::platform::lower_of;
use crate::platform::to_lower;
use crate::text::dec_rep;
use crate::text::digit_char;
use crate::text::digit_str;
use crate::text::u64_dec;

verus! {

/// Bytes in one kilobyte, megabyte and gigabyte: the size-unit thresholds.
pub const KB: u64 = 1024;

pub const MB: u64 = 1024 * 1024;

pub const GB: u64 = 1024 * 1024 * 1024;

/// One path's metadata as the collector hands it over: plain values only.
/// Link-target fields are resolved by the collector, since following a link
/// is an operating-system call; the processor only interprets them.
pub struct RawEntry {
    /// Base name of the path (the last component).
    pub name: String,
    /// The nine POSIX permission bits (owner/group/other x rwx).
    pub permission_bits: u32,
    /// Byte length; meaningless for directories and symlinks.
    pub size_bytes: u64,
    pub owner_id: u32,
    pub group_id: u32,
    /// Modification time, seconds since the Unix epoch.
    pub modified_secs: i64,
    pub is_directory: bool,
    pub is_symlink: bool,
    /// The raw owner-execute mode bit, with no directory/symlink semantics.
    pub is_executable: bool,
    /// True only for a directory named alone on the command line.
    pub is_main_dir: bool,
    /// The link target's path text, when the entry is a symlink whose target
    /// could be read.
    pub link_target: Option<String>,
    /// Whether the resolved link target exists and is a directory.
    pub target_is_dir: bool,
}

impl RawEntry {
    pub open spec fn wf(self) -> bool {
        &&& self.permission_bits < 512
        &&& (self.link_target is Some ==> self.is_symlink)
        &&& (self.target_is_dir ==> self.link_target is Some)
    }
}

/// The dominant sort key: the listed directory itself first, then
/// directories and links to directories, then everything else.
#[derive(Clone, Copy, PartialEq, Eq, Structural, Debug)]
pub enum Tier {
    Primary,
    DirectoryLike,
    Other,
}

pub open spec fn tier_rank(t: Tier) -> int {
    match t {
        Tier::Primary => 0,
        Tier::DirectoryLike => 1,
        Tier::Other => 2,
    }
}

pub fn tier_rank_ex(t: Tier) -> (r: u8)
    ensures
        r as int == tier_rank(t),
{
    match t {
        Tier::Primary => 0,
        Tier::DirectoryLike => 1,
        Tier::Other => 2,
    }
}

/// A raw entry's tier.
pub open spec fn tier_rep(r: RawEntry) -> Tier {
    if r.is_main_dir {
        Tier::Primary
    } else if r.is_directory || r.target_is_dir {
        Tier::DirectoryLike
    } else {
        Tier::Other
    }
}

/// Whether the entry is shown as executable: the raw bit is suppressed on
/// directories and on symlinks that lead to a directory, whose execute bits
/// carry traversal semantics instead.
pub open spec fn effective_exec_rep(r: RawEntry) -> bool {
    r.is_executable && !r.is_directory && (r.link_target is None || !r.target_is_dir)
}

/// Round `10 * s / den` to the nearest integer, ties to even: the number of
/// tenths shown for a one-decimal magnitude.
pub open spec fn tenths_round(num: nat, den: nat) -> nat
    recommends
        den > 0,
{
    let q = num / den;
    let r = num % den;
    if 2 * r < den {
        q
    } else if 2 * r > den {
        q + 1
    } else if q % 2 == 0 {
        q
    } else {
        q + 1
    }
}

/// One-decimal rendering of `s / den`.
pub open spec fn tenths_rep(s: nat, den: nat) -> Seq<char>
    recommends
        den > 0,
{
    let t = tenths_round(10 * s, den);
    dec_rep(t / 10) + seq!['.'] + seq![digit_char(t % 10)]
}

/// Magnitude text and unit tag for a byte size. Directories and symlinks
/// show neither: their stored byte length is not meaningful here.
pub open spec fn size_texts(size: nat, is_dir: bool, is_symlink: bool) -> (Seq<char>, Seq<char>) {
    if is_dir || is_symlink {
        (Seq::<char>::empty(), Seq::<char>::empty())
    } else if size < 1024 {
        (dec_rep(size), seq!['B'])
    } else if size < 1048576 {
        (dec_rep(size / 1024), seq!['K'])
    } else if size < 1073741824 {
        (tenths_rep(size, 1048576), seq!['M'])
    } else {
        (tenths_rep(size, 1073741824), seq!['G'])
    }
}

/// Three-digit octal rendering of the nine permission bits.
pub open spec fn octal3_rep(p: nat) -> Seq<char>
    recommends
        p < 512,
{
    seq![digit_char(p / 64), digit_char((p / 8) % 8), digit_char(p % 8)]
}

/// The fixed marker that replaces the middle of an over-long name.
pub open spec fn marker_rep() -> Seq<char> {
    seq!['(', '.', '.', '.', ')']
}

/// A name truncated to the budget `maxlen` (0 = unlimited): names longer
/// than `maxlen + 5` keep `maxlen / 2` characters from each end around the
/// marker.
pub open spec fn truncate_rep(s: Seq<char>, maxlen: nat) -> Seq<char> {
    if maxlen > 0 && s.len() > maxlen + 5 {
        s.take((maxlen / 2) as int) + marker_rep() + s.skip(s.len() - (maxlen / 2))
    } else {
        s
    }
}

/// The glyph prefixed to directory names: a neutral marker unless icons are
/// enabled, which distinguish the listed directory from its children.
pub open spec fn folder_icon_rep(show_icons: bool, is_main: bool) -> Seq<char> {
    if !show_icons {
        seq!['■']
    } else if is_main {
        seq!['📂']
    } else {
        seq!['📁']
    }
}

/// The name column's text for an entry: truncated, and icon-prefixed for
/// directories.
pub open spec fn display_name_rep(
    name: Seq<char>,
    is_dir: bool,
    show_icons: bool,
    is_main: bool,
    maxlen: nat,
) -> Seq<char> {
    let t = truncate_rep(name, maxlen);
    if is_dir {
        folder_icon_rep(show_icons, is_main) + seq![' '] + t
    } else {
        t
    }
}

/// The displayed link-target name: truncated, and icon-prefixed when the
/// target is a directory.
pub open spec fn target_display_rep(r: RawEntry, show_icons: bool, maxlen: nat) -> Seq<char> {
    match r.link_target {
        Option::None => Seq::<char>::empty(),
        Option::Some(t) => {
            let tn = truncate_rep(t@, maxlen);
            if tn.len() > 0 && r.target_is_dir {
                folder_icon_rep(show_icons, r.is_main_dir) + seq![' '] + tn
            } else {
                tn
            }
        },
    }
}

/// An identity column's text: the resolved name, or the decimal id when the
/// lookup found none.
pub open spec fn identity_rep(looked_up: Option<String>, id: u32) -> Seq<char> {
    match looked_up {
        Option::Some(n) => n@,
        Option::None => dec_rep(id as nat),
    }
}

/// One entry normalized for display, derived from exactly one raw record.
pub struct ProcessedEntry {
    pub permission_text: String,
    pub size_text: String,
    pub size_unit: String,
    pub owner_text: String,
    pub group_text: String,
    pub display_name: String,
    pub link_target_name: String,
    /// The untouched base name, against which suffix colors are matched.
    pub original_name: String,
    pub effective_executable: bool,
    pub tier: Tier,
    /// The case-folded base name, the tie-break of the sort key.
    pub sort_name: String,
    pub is_main_dir: bool,
    pub modified_secs: i64,
}

proof fn lemma_mul_div_shift(a: u64, b: u64, den: u64)
    requires
        den > 0,
        b < den,
    ensures
        (10 * ((a as nat) * (den as nat) + (b as nat))) / (den as nat) == 10 * (a as nat) + (10
            * (b as nat)) / (den as nat),
        (10 * ((a as nat) * (den as nat) + (b as nat))) % (den as nat) == (10 * (b as nat)) % (
        den as nat),
{
    let aa = a as int;
    let bb = b as int;
    let dd = den as int;
    assert(10 * (aa * dd + bb) == (10 * aa) * dd + 10 * bb) by (nonlinear_arith);
    vstd::arithmetic::div_mod::lemma_hoist_over_denominator(10 * bb, 10 * aa, dd as nat);
    vstd::arithmetic::div_mod::lemma_mod_multiples_vanish(10 * aa, 10 * bb, dd);
}

/// One-decimal magnitude text for `s / den`.
fn tenths_str(s: u64, den: u64) -> (r: String)
    requires
        den == 1048576 || den == 1073741824,
    ensures
        r@ == tenths_rep(s as nat, den as nat),
{
    let whole: u64 = s / den;
    let frac: u64 = s % den;
    let q: u64 = (10 * frac) / den;
    let rem: u64 = (10 * frac) % den;
    proof {
        vstd::arithmetic::div_mod::lemma_fundamental_div_mod(s as int, den as int);
        lemma_mul_div_shift(whole, frac, den);
        assert(whole * den <= s) by (nonlinear_arith)
            requires
                den > 0,
                whole == s / den,
                s / den * den + s % den == s,
                s % den >= 0,
        ;
    }
    let t_floor: u64 = 10 * whole + q;
    let t: u64 = if 2 * rem < den {
        t_floor
    } else if 2 * rem > den {
        t_floor + 1
    } else if t_floor % 2 == 0 {
        t_floor
    } else {
        t_floor + 1
    };
    proof {
        assert(t == tenths_round(10 * (s as nat), den as nat));
    }
    let r = u64_dec(t / 10).concat(".").concat(digit_str(t % 10));
    proof {
        reveal_strlit(".");
        assert("."@ =~= seq!['.']);
        assert(r@ =~= tenths_rep(s as nat, den as nat));
    }
    r
}

/// Magnitude text and unit tag for one entry's size column.
pub fn size_and_unit(size: u64, is_dir: bool, is_symlink: bool) -> (r: (String, String))
    ensures
        r.0@ == size_texts(size as nat, is_dir, is_symlink).0,
        r.1@ == size_texts(size as nat, is_dir, is_symlink).1,
        is_dir || is_symlink ==> r.0@.len() == 0 && r.1@.len() == 0,
{
    proof {
        reveal_strlit("B");
        reveal_strlit("K");
        reveal_strlit("M");
        reveal_strlit("G");
        assert("B"@ =~= seq!['B']);
        assert("K"@ =~= seq!['K']);
        assert("M"@ =~= seq!['M']);
        assert("G"@ =~= seq!['G']);
    }
    if is_dir || is_symlink {
        (String::new(), String::new())
    } else if size < KB {
        (u64_dec(size), "B".to_owned())
    } else if size < MB {
        (u64_dec(size / KB), "K".to_owned())
    } else if size < GB {
        (tenths_str(size, MB), "M".to_owned())
    } else {
        (tenths_str(size, GB), "G".to_owned())
    }
}

/// Three-digit octal permission text.
pub fn octal3(p: u32) -> (r: String)
    requires
        p < 512,
    ensures
        r@ == octal3_rep(p as nat),
{
    let r = digit_str((p / 64) as u64).to_owned().concat(digit_str(((p / 8) % 8) as u64)).concat(
        digit_str((p % 8) as u64),
    );
    proof {
        assert(r@ =~= octal3_rep(p as nat));
    }
    r
}

/// Truncate a name to the budget `maxlen`; 0 means unlimited.
pub fn truncate_name(s: &str, maxlen: usize) -> (r: String)
    ensures
        r@ == truncate_rep(s@, maxlen as nat),
        r@.len() == (if maxlen == 0 || s@.len() <= maxlen + 5 {
            s@.len()
        } else {
            2 * ((maxlen / 2) as nat) + 5
        }),
{
    if maxlen == 0 {
        return s.to_owned();
    }
    let n = s.unicode_len();
    if maxlen <= usize::MAX - 5 && n > maxlen + 5 {
        let half = maxlen / 2;
        let front = s.substring_char(0, half);
        let back = s.substring_char(n - half, n);
        let r = front.to_owned().concat("(...)").concat(back);
        proof {
            reveal_strlit("(...)");
            assert("(...)"@ =~= marker_rep());
            assert(r@ =~= truncate_rep(s@, maxlen as nat));
        }
        r
    } else {
        s.to_owned()
    }
}

/// The directory glyph for this configuration.
pub fn folder_icon(show_icons: bool, is_main: bool) -> (r: &'static str)
    ensures
        r@ == folder_icon_rep(show_icons, is_main),
{
    if !show_icons {
        proof {
            reveal_strlit("■");
            assert("■"@ =~= seq!['■']);
        }
        "■"
    } else if is_main {
        proof {
            reveal_strlit("📂");
            assert("📂"@ =~= seq!['📂']);
        }
        "📂"
    } else {
        proof {
            reveal_strlit("📁");
            assert("📁"@ =~= seq!['📁']);
        }
        "📁"
    }
}

/// Resolved identity text with the decimal fallback applied.
pub fn identity_text(looked_up: Option<String>, id: u32) -> (r: String)
    ensures
        r@ == identity_rep(looked_up, id),
{
    match looked_up {
        Option::Some(n) => n,
        Option::None => u64_dec(id as u64),
    }
}

/// Every display-ready field except the two identity columns is the stated
/// function of the raw record and the configuration.
pub open spec fn processed_rep_ok(
    raw: RawEntry,
    p: ProcessedEntry,
    show_icons: bool,
    maxlen: nat,
) -> bool {
    &&& p.permission_text@ == octal3_rep(raw.permission_bits as nat)
    &&& p.size_text@ == size_texts(raw.size_bytes as nat, raw.is_directory, raw.is_symlink).0
    &&& p.size_unit@ == size_texts(raw.size_bytes as nat, raw.is_directory, raw.is_symlink).1
    &&& p.display_name@ == display_name_rep(
        raw.name@,
        raw.is_directory,
        show_icons,
        raw.is_main_dir,
        maxlen,
    )
    &&& p.link_target_name@ == target_display_rep(raw, show_icons, maxlen)
    &&& p.original_name@ == raw.name@
    &&& p.effective_executable == effective_exec_rep(raw)
    &&& p.tier == tier_rep(raw)
    &&& p.sort_name@ == lower_of(raw.name@)
    &&& p.is_main_dir == raw.is_main_dir
    &&& p.modified_secs == raw.modified_secs
}

/// Normalize one raw record into its display-ready fields. Identity lookup
/// results are handed in; the decimal fallback is applied here.
pub fn process_entry(
    raw: RawEntry,
    show_icons: bool,
    max_name_length: usize,
    owner_name: Option<String>,
    group_name: Option<String>,
) -> (p: ProcessedEntry)
    requires
        raw.wf(),
    ensures
        processed_rep_ok(raw, p, show_icons, max_name_length as nat),
        p.owner_text@ == identity_rep(owner_name, raw.owner_id),
        p.group_text@ == identity_rep(group_name, raw.group_id),
{
    proof {
        reveal_strlit(" ");
        assert(" "@ =~= seq![' ']);
    }
    let permission_text = octal3(raw.permission_bits);
    let (size_text, size_unit) = size_and_unit(raw.size_bytes, raw.is_directory, raw.is_symlink);
    let owner_text = identity_text(owner_name, raw.owner_id);
    let group_text = identity_text(group_name, raw.group_id);
    let truncated = truncate_name(raw.name.as_str(), max_name_length);
    let icon = folder_icon(show_icons, raw.is_main_dir);
    let display_name = if raw.is_directory {
        let d = icon.to_owned().concat(" ").concat(truncated.as_str());
        proof {
            assert(d@ =~= display_name_rep(
                raw.name@,
                raw.is_directory,
                show_icons,
                raw.is_main_dir,
                max_name_length as nat,
            ));
        }
        d
    } else {
        truncated
    };
    let link_target_name = match &raw.link_target {
        Option::Some(t) => {
            let tn = truncate_name(t.as_str(), max_name_length);
            if tn.unicode_len() > 0 && raw.target_is_dir {
                let d = icon.to_owned().concat(" ").concat(tn.as_str());
                proof {
                    assert(d@ =~= target_display_rep(raw, show_icons, max_name_length as nat));
                }
                d
            } else {
                tn
            }
        },
        Option::None => String::new(),
    };
    let effective_executable = raw.is_executable && !raw.is_directory && (match &raw.link_target {
        Option::Some(_) => !raw.target_is_dir,
        Option::None => true,
    });
    let tier = if raw.is_main_dir {
        Tier::Primary
    } else if raw.is_directory || raw.target_is_dir {
        Tier::DirectoryLike
    } else {
        Tier::Other
    };
    let sort_name = to_lower(raw.name.as_str());
    ProcessedEntry {
        permission_text,
        size_text,
        size_unit,
        owner_text,
        group_text,
        display_name,
        link_target_name,
        original_name: raw.name,
        effective_executable,
        tier,
        sort_name,
        is_main_dir: raw.is_main_dir,
        modified_secs: raw.modified_secs,
    }
}

/// Normalize one raw record, resolving owner and group names through the
/// platform's identity database. Every field except the two identity
/// columns is pinned down; those hold whatever name the database gave, or
/// the decimal id where it gave none.
pub fn process_with_lookup(raw: RawEntry, show_icons: bool, max_name_length: usize) -> (p:
    ProcessedEntry)
    requires
        raw.wf(),
    ensures
        processed_rep_ok(raw, p, show_icons, max_name_length as nat),
{
    let owner_name = lookup_user_name(raw.owner_id);
    let group_name = lookup_group_name(raw.group_id);
    process_entry(raw, show_icons, max_name_length, owner_name, group_name)
}

/// Size units partition the byte range at the fixed thresholds: "B" below
/// one kilobyte, "K" below one megabyte, "M" below one gigabyte, "G" above;
/// and the kilobyte boundary itself shows magnitude 1.
pub proof fn lemma_size_unit_thresholds(size: u64)
    ensures
        (size_texts(size as nat, false, false).1 == seq!['B']) <==> size < 1024,
        (size_texts(size as nat, false, false).1 == seq!['K']) <==> (1024 <= size < 1048576),
        (size_texts(size as nat, false, false).1 == seq!['M']) <==> (1048576 <= size
            < 1073741824),
        (size_texts(size as nat, false, false).1 == seq!['G']) <==> size >= 1073741824,
        size == 1024 ==> size_texts(size as nat, false, false).0 == seq!['1'],
{
    assert(seq!['B'][0] == 'B');
    assert(seq!['K'][0] == 'K');
    assert(seq!['M'][0] == 'M');
    assert(seq!['G'][0] == 'G');
    if size == 1024 {
        assert(size_texts(size as nat, false, false).0 =~= seq!['1']);
    }
}

/// Directories and symlinks always show empty size and unit, whatever their
/// stored byte length.
pub proof fn lemma_dir_symlink_size_empty(size: u64, is_dir: bool, is_symlink: bool)
    requires
        is_dir || is_symlink,
    ensures
        size_texts(size as nat, is_dir, is_symlink).0.len() == 0,
        size_texts(size as nat, is_dir, is_symlink).1.len() == 0,
{
}

/// Executable suppression: a directory never counts as executable, nor does
/// a symlink that leads to a directory; a symlink to a non-directory with
/// the raw bit set does.
pub proof fn lemma_executable_suppression(r: RawEntry)
    requires
        r.wf(),
    ensures
        r.is_directory ==> !effective_exec_rep(r),
        r.target_is_dir ==> !effective_exec_rep(r),
        (r.is_executable && !r.is_directory && !r.target_is_dir) ==> effective_exec_rep(r),
{
}

} // verus!
