//! Trusted boundary to platform facilities: identity lookup through the
//! `users` crate, clock and local calendar through `chrono`, and Unicode
//! case folding through the standard library.
use vstd::prelude::*;

verus! {

/// The character sequence that Unicode lowercasing yields for `s`.
/// It is a function of the characters alone; nothing further is assumed
/// about it.
pub uninterp spec fn lower_of(s: Seq<char>) -> Seq<char>;

/// Relies on `str::to_lowercase`: the result depends on the characters of
/// `s` alone, so equal inputs fold to equal outputs.
#[verifier::external_body]
pub fn to_lower(s: &str) -> (r: String)
    ensures
        r@ == lower_of(s@),
{
    s.to_lowercase()
}

/// Relies on `users::get_user_by_uid`: the user name recorded for this id,
/// if any. The answer depends on the machine's user database, so nothing is
/// promised about it.
#[verifier::external_body]
pub fn lookup_user_name(uid: u32) -> Option<String> {
    users::get_user_by_uid(uid).map(|u| u.name().to_string_lossy().to_string())
}

/// Relies on `users::get_group_by_gid`: the group name recorded for this id,
/// if any. The answer depends on the machine's group database, so nothing is
/// promised about it.
#[verifier::external_body]
pub fn lookup_group_name(gid: u32) -> Option<String> {
    users::get_group_by_gid(gid).map(|g| g.name().to_string_lossy().to_string())
}

/// Relies on `chrono::Local::now`: whatever instant the clock reports, as
/// seconds since the Unix epoch. Nothing is promised about it.
#[verifier::external_body]
pub fn now_secs() -> i64 {
    chrono::Local::now().timestamp()
}

/// Largest timestamp handed to the local-calendar conversion; close to the
/// end of year 9999 with two days of slack for time-zone offsets.
pub const MAX_DATE_SECS: i64 = 253402128000;

/// Calendar fields of one instant, in the machine's local time zone.
#[derive(Clone, Copy)]
pub struct DateParts {
    pub year: u32,
    pub month: u8,
    pub day: u8,
    pub hour: u8,
    pub minute: u8,
}

impl DateParts {
    pub open spec fn wf(self) -> bool {
        &&& 1969 <= self.year <= 9999
        &&& 1 <= self.month <= 12
        &&& 1 <= self.day <= 31
        &&& self.hour < 24
        &&& self.minute < 60
    }
}

/// Relies on `chrono`: `DateTime::from_timestamp` is `Some` for every
/// seconds value in the admitted range; the `Datelike`/`Timelike` accessors
/// keep their documented field ranges; and a local offset (`FixedOffset`) is
/// under one day, so the local year stays within `[1969, 9999]` here. Which
/// fields come back depends on the machine's time zone.
#[verifier::external_body]
pub fn local_date_parts(secs: i64) -> (r: DateParts)
    requires
        0 <= secs <= MAX_DATE_SECS,
    ensures
        r.wf(),
{
    match chrono::DateTime::from_timestamp(secs, 0).map(|d| d.with_timezone(&chrono::Local)) {
        Some(d) => DateParts {
            year: d.year() as u32,
            month: d.month() as u8,
            day: d.day() as u8,
            hour: d.hour() as u8,
            minute: d.minute() as u8,
        },
        None => DateParts { year: 1970, month: 1, day: 1, hour: 0, minute: 0 },
    }
}

} // verus!

use chrono::Datelike;
use chrono::Timelike;
