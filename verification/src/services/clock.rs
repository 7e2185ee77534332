//! The users' local time: a fixed offset of UTC+5. Instants are Unix timestamps in
//! seconds; calendar dates are counted in days since 1970-01-01.
use chrono::Datelike;
use vstd::prelude::*;

verus! {

/// The offset of local time from UTC, in seconds.
pub const LOCAL_OFFSET_SECS: i32 = 5 * 3600;

/// Seconds in a day.
pub const DAY_SECS: i64 = 86400;

/// `num_days_from_ce` of 1970-01-01 (day 1 is 0001-01-01).
pub const EPOCH_DAYS_FROM_CE: i64 = 719163;

/// The users' local offset from UTC, in seconds east.
pub fn local_offset() -> (s: i32)
    ensures
        s == LOCAL_OFFSET_SECS,
{
    LOCAL_OFFSET_SECS
}

/// chrono's first date, -262143-01-01, in days since 1970-01-01.
pub const FIRST_DAY: i32 = -96_465_292;

/// chrono's last date, 262142-12-31, in days since 1970-01-01.
pub const LAST_DAY: i32 = 95_026_236;

/// Whether a day count lies within the range of calendar dates handled here
/// (far wider than chrono's own `NaiveDate` range).
pub open spec fn date_in_range(days: int) -> bool {
    -100_000_000_000 <= days <= 100_000_000_000
}

/// The local calendar day (days since 1970-01-01) that the instant `ts` falls on.
pub open spec fn local_day_of(ts: int) -> int {
    (ts + LOCAL_OFFSET_SECS) / DAY_SECS as int
}

/// The instant of `hour:minute` local time on local day `days`.
pub open spec fn local_instant(days: int, hour: int, minute: int) -> int {
    days * DAY_SECS + hour * 3600 + minute * 60 - LOCAL_OFFSET_SECS
}

/// What `NaiveDate::parse_from_str(s, "%Y-%m-%d")` gives for `s`, as the date's
/// `num_days_from_ce`, or `None` where parsing fails.
pub uninterp spec fn spec_ymd_days_from_ce(s: Seq<char>) -> Option<int>;

/// `chrono::NaiveDate::parse_from_str` with the format "%Y-%m-%d", the date taken by
/// its `Datelike::num_days_from_ce`. The result is named by `spec_ymd_days_from_ce`;
/// chrono keeps its dates within years -262143..=262142, which the bound states.
#[verifier::external_body]
fn parse_ymd_days_from_ce(s: &str) -> (r: Option<i32>)
    ensures
        match r {
            Some(d) => spec_ymd_days_from_ce(s@) == Some(d as int) && -96_000_000 <= d
                <= 96_000_000,
            None => spec_ymd_days_from_ce(s@) is None,
        },
{
    match chrono::NaiveDate::parse_from_str(s, "%Y-%m-%d") {
        Ok(d) => Some(d.num_days_from_ce()),
        Err(_) => None,
    }
}

/// Reads a "YYYY-MM-DD" date as days since 1970-01-01.
pub fn parse_date(s: &str) -> (r: Option<i64>)
    ensures
        match spec_ymd_days_from_ce(s@) {
            Some(d) => r == Some((d - EPOCH_DAYS_FROM_CE) as i64) && date_in_range(
                d - EPOCH_DAYS_FROM_CE,
            ),
            None => r is None,
        },
        r matches Some(days) ==> -96_719_163 <= days <= 95_280_837,
{
    match parse_ymd_days_from_ce(s) {
        Some(d) => Some(d as i64 - EPOCH_DAYS_FROM_CE),
        None => None,
    }
}

/// The local calendar day of the instant `ts`.
fn local_day(ts: i64) -> (d: i64)
    ensures
        d == local_day_of(ts as int),
{
    if ts > i64::MAX - 18000 {
        // shifted by a day first, so that adding the offset cannot overflow
        ((ts - 86400) + 18000) / 86400 + 1
    } else if ts >= -18000 {
        (ts + 18000) / 86400
    } else {
        let x = ts as i128 + 18000;
        let q = (86399 - x) / 86400;
        assert(-q == x / 86400 && x / 86400 >= i64::MIN) by (nonlinear_arith)
            requires
                x < 0,
                x >= i64::MIN,
                q == (86399 - x) / 86400,
        ;
        (-q) as i64
    }
}

/// What chrono writes, with the format "%Y-%m-%d", for the date `days` after
/// 1970-01-01.
pub uninterp spec fn spec_day_text(days: int) -> Seq<char>;

/// `chrono::NaiveDate::from_epoch_days`, the date then written with
/// `format("%Y-%m-%d")`. The text is named by `spec_day_text`; the range required is
/// that of chrono's dates, where `from_epoch_days` always gives one.
#[verifier::external_body]
fn day_text(days: i32) -> (s: String)
    requires
        FIRST_DAY <= days <= LAST_DAY,
    ensures
        s@ == spec_day_text(days as int),
{
    match chrono::NaiveDate::from_epoch_days(days) {
        Some(d) => d.format("%Y-%m-%d").to_string(),
        None => String::new(),
    }
}

/// The local date of the instant `ts`, written "YYYY-MM-DD". The instants taken are
/// chrono's, but for its last five hours, whose local date lies past chrono's last
/// date.
pub fn fmt_date_local(ts: i64) -> (s: String)
    requires
        FIRST_DAY * DAY_SECS - LOCAL_OFFSET_SECS <= ts <= (LAST_DAY + 1) * DAY_SECS - LOCAL_OFFSET_SECS - 1,
    ensures
        s@ == spec_day_text(local_day_of(ts as int)),
{
    let d = local_day(ts);
    day_text(d as i32)
}

/// The local date (days since 1970-01-01) of the instant `now`.
pub fn today_local(now: i64) -> (d: i64)
    ensures
        d == local_day_of(now as int),
{
    local_day(now)
}

/// The instant of `hour:minute` local time on the local day `days`: for example
/// 09:00 local on 2026-06-15 is 04:00 UTC that day.
pub fn local_at(days: i64, hour: u32, minute: u32) -> (t: i64)
    requires
        date_in_range(days as int),
        hour < 24,
        minute < 60,
    ensures
        t == local_instant(days as int, hour as int, minute as int),
{
    days * DAY_SECS + (hour as i64) * 3600 + (minute as i64) * 60 - LOCAL_OFFSET_SECS as i64
}

} // verus!
