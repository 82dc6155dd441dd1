use chrono::Datelike;
use vstd::prelude::*;

verus! {

/// Largest distance from the epoch, in seconds, of a timestamp that is placed on the
/// calendar. Its dates lie well inside chrono's year range of -262143 to 262142.
pub const MAX_TIMESTAMP: i64 = 8_000_000_000_000;

/// Year of the UTC calendar date `secs` seconds after the epoch.
pub uninterp spec fn utc_year_of(secs: int) -> int;

/// Month, numbered from 1, of the UTC calendar date `secs` seconds after the epoch.
pub uninterp spec fn utc_month_of(secs: int) -> int;

/// Day of the week `secs` seconds after the epoch, numbered from Monday = 0. The
/// epoch fell on a Thursday.
pub open spec fn weekday_of(secs: int) -> int {
    (secs / 86400 + 3) % 7
}

/// Whether a timestamp lies in the range that is placed on the calendar.
pub open spec fn timestamp_in_range(secs: int) -> bool {
    -MAX_TIMESTAMP <= secs <= MAX_TIMESTAMP
}

/// A UTC calendar date, reduced to what the statistics bucket by.
#[derive(Debug, Clone, Copy, PartialEq, Eq)]
pub struct CalendarDate {
    pub year: i32,
    /// 1 for January to 12 for December.
    pub month: u32,
    /// 0 for Monday to 6 for Sunday.
    pub weekday: u32,
}

/// The calendar date of an instant, as `CalendarDate` states it.
pub open spec fn date_at(secs: int) -> CalendarDate {
    CalendarDate {
        year: utc_year_of(secs) as i32,
        month: utc_month_of(secs) as u32,
        weekday: weekday_of(secs) as u32,
    }
}

/// Relies on chrono's `DateTime::from_timestamp`, which returns a date whenever the
/// day lies within `NaiveDate`'s years -262143 to 262142 (so `unwrap` cannot fail
/// within `MAX_TIMESTAMP`), and on `Datelike::year`, `Datelike::month` (1 to 12) and
/// `Weekday::num_days_from_monday` of that date.
#[verifier::external_body]
fn utc_calendar_date(secs: i64) -> (r: CalendarDate)
    requires
        timestamp_in_range(secs as int),
    ensures
        r.year == utc_year_of(secs as int),
        r.month == utc_month_of(secs as int),
        1 <= r.month <= 12,
        r.weekday == weekday_of(secs as int),
{
    let dt = chrono::DateTime::from_timestamp(secs, 0).unwrap();
    CalendarDate { year: dt.year(), month: dt.month(), weekday: dt.weekday().num_days_from_monday() }
}

/// The instant of an author time read as UTC: the seconds plus the author's offset.
pub open spec fn local_seconds(seconds: int, offset_minutes: int) -> int {
    seconds + 60 * offset_minutes
}

/// The calendar date of a commit's author time: the seconds shifted by the author's
/// UTC offset, then read as a UTC date.
pub fn convert_git_time_to_datetime(seconds: i64, offset_minutes: i32) -> (r: CalendarDate)
    requires
        timestamp_in_range(local_seconds(seconds as int, offset_minutes as int)),
    ensures
        r == date_at(local_seconds(seconds as int, offset_minutes as int)),
        1 <= r.month <= 12,
        r.weekday < 7,
{
    let secs = seconds + 60 * (offset_minutes as i64);
    utc_calendar_date(secs)
}

} // verus!
