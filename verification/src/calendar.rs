//! Calendar days and UTC instants as plain integers, and the anchor day.
//!
//! A day is a Julian day number and an instant is a count of seconds since the
//! Unix epoch, both as the `time` crate reports them. Every function that
//! touches the `time` crate is a short wrapper whose contract is taken on
//! trust; everything else is proved from those contracts.

use vstd::prelude::*;

verus! {

/// Julian day number of the earliest date that `time::Date` can hold,
/// -9999-01-01, in a build of `time` without its `large-dates` feature.
pub const MIN_JULIAN_DAY: i32 = -1_930_999;

/// Julian day number of the latest date that `time::Date` can hold,
/// 9999-12-31, in a build of `time` without its `large-dates` feature.
pub const MAX_JULIAN_DAY: i32 = 5_373_484;

/// Julian day number of 1970-01-01.
pub const UNIX_EPOCH_JULIAN_DAY: i32 = 2_440_588;

/// Unix timestamp of midnight on the earliest date.
pub const MIN_TIMESTAMP: i64 = -377_705_116_800;

/// Unix timestamp of the last whole second of the latest date.
pub const MAX_TIMESTAMP: i64 = 253_402_300_799;

pub const SECONDS_PER_MINUTE: i64 = 60;

pub const SECONDS_PER_HOUR: i64 = 3_600;

pub const SECONDS_PER_DAY: i64 = 86_400;

/// Days between the current instant and the first day that may hold a shift.
pub const ANCHOR_OFFSET_DAYS: i64 = 2;

/// The only way a computation here can fail: a date or instant would fall
/// outside the range of the calendar.
#[derive(Clone, Copy, Debug, PartialEq, Eq, Structural)]
pub enum ScheduleError {
    DateOutOfRange,
}

pub open spec fn valid_julian_day(day: int) -> bool {
    MIN_JULIAN_DAY <= day <= MAX_JULIAN_DAY
}

pub open spec fn valid_timestamp(seconds: int) -> bool {
    MIN_TIMESTAMP <= seconds <= MAX_TIMESTAMP
}

/// The Julian day number of the UTC calendar day that contains an instant.
pub open spec fn day_of_timestamp(seconds: int) -> int {
    UNIX_EPOCH_JULIAN_DAY + seconds / (SECONDS_PER_DAY as int)
}

/// The Unix timestamp of a wall-clock time, in UTC, on a given day.
pub open spec fn timestamp_at(day: int, hour: int, minute: int, second: int) -> int {
    (day - UNIX_EPOCH_JULIAN_DAY) * SECONDS_PER_DAY + hour * SECONDS_PER_HOUR + minute
        * SECONDS_PER_MINUTE + second
}

/// The anchor day for a given current instant: the day of the instant two
/// days later.
pub open spec fn anchor_day(now: int) -> int {
    day_of_timestamp(now + ANCHOR_OFFSET_DAYS * SECONDS_PER_DAY)
}

/// Whether the anchor day exists for a given current instant.
pub open spec fn anchor_in_range(now: int) -> bool {
    valid_timestamp(now) && valid_timestamp(now + ANCHOR_OFFSET_DAYS * SECONDS_PER_DAY)
}

/// A calendar day.
#[derive(Clone, Copy, Debug, PartialEq, Eq, Structural)]
pub struct Date {
    pub julian_day: i32,
}

impl Date {
    /// A date is well formed when the calendar can represent it.
    pub open spec fn wf(self) -> bool {
        valid_julian_day(self.julian_day as int)
    }

    /// A date is modelled by its Julian day number.
    pub open spec fn view(self) -> int {
        self.julian_day as int
    }

    /// The date with the given Julian day number, if the calendar has one.
    pub fn from_julian_day(julian_day: i32) -> (res: Option<Date>)
        ensures
            valid_julian_day(julian_day as int) ==> res == Some((Date { julian_day })),
            !valid_julian_day(julian_day as int) ==> res.is_none(),
    {
        if MIN_JULIAN_DAY <= julian_day && julian_day <= MAX_JULIAN_DAY {
            Some(Date { julian_day })
        } else {
            None
        }
    }

    /// The Julian day number of this date.
    pub fn julian_day(&self) -> (res: i32)
        ensures
            res == self@,
    {
        self.julian_day
    }

    /// The date `days` days later, or `None` where the calendar ends before it.
    pub fn checked_add_days(self, days: i64) -> (res: Option<Date>)
        requires
            self.wf(),
        ensures
            valid_julian_day(self@ + days) ==> res.is_some() && res.unwrap().wf()
                && res.unwrap()@ == self@ + days,
            !valid_julian_day(self@ + days) ==> res.is_none(),
    {
        if days < -0x8000_0000i64 || days > 0x7fff_ffffi64 {
            return None;
        }
        match julian_day_checked_add(self.julian_day, days) {
            Some(julian_day) => Some(Date { julian_day }),
            None => None,
        }
    }

    /// The Unix timestamp of the given wall-clock time, in UTC, on this date.
    pub fn timestamp_at(self, hour: u8, minute: u8, second: u8) -> (res: i64)
        requires
            self.wf(),
            hour < 24,
            minute < 60,
            second < 60,
        ensures
            res == timestamp_at(self@, hour as int, minute as int, second as int),
            valid_timestamp(res as int),
            day_of_timestamp(res as int) == self@,
    {
        utc_timestamp_of(self.julian_day, hour, minute, second)
    }
}

/// Reads the system clock through `time::OffsetDateTime::now_utc` and hands
/// back its Unix timestamp. Trusted: only that the instant is one that
/// `OffsetDateTime` can hold; nothing is claimed about which instant it is.
/// `now_utc` builds its value by adding the clock's reading to the epoch and
/// panics where the sum leaves the calendar, so a clock set beyond the year
/// 9999 stops the program here.
#[verifier::external_body]
pub(crate) fn now_utc_timestamp() -> (seconds: i64)
    ensures
        valid_timestamp(seconds as int),
{
    time::OffsetDateTime::now_utc().unix_timestamp()
}

/// `time::OffsetDateTime::checked_add` with a duration of whole days, on a UTC
/// instant given and returned as a Unix timestamp. Trusted: the result is the
/// instant `days * 86400` seconds later where that instant is still within the
/// calendar, and `None` otherwise.
#[verifier::external_body]
fn timestamp_checked_add_days(seconds: i64, days: i64) -> (res: Option<i64>)
    requires
        valid_timestamp(seconds as int),
        i32::MIN <= days <= i32::MAX,
    ensures
        valid_timestamp(seconds + days * SECONDS_PER_DAY) ==> res == Some(
            (seconds + days * SECONDS_PER_DAY) as i64,
        ),
        !valid_timestamp(seconds + days * SECONDS_PER_DAY) ==> res.is_none(),
{
    let instant = time::OffsetDateTime::from_unix_timestamp(seconds).unwrap();
    match instant.checked_add(time::Duration::days(days)) {
        Some(later) => Some(later.unix_timestamp()),
        None => None,
    }
}

/// `time::OffsetDateTime::date` on a UTC instant given as a Unix timestamp,
/// returned as a Julian day number. Trusted: the date is the epoch's day plus
/// the timestamp divided by 86400, rounded down.
#[verifier::external_body]
fn timestamp_utc_date(seconds: i64) -> (julian_day: i32)
    requires
        valid_timestamp(seconds as int),
    ensures
        julian_day == day_of_timestamp(seconds as int),
{
    time::OffsetDateTime::from_unix_timestamp(seconds).unwrap().date().to_julian_day()
}

/// `time::Date::checked_add` with a duration of whole days, on a date given
/// and returned as a Julian day number. Trusted: the result is the date that
/// many days later where the calendar holds it, and `None` otherwise.
#[verifier::external_body]
fn julian_day_checked_add(julian_day: i32, days: i64) -> (res: Option<i32>)
    requires
        valid_julian_day(julian_day as int),
        i32::MIN <= days <= i32::MAX,
    ensures
        valid_julian_day(julian_day + days) ==> res == Some((julian_day + days) as i32),
        !valid_julian_day(julian_day + days) ==> res.is_none(),
{
    let date = time::Date::from_julian_day(julian_day).unwrap();
    match date.checked_add(time::Duration::days(days)) {
        Some(later) => Some(later.to_julian_day()),
        None => None,
    }
}

/// `time::OffsetDateTime::new_utc` on a date given as a Julian day number and
/// a time of day built by `time::Time::from_hms`, returned as a Unix
/// timestamp. Trusted: the timestamp counts 86400 seconds for each day since
/// the epoch's day, plus the seconds of the time of day.
#[verifier::external_body]
fn utc_timestamp_of(julian_day: i32, hour: u8, minute: u8, second: u8) -> (seconds: i64)
    requires
        valid_julian_day(julian_day as int),
        hour < 24,
        minute < 60,
        second < 60,
    ensures
        seconds == timestamp_at(julian_day as int, hour as int, minute as int, second as int),
{
    let date = time::Date::from_julian_day(julian_day).unwrap();
    let time_of_day = time::Time::from_hms(hour, minute, second).unwrap();
    time::OffsetDateTime::new_utc(date, time_of_day).unix_timestamp()
}

/// What `first_shift_day_at` returns for a given current instant.
pub open spec fn first_shift_day_of(now: int) -> Result<Date, ScheduleError> {
    if anchor_in_range(now) {
        Ok(Date { julian_day: anchor_day(now) as i32 })
    } else {
        Err(ScheduleError::DateOutOfRange)
    }
}

/// The first day that may hold a shift, for a given current instant: the UTC
/// calendar date of the instant two days after `now`, whatever the time of
/// day. Fails where `now` or that later instant lies outside the calendar.
pub fn first_shift_day_at(now: i64) -> (res: Result<Date, ScheduleError>)
    ensures
        res == first_shift_day_of(now as int),
        res matches Ok(day) ==> day.wf() && day@ == anchor_day(now as int),
{
    if now < MIN_TIMESTAMP || now > MAX_TIMESTAMP {
        return Err(ScheduleError::DateOutOfRange);
    }
    match timestamp_checked_add_days(now, ANCHOR_OFFSET_DAYS) {
        Some(now_plus_two) => Ok(Date { julian_day: timestamp_utc_date(now_plus_two) }),
        None => Err(ScheduleError::DateOutOfRange),
    }
}

/// The first day that may hold a shift, counted from the system clock. The
/// result is that of `first_shift_day_at` on some instant of the calendar.
pub fn first_shift_day() -> (res: Result<Date, ScheduleError>)
    ensures
        exists|now: int| valid_timestamp(now) && res == #[trigger] first_shift_day_of(now),
        res matches Ok(day) ==> day.wf(),
{
    let now: i64 = now_utc_timestamp();
    first_shift_day_at(now)
}

/// The anchor day is two days after the current day, and does not depend on
/// the time of day: two instants of the same UTC day have the same anchor.
pub proof fn lemma_anchor_ignores_time_of_day(now: int, other: int)
    requires
        day_of_timestamp(now) == day_of_timestamp(other),
    ensures
        anchor_day(now) == day_of_timestamp(now) + ANCHOR_OFFSET_DAYS,
        anchor_day(now) == anchor_day(other),
{
}

/// A wall-clock time on a day falls on that day, and is an instant of the
/// calendar where the day is a day of the calendar.
pub proof fn lemma_timestamp_at_is_on_day(day: int, hour: int, minute: int, second: int)
    requires
        0 <= hour < 24,
        0 <= minute < 60,
        0 <= second < 60,
    ensures
        day_of_timestamp(timestamp_at(day, hour, minute, second)) == day,
        valid_julian_day(day) ==> valid_timestamp(timestamp_at(day, hour, minute, second)),
{
}

} // verus!
