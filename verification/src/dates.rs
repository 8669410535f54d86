//! Calendar days and instants. A day is counted from 1970-01-01 (day 0), an
//! instant in whole seconds from the midnight that starts that day, both in
//! UTC.

use vstd::prelude::*;

verus! {

/// A calendar day: the number of days from 1970-01-01 to it.
pub type Date = i32;

/// The number of seconds in a day.
pub const SECONDS_PER_DAY: i64 = 86400;

/// The first instant that has a calendar day: midnight of January 1 of the
/// year -262143.
pub const MIN_TIMESTAMP: i64 = -8334601228800;

/// The last instant that has a calendar day: the last second of December 31
/// of the year 262142.
pub const MAX_TIMESTAMP: i64 = 8210266876799;

/// An inclusive range of days.
#[derive(Clone, Copy, Debug, PartialEq, Eq, Structural)]
pub struct Range {
    pub start: Date,
    pub end: Date,
}

impl Range {
    /// The number of days from the first day of the range to its last; zero
    /// for a single day, negative when the range is back to front.
    pub open spec fn span(self) -> int {
        self.end - self.start
    }

    /// Whether the day lies in the range.
    pub open spec fn contains(self, day: int) -> bool {
        self.start <= day <= self.end
    }

    /// The number of days from the first day of the range to its last.
    pub fn num_days(&self) -> (days: i64)
        ensures
            days == self.span(),
    {
        self.end as i64 - self.start as i64
    }
}

/// The present: an instant and the day on which it falls.
#[derive(Clone, Copy, Debug, PartialEq, Eq, Structural)]
pub struct Moment {
    pub timestamp: i64,
    pub date: Date,
}

/// The day on which an instant falls, for the instants that have one.
pub open spec fn timestamp_date(secs: int) -> Option<Date> {
    if MIN_TIMESTAMP <= secs <= MAX_TIMESTAMP {
        Some((secs / 86400) as i32)
    } else {
        None
    }
}

/// The instant at which a day starts.
pub open spec fn date_timestamp(date: Date) -> int {
    date * 86400
}

/// `chrono::DateTime::from_timestamp` with no nanoseconds, followed by
/// `date_naive` and `NaiveDate::to_epoch_days`. chrono places an instant on
/// the day `secs.div_euclid(86_400)` and accepts it when that day lies in one
/// of the years `MIN_YEAR..=MAX_YEAR`, which are -262143 and 262142; the two
/// constants above are the first and the last second of that span.
#[verifier::external_body]
fn epoch_day_of(secs: i64) -> (day: Option<i32>)
    ensures
        day is Some <==> MIN_TIMESTAMP <= secs <= MAX_TIMESTAMP,
        day matches Some(d) ==> d == secs as int / 86400,
{
    match chrono::DateTime::from_timestamp(secs, 0) {
        Some(instant) => Some(instant.date_naive().to_epoch_days()),
        None => None,
    }
}

/// The day on which an instant falls, or `None` for an instant that is too
/// far from the present to have one.
pub fn date_from_timestamp(secs: i64) -> (date: Option<Date>)
    ensures
        date == timestamp_date(secs as int),
{
    epoch_day_of(secs)
}

/// The instant at which a day starts.
pub fn timestamp_from_date(date: Date) -> (secs: i64)
    ensures
        secs == date_timestamp(date),
{
    date as i64 * SECONDS_PER_DAY
}

impl Moment {
    /// Whether the instant and the day belong together: the instant is one
    /// that has a calendar day, and the day is the one on which it falls.
    /// What `at` and `now` give is always so; a moment put together by
    /// hand need not be.
    pub open spec fn on_calendar(self) -> bool {
        timestamp_date(self.timestamp as int) == Some(self.date)
    }

    /// The instant `secs` with its day, or `None` where it has none.
    pub fn at(secs: i64) -> (moment: Option<Moment>)
        ensures
            moment == match timestamp_date(secs as int) {
                Some(date) => Some(Moment { timestamp: secs, date }),
                None => None,
            },
    {
        match date_from_timestamp(secs) {
            Some(date) => Some(Moment { timestamp: secs, date }),
            None => None,
        }
    }

    /// The present, as the system clock has it.
    pub fn now() -> (moment: Moment)
        ensures
            moment.on_calendar(),
    {
        read_clock()
    }
}

/// `chrono::Utc::now`, read with `timestamp` as whole seconds and with
/// `date_naive` and `NaiveDate::to_epoch_days` as a day. Which instant comes
/// back the clock decides. chrono makes it with `DateTime::from_timestamp`
/// from the seconds since 1970 and unwraps the result, so the instant has a
/// calendar day, and the day read from it is the one on which it falls. It
/// panics on a machine whose clock stands before 1970.
#[verifier::external_body]
fn read_clock() -> (now: Moment)
    ensures
        now.on_calendar(),
{
    let now = chrono::Utc::now();
    Moment { timestamp: now.timestamp(), date: now.date_naive().to_epoch_days() }
}

} // verus!
