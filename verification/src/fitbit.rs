//! The decisions around a live fetch: whether the user's quota allows one,
//! how far apart queries have to be, which days have to be fetched given
//! what the cache holds, and how a fetch is cut into calls that the upstream
//! accepts.

use crate::dates::{Date, Moment, Range};
use crate::errors::{outcome, ErrorKind, FitbitError};
use crate::models::{DatabaseUser, Period, Response};
use crate::steps::{days_in, merge, within};
use std::collections::HashMap;
use vstd::prelude::*;

verus! {

/// The number of queries that a user may make within one rate-limit window.
pub const QUERY_QUOTA: usize = 145;

/// The longest pause between two queries that is ever asked for, in seconds.
pub const MAX_SPACING: u16 = 65535;

/// The largest number of days from the first to the last day of one call.
pub const MAX_CHUNK_DAYS: i64 = 364;

/// Whether a user who has made `queries` queries in the current window may
/// make another.
pub open spec fn has_budget(queries: int) -> bool {
    queries <= QUERY_QUOTA
}

/// Whether the quota of the current window is used up: `true` when the user
/// has made more queries than the quota allows.
pub fn check_ratelimit(queries: usize) -> (exceeded: bool)
    ensures
        exceeded == !has_budget(queries as int),
{
    queries > QUERY_QUOTA
}

/// The seconds from `now` to the reset of the window; zero where the reset
/// is not known.
pub open spec fn seconds_until_reset(reset_at: Option<i64>, now: int) -> int {
    match reset_at {
        Some(reset) => reset - now,
        None => 0,
    }
}

/// The pause between queries that spreads `remaining` queries over `until`
/// seconds: the quotient rounded up, no less than zero and no more than
/// `MAX_SPACING`.
pub open spec fn spacing(until: int, remaining: int) -> int
    recommends
        remaining > 0,
{
    if until <= 0 {
        0
    } else if (until + remaining - 1) / remaining > MAX_SPACING {
        MAX_SPACING as int
    } else {
        (until + remaining - 1) / remaining
    }
}

/// The least number of seconds between two queries of a user: the time left
/// in the window spread over the queries left in the quota. With no query
/// left there is no such number.
pub open spec fn min_spacing_spec(queries: int, reset_at: Option<i64>, now: int) -> Option<int> {
    if QUERY_QUOTA - queries <= 0 {
        None
    } else {
        Some(spacing(seconds_until_reset(reset_at, now), QUERY_QUOTA - queries))
    }
}

/// The least number of seconds between two queries of a user, or
/// `RateLimitExceeded` when the quota leaves no query.
pub fn min_spacing(queries: usize, reset_at: Option<i64>, now: i64) -> (result: Result<
    u16,
    FitbitError,
>)
    ensures
        match min_spacing_spec(queries as int, reset_at, now as int) {
            Some(seconds) => result == Ok::<u16, FitbitError>(seconds as u16) && 0 <= seconds
                <= MAX_SPACING,
            None => outcome(result) == Err::<u16, _>(
                (ErrorKind::RateLimitExceeded, "Rate limit exceeded."@),
            ),
        },
        result is Err <==> queries >= QUERY_QUOTA,
{
    if queries >= QUERY_QUOTA {
        return Err(FitbitError::RateLimitExceeded("Rate limit exceeded.".to_owned()));
    }
    let remaining: i128 = (QUERY_QUOTA - queries) as i128;
    let until: i128 = match reset_at {
        Some(reset) => reset as i128 - now as i128,
        None => 0,
    };
    if until <= 0 {
        return Ok(0);
    }
    let quotient: i128 = (until + remaining - 1) / remaining;
    if quotient > 65535 {
        Ok(65535)
    } else {
        Ok(quotient as u16)
    }
}

/// The seconds since the last query; zero where the clock is behind it.
pub open spec fn seconds_since(last_query: i64, now: int) -> int {
    if now - last_query < 0 {
        0
    } else {
        now - last_query
    }
}

/// The days that have to be fetched live for a requested range, given the
/// last day that the cache serves.
///
/// Everything is fetched for a user who has never queried, and when the
/// cache serves nothing. Otherwise the quota must leave a query. While the
/// last query is more recent than the spacing allows nothing is fetched. Once
/// it is not: where the range ends today and the cache serves yesterday or
/// today, the last two days are fetched again; where the cache serves the
/// whole range, nothing is; and else the days from the last day served to the
/// end of the range are.
pub open spec fn live_range(
    range: Range,
    cache_end: Option<Date>,
    queries: int,
    last_query: Option<i64>,
    reset_at: Option<i64>,
    now: Moment,
) -> Result<Option<Range>, (ErrorKind, Seq<char>)> {
    if last_query is None || cache_end is None {
        Ok(Some(range))
    } else {
        match min_spacing_spec(queries, reset_at, now.timestamp as int) {
            None => Err((ErrorKind::RateLimitExceeded, "Rate limit exceeded."@)),
            Some(seconds) => if seconds_since(last_query->0, now.timestamp as int) < seconds {
                Ok(None)
            } else if range.end == now.date && cache_end->0 - range.end > -2 {
                Ok(Some(Range { start: (now.date - 1) as i32, end: now.date }))
            } else if range.end == cache_end->0 {
                Ok(None)
            } else {
                Ok(Some(Range { start: cache_end->0, end: range.end }))
            },
        }
    }
}

/// Decides which days have to be fetched live.
pub fn get_live_range(
    range_start: Date,
    range_end: Date,
    cache_end: Option<Date>,
    queries: usize,
    last_query: Option<i64>,
    reset_at: Option<i64>,
    now: Moment,
) -> (result: Result<Option<Range>, FitbitError>)
    requires
        now.date > i32::MIN,
    ensures
        outcome(result) == live_range(
            Range { start: range_start, end: range_end },
            cache_end,
            queries as int,
            last_query,
            reset_at,
            now,
        ),
{
    let whole = Range { start: range_start, end: range_end };
    let last = match last_query {
        Some(last) => last,
        None => {
            return Ok(Some(whole));
        },
    };
    let cached_to = match cache_end {
        Some(day) => day,
        None => {
            return Ok(Some(whole));
        },
    };
    let seconds = match min_spacing(queries, reset_at, now.timestamp) {
        Ok(seconds) => seconds,
        Err(error) => {
            return Err(error);
        },
    };
    let elapsed: i128 = now.timestamp as i128 - last as i128;
    let since: i128 = if elapsed < 0 {
        0
    } else {
        elapsed
    };
    if since < seconds as i128 {
        Ok(None)
    } else if range_end == now.date && cached_to as i64 - range_end as i64 > -2 {
        Ok(Some(Range { start: now.date - 1, end: now.date }))
    } else if range_end == cached_to {
        Ok(None)
    } else {
        Ok(Some(Range { start: cached_to, end: range_end }))
    }
}

/// Once a user has used the quota of the window, a request for which the
/// cache serves something is refused with `RateLimitExceeded`, whatever the
/// range and the time.
pub proof fn lemma_hard_cap(
    range: Range,
    cache_end: Date,
    queries: int,
    last_query: i64,
    reset_at: Option<i64>,
    now: Moment,
)
    requires
        queries >= QUERY_QUOTA,
    ensures
        live_range(range, Some(cache_end), queries, Some(last_query), reset_at, now) == Err::<
            Option<Range>,
            _,
        >((ErrorKind::RateLimitExceeded, "Rate limit exceeded."@)),
        min_spacing_spec(queries, reset_at, now.timestamp as int) is None,
{
}

/// The smallest period that covers a fetch of `days` days from its first to
/// its last day; none covers more than `MAX_CHUNK_DAYS`, or less than zero.
pub open spec fn period_for(days: int) -> Option<Period> {
    if days < 0 {
        None
    } else if days == 0 {
        Some(Period::OneDay)
    } else if days <= 6 {
        Some(Period::OneWeek)
    } else if days <= 27 {
        Some(Period::OneMonth)
    } else if days <= 89 {
        Some(Period::ThreeMonths)
    } else if days <= 179 {
        Some(Period::SixMonths)
    } else if days <= 364 {
        Some(Period::OneYear)
    } else {
        None
    }
}

/// The smallest period that covers a fetch of `days` days.
pub fn classify(days: i64) -> (period: Option<Period>)
    ensures
        period == period_for(days as int),
{
    if days < 0 {
        None
    } else if days == 0 {
        Some(Period::OneDay)
    } else if days <= 6 {
        Some(Period::OneWeek)
    } else if days <= 27 {
        Some(Period::OneMonth)
    } else if days <= 89 {
        Some(Period::ThreeMonths)
    } else if days <= 179 {
        Some(Period::SixMonths)
    } else if days <= 364 {
        Some(Period::OneYear)
    } else {
        None
    }
}

/// What a call for the days of `range` is to be made with, decided before
/// the upstream is reached: the period to ask for, or the reason why no call
/// is made. The quota is looked at first, then the order of the two days,
/// then whether the range ends after today, then its length.
pub open spec fn fetch_plan(queries: int, range: Range, today: Date) -> Result<
    Period,
    (ErrorKind, Seq<char>),
> {
    if !has_budget(queries) {
        Err((ErrorKind::RateLimitExceeded, "Rate limit exceeded"@))
    } else if range.start > range.end {
        Err((ErrorKind::DateOutOfRange, "Start date must be before end date."@))
    } else if range.end > today {
        Err((ErrorKind::DateOutOfRange, "Dates must be UTC and in the past."@))
    } else {
        match period_for(range.span()) {
            Some(period) => Ok(period),
            None => Err((ErrorKind::DateOutOfRange, "Date range must be less than one year."@)),
        }
    }
}

/// Decides, before the upstream is reached, with which period the days of
/// the range are asked for.
pub fn plan_fetch(queries: usize, range: Range, today: Date) -> (result: Result<
    Period,
    FitbitError,
>)
    ensures
        outcome(result) == fetch_plan(queries as int, range, today),
{
    if check_ratelimit(queries) {
        return Err(FitbitError::RateLimitExceeded("Rate limit exceeded".to_owned()));
    }
    if range.start > range.end {
        return Err(
            FitbitError::DateOutOfRange("Start date must be before end date.".to_owned()),
        );
    }
    if range.end > today {
        return Err(FitbitError::DateOutOfRange("Dates must be UTC and in the past.".to_owned()));
    }
    match classify(range.num_days()) {
        Some(period) => Ok(period),
        None => Err(
            FitbitError::DateOutOfRange("Date range must be less than one year.".to_owned()),
        ),
    }
}

/// The number of calls into which a fetch of `days` days is cut.
pub open spec fn chunk_count(days: int) -> int {
    if days <= MAX_CHUNK_DAYS {
        1
    } else {
        (days + MAX_CHUNK_DAYS - 1) / (MAX_CHUNK_DAYS as int)
    }
}

/// The days of call `i` of a fetch: windows of `MAX_CHUNK_DAYS` days one
/// after the other, each starting on the last day of the one before, and the
/// last one ending with the range.
pub open spec fn chunk_at(range: Range, i: int) -> Range {
    let first = range.start + i * MAX_CHUNK_DAYS;
    let last = if first + MAX_CHUNK_DAYS < range.end {
        first + MAX_CHUNK_DAYS
    } else {
        range.end as int
    };
    Range { start: first as i32, end: last as i32 }
}

/// The calls into which the fetch of a range is cut, or `DateOutOfRange` for
/// a range that is back to front or ends after today.
pub open spec fn chunks(range: Range, today: Date) -> Result<Seq<Range>, (ErrorKind, Seq<char>)> {
    if range.start > range.end {
        Err((ErrorKind::DateOutOfRange, "Start date must be before end date."@))
    } else if range.end > today {
        Err((ErrorKind::DateOutOfRange, "Dates must be UTC and in the past."@))
    } else {
        Ok(Seq::new(chunk_count(range.span()) as nat, |i: int| chunk_at(range, i)))
    }
}

/// Cuts the fetch of a range into calls that the upstream accepts.
pub fn chunk(range: Range, today: Date) -> (result: Result<Vec<Range>, FitbitError>)
    ensures
        match chunks(range, today) {
            Ok(list) => result matches Ok(cut) && cut@ == list,
            Err(failure) => result matches Err(error) && (error.kind(), error.detail())
                == failure,
        },
{
    if range.start > range.end {
        return Err(
            FitbitError::DateOutOfRange("Start date must be before end date.".to_owned()),
        );
    }
    if range.end > today {
        return Err(FitbitError::DateOutOfRange("Dates must be UTC and in the past.".to_owned()));
    }
    let days: i64 = range.num_days();
    let count: i64 = if days <= MAX_CHUNK_DAYS {
        1
    } else {
        (days + MAX_CHUNK_DAYS - 1) / MAX_CHUNK_DAYS
    };
    let mut cut: Vec<Range> = Vec::new();
    let mut i: i64 = 0;
    while i < count
        invariant
            0 <= i <= count,
            range.start <= range.end,
            days == range.span(),
            count == chunk_count(days as int),
            cut@.len() == i,
            forall|k: int| 0 <= k < i ==> #[trigger] cut@[k] == chunk_at(range, k),
        decreases count - i,
    {
        proof {
            lemma_chunk_offset(days as int, i as int);
        }
        let first: i64 = range.start as i64 + i * MAX_CHUNK_DAYS;
        let last: i64 = if first + MAX_CHUNK_DAYS < range.end as i64 {
            first + MAX_CHUNK_DAYS
        } else {
            range.end as i64
        };
        cut.push(Range { start: first as i32, end: last as i32 });
        i += 1;
    }
    assert(cut@ =~= Seq::new(chunk_count(range.span()) as nat, |i: int| chunk_at(range, i)));
    Ok(cut)
}

/// The calls of a fetch cover the range without a gap: there is one call
/// exactly if the range has at most `MAX_CHUNK_DAYS` days from first to last,
/// the first call starts with the range, the last one ends with it, each
/// call starts on the day on which the one before ends, and a period covers
/// each.
pub proof fn lemma_chunks_cover(range: Range)
    requires
        range.start <= range.end,
    ensures
        chunk_count(range.span()) >= 1,
        chunk_count(range.span()) == 1 <==> range.span() <= MAX_CHUNK_DAYS,
        chunk_at(range, 0).start == range.start,
        chunk_at(range, chunk_count(range.span()) - 1).end == range.end,
        forall|i: int|
            0 <= i < chunk_count(range.span()) - 1 ==> (#[trigger] chunk_at(range, i)).end
                == chunk_at(range, i + 1).start,
        forall|i: int|
            0 <= i < chunk_count(range.span()) ==> period_for(
                (#[trigger] chunk_at(range, i)).span(),
            ) is Some,
{
    let days = range.span();
    let count = chunk_count(days);
    lemma_chunk_offset(days, 0);
    lemma_chunk_offset(days, count - 1);
    assert forall|i: int| 0 <= i < count - 1 implies (#[trigger] chunk_at(range, i)).end
        == chunk_at(range, i + 1).start by {
        lemma_chunk_offset(days, i);
    }
    assert forall|i: int| 0 <= i < count implies period_for(
        (#[trigger] chunk_at(range, i)).span(),
    ) is Some by {
        lemma_chunk_offset(days, i);
    }
}

/// Where call `i` of a fetch of `days` days starts, counted from the start
/// of the fetch: within the fetch, and more than `MAX_CHUNK_DAYS` days before
/// its end unless the call is the last.
proof fn lemma_chunk_offset(days: int, i: int)
    requires
        days >= 0,
        0 <= i < chunk_count(days),
    ensures
        0 <= i * 364 <= days,
        i < chunk_count(days) - 1 ==> (i + 1) * 364 < days,
        i == chunk_count(days) - 1 ==> (i + 1) * 364 >= days,
{
}

/// A live fetch in progress: the calls into which it is cut, how many of
/// them have been answered, and the step counts gathered so far, cached ones
/// included.
pub struct LiveFetch {
    pub chunks: Vec<Range>,
    pub done: usize,
    pub steps: HashMap<Date, u32>,
}

impl LiveFetch {
    /// Whether the count of answered calls is within the list of calls.
    pub open spec fn wf(&self) -> bool {
        self.done <= self.chunks@.len()
    }

    /// Whether every call has been answered.
    pub open spec fn complete(&self) -> bool {
        self.done == self.chunks@.len()
    }

    /// Sets out on serving a request for which the cache served `cached`
    /// and `live` has to be fetched. With nothing to fetch there is no call
    /// to make. A range that is back to front or ends after today is refused
    /// before any call.
    pub fn start(cached: HashMap<Date, u32>, live: Option<Range>, today: Date) -> (result: Result<
        LiveFetch,
        FitbitError,
    >)
        ensures
            match live {
                None => result matches Ok(fetch) && fetch.chunks@.len() == 0 && fetch.done == 0
                    && fetch.steps@ == cached@,
                Some(range) => match chunks(range, today) {
                    Ok(list) => result matches Ok(fetch) && fetch.chunks@ == list && fetch.done
                        == 0 && fetch.steps@ == cached@,
                    Err(failure) => result matches Err(error) && (error.kind(), error.detail())
                        == failure,
                },
            },
    {
        match live {
            None => Ok(LiveFetch { chunks: Vec::new(), done: 0, steps: cached }),
            Some(range) => match chunk(range, today) {
                Ok(cut) => Ok(LiveFetch { chunks: cut, done: 0, steps: cached }),
                Err(error) => Err(error),
            },
        }
    }

    /// The next call to make, for a user who has made `queries` queries in
    /// the current window: the days and the period to ask for, `None` when
    /// every call has been answered, or the reason why the call is not made.
    pub fn next(&self, queries: usize, today: Date) -> (result: Result<
        Option<(Range, Period)>,
        FitbitError,
    >)
        requires
            self.wf(),
        ensures
            self.complete() ==> result matches Ok(None),
            !self.complete() ==> match fetch_plan(
                queries as int,
                self.chunks@[self.done as int],
                today,
            ) {
                Ok(period) => result matches Ok(Some(call)) && call == (
                    self.chunks@[self.done as int],
                    period,
                ),
                Err(failure) => result matches Err(error) && (error.kind(), error.detail())
                    == failure,
            },
    {
        if self.done >= self.chunks.len() {
            return Ok(None);
        }
        let range = self.chunks[self.done];
        match plan_fetch(queries, range, today) {
            Ok(period) => Ok(Some((range, period))),
            Err(error) => Err(error),
        }
    }

    /// Takes in what the upstream answered to the next call. Of the days
    /// answered, those of the call are kept: they override what was gathered
    /// so far, and they are handed back to be cached.
    pub fn absorb(&mut self, fetched: &HashMap<Date, u32>) -> (kept: HashMap<Date, u32>)
        requires
            old(self).wf(),
            !old(self).complete(),
        ensures
            final(self).wf(),
            final(self).chunks@ == old(self).chunks@,
            final(self).done == old(self).done + 1,
            kept@ == fetched@.restrict(days_in(old(self).chunks@[old(self).done as int])),
            final(self).steps@ == old(self).steps@.union_prefer_right(kept@),
    {
        let at: usize = self.done;
        let len: usize = self.chunks.len();
        assert(at < len);
        let kept = within(fetched, self.chunks[at]);
        let mut gathered: HashMap<Date, u32> = HashMap::new();
        std::mem::swap(&mut gathered, &mut self.steps);
        self.steps = merge(gathered, &kept);
        self.done = at + 1;
        kept
    }

    /// The step counts gathered.
    pub fn finish(self) -> (steps: HashMap<Date, u32>)
        ensures
            steps@ == self.steps@,
    {
        self.steps
    }
}

/// The user that a lookup found, or `UserNotFound`.
pub fn found_user(user: Option<DatabaseUser>) -> (result: Result<DatabaseUser, FitbitError>)
    ensures
        match user {
            Some(found) => result == Ok::<DatabaseUser, FitbitError>(found),
            None => result matches Err(FitbitError::UserNotFound),
        },
{
    match user {
        Some(found) => Ok(found),
        None => Err(FitbitError::UserNotFound),
    }
}

/// The response to a request for step counts.
pub fn steps_response(result: Result<HashMap<Date, u32>, FitbitError>) -> (response: Response)
    ensures
        match result {
            Ok(steps) => response == Response::Steps(steps),
            Err(error) => response == Response::Error(error),
        },
{
    match result {
        Ok(steps) => Response::Steps(steps),
        Err(error) => Response::Error(error),
    }
}

/// The response to a request for a token refresh.
pub fn refresh_response(result: Result<(String, String), FitbitError>) -> (response: Response)
    ensures
        match result {
            Ok(_) => response == Response::Refreshed,
            Err(error) => response == Response::Error(error),
        },
{
    match result {
        Ok(_) => Response::Refreshed,
        Err(error) => Response::Error(error),
    }
}

} // verus!
