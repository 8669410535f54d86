//! The step cache and the bookkeeping of queries: how a day's count is
//! written as a cache entry and read back, which entries have expired, what
//! a read serves, and what a live query leaves behind for the rate limit.

use crate::dates::{
    date_from_timestamp, date_timestamp, timestamp_date, Date, Range, MAX_TIMESTAMP, MIN_TIMESTAMP,
};
use crate::errors::{outcome, ErrorKind, FitbitError};
use crate::steps::{
    days_of, entries, lemma_days_of_listing, lemma_days_step, lemma_ordered_lists,
    lemma_prefix_only, lists, longest_range, longest_run, ordered, ordered_entries, within,
};
use crate::text::{
    field_views, free_of, from_chars, integer_text, lemma_integer_text_chars,
    lemma_integer_text_reads_back, lemma_split_field, lemma_split_plain, parse_i64,
    parse_i64_spec, parse_u32, parse_u32_spec, push_integer, split, split_fields, to_chars,
};
use std::collections::HashMap;
use vstd::prelude::*;

verus! {

/// The number of seconds for which a cached count stays fresh: two days.
pub const STEP_TTL_SECONDS: i64 = 172800;

/// One day's step count in the cache, with the instant at which it expires.
/// It was written `STEP_TTL_SECONDS` before that instant.
#[derive(Clone, Copy, Debug, PartialEq, Eq, Structural)]
pub struct StepCacheEntry {
    pub date: Date,
    pub steps: u32,
    pub expires_at: i64,
}

impl StepCacheEntry {
    /// Whether the entry has expired at the instant `now`.
    pub open spec fn expired_at(self, now: int) -> bool {
        self.expires_at < now
    }

    /// The entry for a count that is written at the instant `now`.
    pub fn fresh(date: Date, steps: u32, now: i64) -> (entry: StepCacheEntry)
        requires
            now + STEP_TTL_SECONDS <= i64::MAX,
        ensures
            entry.date == date,
            entry.steps == steps,
            entry.expires_at == now + STEP_TTL_SECONDS,
    {
        StepCacheEntry { date, steps, expires_at: now + STEP_TTL_SECONDS }
    }

    /// The number by which the cache orders the entry: the instant at which
    /// its day starts.
    pub fn score(&self) -> (score: i64)
        ensures
            score == date_timestamp(self.date),
    {
        self.date as i64 * 86400
    }

    /// The entry as the cache stores it.
    pub fn encode(&self) -> (value: String)
        ensures
            value@ == entry_text(*self),
    {
        let mut value: Vec<char> = Vec::new();
        push_integer(&mut value, self.steps as i64);
        value.push(':');
        push_integer(&mut value, self.date as i64 * 86400);
        value.push(':');
        push_integer(&mut value, self.expires_at);
        assert(value@ == entry_text(*self));
        from_chars(&value)
    }

    /// Reads an entry as the cache stores it.
    pub fn decode(value: &str) -> (entry: Option<StepCacheEntry>)
        ensures
            entry == decode_entry(value@),
    {
        let chars = to_chars(value);
        let fields = split_fields(&chars, ':');
        if fields.len() < 3 {
            return None;
        }
        assert(field_views(fields@)[0] == fields@[0]@);
        assert(field_views(fields@)[1] == fields@[1]@);
        assert(field_views(fields@)[2] == fields@[2]@);
        let steps = match parse_u32(&fields[0]) {
            Some(steps) => steps,
            None => {
                return None;
            },
        };
        let secs = match parse_i64(&fields[1]) {
            Some(secs) => secs,
            None => {
                return None;
            },
        };
        let expires_at = match parse_i64(&fields[2]) {
            Some(expires_at) => expires_at,
            None => {
                return None;
            },
        };
        match date_from_timestamp(secs) {
            Some(date) => Some(StepCacheEntry { date, steps, expires_at }),
            None => None,
        }
    }
}

/// An entry as the cache stores it: the count, the instant at which the day
/// starts and the instant of expiry, in base ten with colons between them.
pub open spec fn entry_text(entry: StepCacheEntry) -> Seq<char> {
    (integer_text(entry.steps as int).push(':') + integer_text(date_timestamp(entry.date))).push(
        ':',
    ) + integer_text(entry.expires_at as int)
}

/// The entry that a stored text stands for. Its first three fields are
/// read, as an unsigned count and two instants; the day is the one on which
/// the first instant falls. A text with fewer fields, or with a field that
/// cannot be read, stands for no entry.
pub open spec fn decode_entry(value: Seq<char>) -> Option<StepCacheEntry> {
    let fields = split(value, ':');
    if fields.len() < 3 {
        None
    } else {
        match (parse_u32_spec(fields[0]), parse_i64_spec(fields[1]), parse_i64_spec(fields[2])) {
            (Some(steps), Some(secs), Some(expires_at)) => match timestamp_date(secs as int) {
                Some(date) => Some(StepCacheEntry { date, steps, expires_at }),
                None => None,
            },
            _ => None,
        }
    }
}

/// What is written is read back: decoding the stored form of an entry gives
/// the entry, for every day that the calendar has.
pub proof fn lemma_entry_round_trip(entry: StepCacheEntry)
    requires
        MIN_TIMESTAMP <= date_timestamp(entry.date) <= MAX_TIMESTAMP,
    ensures
        decode_entry(entry_text(entry)) == Some(entry),
{
    let a = integer_text(entry.steps as int);
    let b = integer_text(date_timestamp(entry.date));
    let c = integer_text(entry.expires_at as int);
    lemma_integer_text_chars(entry.steps as int);
    lemma_integer_text_chars(date_timestamp(entry.date));
    lemma_integer_text_chars(entry.expires_at as int);
    lemma_integer_text_reads_back(entry.steps as int);
    lemma_integer_text_reads_back(date_timestamp(entry.date));
    lemma_integer_text_reads_back(entry.expires_at as int);
    assert(free_of(a, ':'));
    assert(free_of(b, ':'));
    assert(free_of(c, ':'));
    lemma_split_plain(a, ':');
    lemma_split_field(a, b, ':');
    lemma_split_field(a.push(':') + b, c, ':');
    let fields = split(entry_text(entry), ':');
    assert(fields == seq![a, b, c]);
    assert(fields[0] == a && fields[1] == b && fields[2] == c);
    assert(a[0] != '-');
}

/// What a read of the cache comes to: the counts served, and the stored
/// entries that have expired and are to be removed.
pub struct CacheRead {
    pub steps: HashMap<Date, u32>,
    pub expired: Vec<String>,
}

/// The views of a list of stored entries.
pub open spec fn value_views(values: Seq<String>) -> Seq<Seq<char>> {
    Seq::new(values.len(), |i: int| values[i]@)
}

/// Whether every stored text stands for an entry.
pub open spec fn all_decode(values: Seq<Seq<char>>) -> bool {
    forall|i: int| 0 <= i < values.len() ==> decode_entry(#[trigger] values[i]) is Some
}

/// The days and counts of the stored entries that have not expired at
/// `now`, in the order in which they are stored.
pub open spec fn live_entries(values: Seq<Seq<char>>, now: int) -> Seq<(Date, u32)>
    decreases values.len(),
{
    if values.len() == 0 {
        Seq::<(Date, u32)>::empty()
    } else {
        let before = live_entries(values.drop_last(), now);
        match decode_entry(values.last()) {
            Some(entry) => if entry.expired_at(now) {
                before
            } else {
                before.push((entry.date, entry.steps))
            },
            None => before,
        }
    }
}

/// The stored entries that have expired at `now`, in the order in which
/// they are stored.
pub open spec fn expired_values(values: Seq<Seq<char>>, now: int) -> Seq<Seq<char>>
    decreases values.len(),
{
    if values.len() == 0 {
        Seq::<Seq<char>>::empty()
    } else {
        let before = expired_values(values.drop_last(), now);
        match decode_entry(values.last()) {
            Some(entry) => if entry.expired_at(now) {
                before.push(values.last())
            } else {
                before
            },
            None => before,
        }
    }
}

/// Reads what the cache returned for a range of days that starts at
/// `start_date`. Entries that have expired are set aside for removal; of the
/// others, the unbroken run of days that starts at `start_date` is served.
/// Where an entry cannot be read, the cache is taken to hold nothing.
pub fn read_steps(values: &Vec<String>, start_date: Date, now: i64) -> (read: CacheRead)
    ensures
        all_decode(value_views(values@)) ==> read.steps@ == longest_run(
            start_date,
            live_entries(value_views(values@), now as int),
        ) && value_views(read.expired@) == expired_values(value_views(values@), now as int),
        !all_decode(value_views(values@)) ==> read.steps@ == Map::<Date, u32>::empty()
            && read.expired@.len() == 0,
{
    let ghost views = value_views(values@);
    let mut live: Vec<(Date, u32)> = Vec::new();
    let mut expired: Vec<String> = Vec::new();
    let mut i: usize = 0;
    while i < values.len()
        invariant
            i <= values.len(),
            views == value_views(values@),
            all_decode(views.take(i as int)),
            live@ == live_entries(views.take(i as int), now as int),
            value_views(expired@) == expired_values(views.take(i as int), now as int),
        decreases values.len() - i,
    {
        proof {
            let upto = views.take(i + 1);
            assert(upto.drop_last() == views.take(i as int));
            assert(upto.last() == values@[i as int]@);
        }
        match StepCacheEntry::decode(values[i].as_str()) {
            Some(entry) => {
                if entry.expires_at < now {
                    let ghost before = value_views(expired@);
                    expired.push(values[i].clone());
                    assert(value_views(expired@) == before.push(values@[i as int]@));
                } else {
                    live.push((entry.date, entry.steps));
                }
                proof {
                    let upto = views.take(i + 1);
                    assert forall|k: int| 0 <= k < upto.len() implies decode_entry(
                        #[trigger] upto[k],
                    ) is Some by {
                        if k < i {
                            assert(upto[k] == views.take(i as int)[k]);
                        }
                    }
                }
            },
            None => {
                assert(views[i as int] == values@[i as int]@);
                return CacheRead { steps: HashMap::new(), expired: Vec::new() };
            },
        }
        i += 1;
    }
    assert(views.take(values.len() as int) == views);
    CacheRead { steps: longest_range(start_date, live), expired }
}

/// One user's cached step counts, each with its own instant of expiry.
pub struct StepCache {
    counts: HashMap<Date, u32>,
    expiries: HashMap<Date, i64>,
}

/// The days of a range for which the cache holds an entry that has expired
/// at `now`.
pub open spec fn stale_days(held: Map<Date, StepCacheEntry>, range: Range, now: int) -> Set<
    Date,
> {
    Set::new(
        |d: Date| range.contains(d as int) && held.contains_key(d) && held[d].expired_at(now),
    )
}

/// The counts that the cache holds for the days of a range.
pub open spec fn counts_in(held: Map<Date, StepCacheEntry>, range: Range) -> Map<Date, u32> {
    Map::new(|d: Date| range.contains(d as int) && held.contains_key(d), |d: Date| held[d].steps)
}

impl StepCache {
    /// What the cache holds: for each day at most one entry.
    pub closed spec fn held(&self) -> Map<Date, StepCacheEntry> {
        Map::new(
            |d: Date| self.counts@.contains_key(d),
            |d: Date|
                StepCacheEntry { date: d, steps: self.counts@[d], expires_at: self.expiries@[d] },
        )
    }

    /// Whether the cache is in order: it knows the expiry of every count.
    pub closed spec fn wf(&self) -> bool {
        self.counts@.dom() == self.expiries@.dom()
    }

    /// A cache that holds nothing.
    pub fn new() -> (cache: StepCache)
        ensures
            cache.wf(),
            cache.held() == Map::<Date, StepCacheEntry>::empty(),
    {
        let cache = StepCache { counts: HashMap::new(), expiries: HashMap::new() };
        assert(cache.held() =~= Map::<Date, StepCacheEntry>::empty());
        cache
    }

    /// Writes a day's count at the instant `now`: the day's entry, whether
    /// there was one or not, becomes the given count with a fresh expiry.
    pub fn add_steps(&mut self, date: Date, steps: u32, now: i64)
        requires
            old(self).wf(),
            now + STEP_TTL_SECONDS <= i64::MAX,
        ensures
            final(self).wf(),
            final(self).held() == old(self).held().insert(
                date,
                StepCacheEntry { date, steps, expires_at: (now + STEP_TTL_SECONDS) as i64 },
            ),
    {
        broadcast use vstd::std_specs::hash::group_hash_axioms;

        self.counts.insert(date, steps);
        self.expiries.insert(date, now + STEP_TTL_SECONDS);
        assert(self.held() =~= old(self).held().insert(
            date,
            StepCacheEntry { date, steps, expires_at: (now + STEP_TTL_SECONDS) as i64 },
        ));
    }

    /// Reads the days from `start` to `end` at the instant `now`. Entries of
    /// these days that have expired leave the cache. Of what stays, the
    /// unbroken run of days that starts at `start` is served: nothing if
    /// `start` itself is missing, and nothing after the first missing day.
    pub fn get_steps(&mut self, start: Date, end: Date, now: i64) -> (served: HashMap<Date, u32>)
        requires
            old(self).wf(),
        ensures
            final(self).wf(),
            final(self).held() == old(self).held().remove_keys(
                stale_days(old(self).held(), Range { start, end }, now as int),
            ),
            served@ == longest_run(
                start,
                ordered(counts_in(final(self).held(), Range { start, end })),
            ),
    {
        broadcast use vstd::std_specs::hash::group_hash_axioms;

        let range = Range { start, end };
        let list = entries(&self.expiries);
        let ghost before = self.held();
        let mut i: usize = 0;
        assert(days_of(list@.take(0)) =~= Set::<Date>::empty());
        assert(self.held() =~= before.remove_keys(
            stale_days(before, range, now as int).intersect(days_of(list@.take(0))),
        ));
        while i < list.len()
            invariant
                i <= list.len(),
                range == (Range { start, end }),
                before == old(self).held(),
                lists(list@, old(self).expiries@),
                old(self).wf(),
                self.wf(),
                self.held() =~= before.remove_keys(
                    stale_days(before, range, now as int).intersect(
                        days_of(list@.take(i as int)),
                    ),
                ),
            decreases list.len() - i,
        {
            let (day, expires_at) = list[i];
            proof {
                lemma_days_step(list@, i as int);
                assert(old(self).expiries@.contains_key(list@[i as int].0));
                assert(before.contains_key(day));
                assert(before[day].expires_at == expires_at);
            }
            let ghost stale = stale_days(before, range, now as int);
            let ghost seen = days_of(list@.take(i as int));
            let ghost held_before = self.held();
            if day >= start && day <= end && expires_at < now {
                let ghost counts_before = self.counts@;
                let ghost expiries_before = self.expiries@;
                self.counts.remove(&day);
                self.expiries.remove(&day);
                proof {
                    assert(self.counts@ == counts_before.remove(day));
                    assert(self.expiries@ == expiries_before.remove(day));
                    assert(stale.intersect(seen.insert(day)) =~= stale.intersect(seen).insert(day));
                    assert(self.held() =~= held_before.remove(day));
                    assert(held_before.remove(day) =~= before.remove_keys(
                        stale.intersect(seen).insert(day),
                    ));
                }
            } else {
                proof {
                    assert(!stale.contains(day));
                    assert(stale.intersect(seen.insert(day)) =~= stale.intersect(seen));
                }
            }
            i += 1;
        }
        proof {
            assert(list@.take(list@.len() as int) == list@);
            lemma_days_of_listing(list@, old(self).expiries@);
            assert(self.held() =~= before.remove_keys(stale_days(before, range, now as int)));
        }
        let kept = within(&self.counts, range);
        assert(kept@ =~= counts_in(self.held(), range));
        let ordered_kept = ordered_entries(&kept);
        longest_range(start, ordered_kept)
    }
}

/// Writing the same day twice leaves one entry for it, with the count and
/// the expiry of the second write.
pub proof fn lemma_write_twice(
    held: Map<Date, StepCacheEntry>,
    date: Date,
    first: StepCacheEntry,
    second: StepCacheEntry,
)
    ensures
        held.insert(date, first).insert(date, second) == held.insert(date, second),
        held.insert(date, first).insert(date, second).dom() == held.dom().insert(date),
        held.insert(date, first).insert(date, second)[date] == second,
{
    assert(held.insert(date, first).insert(date, second) =~= held.insert(date, second));
}

/// A read serves a day if and only if the cache holds an entry for it and
/// for every day from `start` to it, all within the range; it serves the
/// counts held, nothing if `start` is missing, and no day after a gap.
pub proof fn lemma_read_serves_prefix(held: Map<Date, StepCacheEntry>, range: Range)
    ensures
        forall|d: Date| #[trigger]
            longest_run(range.start, ordered(counts_in(held, range))).contains_key(d) <==> range.start
                <= d && forall|e: Date|
                range.start <= e <= d ==> #[trigger] counts_in(held, range).contains_key(e),
        forall|d: Date| #[trigger]
            longest_run(range.start, ordered(counts_in(held, range))).contains_key(d)
                ==> longest_run(range.start, ordered(counts_in(held, range)))[d]
                == held[d].steps,
        !held.contains_key(range.start) ==> longest_run(
            range.start,
            ordered(counts_in(held, range)),
        ) =~= Map::<Date, u32>::empty(),
{
    let m = counts_in(held, range);
    let s = ordered(m);
    lemma_ordered_lists(m);
    assert forall|i: int| 0 <= i < s.len() implies (#[trigger] s[i]).0 >= range.start by {
        assert(m.contains_key(s[i].0));
    }
    lemma_prefix_only(range.start, s);
    assert forall|d: Date| #[trigger]
        longest_run(range.start, s).contains_key(d) implies longest_run(range.start, s)[d]
        == held[d].steps by {
        assert(days_of(s).contains(d));
        let i = choose|i: int| 0 <= i < s.len() && (#[trigger] s[i]).0 == d;
        assert(m[s[i].0] == s[i].1);
    }
}

/// The instants of a user's queries within the current rate-limit window,
/// oldest first. The log empties itself at the end of the window in which
/// the last query was made.
pub struct UserQueryLog {
    pub timestamps: Vec<i64>,
    pub expires_at: Option<i64>,
}

/// The instant at which the current rate-limit window resets, as far as it
/// is known.
#[derive(Clone, Copy, Debug, PartialEq, Eq, Structural)]
pub struct RateLimitWindow {
    pub reset_at: Option<i64>,
}

/// The seconds by which the recorded reset precedes the reset that the
/// upstream announced, to absorb latency.
pub const RESET_BUFFER_SECONDS: i64 = 2;

impl UserQueryLog {
    /// Whether the log has emptied itself by the instant `now`.
    pub open spec fn lapsed(&self, now: int) -> bool {
        self.expires_at matches Some(end) && end <= now
    }

    /// The queries of the current window, as seen at the instant `now`.
    pub open spec fn current(&self, now: int) -> Seq<i64> {
        if self.lapsed(now) {
            Seq::<i64>::empty()
        } else {
            self.timestamps@
        }
    }

    /// A log without queries.
    pub fn new() -> (log: UserQueryLog)
        ensures
            log.timestamps@.len() == 0,
            log.expires_at is None,
    {
        UserQueryLog { timestamps: Vec::new(), expires_at: None }
    }

    /// The number of queries made in the current window.
    pub fn queries(&self, now: i64) -> (count: usize)
        ensures
            count == self.current(now as int).len(),
    {
        match self.expires_at {
            Some(end) => if end <= now {
                0
            } else {
                self.timestamps.len()
            },
            None => self.timestamps.len(),
        }
    }

    /// The instant of the latest query of the current window, if there was
    /// one.
    pub fn last_query(&self, now: i64) -> (last: Option<i64>)
        ensures
            last == if self.current(now as int).len() == 0 {
                None
            } else {
                Some(self.current(now as int).last())
            },
    {
        let lapsed = match self.expires_at {
            Some(end) => end <= now,
            None => false,
        };
        if lapsed || self.timestamps.len() == 0 {
            None
        } else {
            Some(self.timestamps[self.timestamps.len() - 1])
        }
    }
}

/// The instant that is recorded as the reset of the window when a query at
/// `now` learns that the window resets in `window_seconds` seconds.
pub open spec fn reset_marker_spec(now: int, window_seconds: int) -> int {
    now + window_seconds - RESET_BUFFER_SECONDS
}

/// The instant to record as the reset of the window, or
/// `TypeConversionError` for a number of seconds that no signed 64-bit
/// integer holds.
pub fn reset_marker(now: i64, window_seconds: usize) -> (result: Result<i64, FitbitError>)
    requires
        window_seconds <= i64::MAX ==> i64::MIN + RESET_BUFFER_SECONDS <= now + window_seconds
            <= i64::MAX,
    ensures
        window_seconds <= i64::MAX ==> (result matches Ok(marker) && marker == reset_marker_spec(
            now as int,
            window_seconds as int,
        )),
        window_seconds > i64::MAX ==> outcome(result) == Err::<i64, _>(
            (
                ErrorKind::TypeConversionError,
                "out of range integral type conversion attempted"@,
            ),
        ),
{
    if window_seconds as u64 > 9223372036854775807u64 {
        return Err(
            FitbitError::TypeConversionError(
                "out of range integral type conversion attempted".to_owned(),
            ),
        );
    }
    let end: i64 = now + window_seconds as i64;
    Ok(end - RESET_BUFFER_SECONDS)
}

/// Records a live query made at `now`, which learned that the window resets
/// in `window_seconds` seconds: the query joins the log of the current
/// window, the log is set to empty itself when the window ends, and the
/// window's reset is recorded two seconds early. Nothing changes where the
/// number of seconds cannot be held.
pub fn add_user_query(
    log: &mut UserQueryLog,
    window: &mut RateLimitWindow,
    now: i64,
    window_seconds: usize,
) -> (result: Result<(), FitbitError>)
    requires
        window_seconds <= i64::MAX ==> i64::MIN + RESET_BUFFER_SECONDS <= now + window_seconds
            <= i64::MAX,
    ensures
        window_seconds <= i64::MAX ==> result is Ok && final(log).timestamps@ == old(
            log,
        ).current(now as int).push(now),
        window_seconds <= i64::MAX ==> (final(log).expires_at matches Some(end) && end == now
            + window_seconds),
        window_seconds <= i64::MAX ==> (final(window).reset_at matches Some(marker) && marker
            == reset_marker_spec(now as int, window_seconds as int)),
        window_seconds > i64::MAX ==> outcome(result) == Err::<(), _>(
            (
                ErrorKind::TypeConversionError,
                "out of range integral type conversion attempted"@,
            ),
        ) && *final(log) == *old(log) && *final(window) == *old(window),
{
    let marker = match reset_marker(now, window_seconds) {
        Ok(marker) => marker,
        Err(error) => {
            return Err(error);
        },
    };
    let lapsed = match log.expires_at {
        Some(end) => end <= now,
        None => false,
    };
    if lapsed {
        log.timestamps = Vec::new();
    }
    log.timestamps.push(now);
    log.expires_at = Some(now + window_seconds as i64);
    window.reset_at = Some(marker);
    Ok(())
}

} // verus!
