use fitbit_steps::api::{
    basic_authorization, basic_header, bearer_authorization, needs_refresh, step_entry,
    steps_from_response, steps_url, steps_url_on, token_expired, token_expiry, token_url,
    tokens_from_response,
};
use fitbit_steps::cache::{
    add_user_query, read_steps, reset_marker, RateLimitWindow, StepCache, StepCacheEntry,
    UserQueryLog, STEP_TTL_SECONDS,
};
use fitbit_steps::dates::{timestamp_from_date, Moment, Range};
use fitbit_steps::errors::FitbitError;
use fitbit_steps::fitbit::{
    check_ratelimit, chunk, classify, found_user, get_live_range, min_spacing, plan_fetch,
    refresh_response, steps_response, LiveFetch,
};
use fitbit_steps::models::{
    DatabaseUser, ErrorDetail, ErrorResponse, FitbitResponse, FitbitSuccess, Period, Response,
    StepRecord, TokenResponse,
};
use fitbit_steps::steps::{
    entries, latest_day, longest_range, merge, ordered_entries, parse_steps, sort_entries, within,
};
use fitbit_steps::text::{parse_i64, parse_u32, push_integer, split_fields, to_chars};
use std::collections::HashMap;

const NOW: i64 = 1_700_000_000;
const TODAY: i32 = 19675;

fn now() -> Moment {
    Moment { timestamp: NOW, date: TODAY }
}

fn map(pairs: &[(i32, u32)]) -> HashMap<i32, u32> {
    pairs.iter().copied().collect()
}

fn text(chars: &[char]) -> String {
    chars.iter().collect()
}

fn record(day: &str, value: &str) -> StepRecord {
    StepRecord { date_time: day.to_string(), value: value.to_string() }
}

fn steps_answer(name: &str, records: Vec<StepRecord>) -> FitbitResponse {
    FitbitResponse::Success(FitbitSuccess::Steps(vec![(name.to_string(), records)]))
}

fn error_answer(errors: &[(&str, &str)]) -> FitbitResponse {
    FitbitResponse::Error(ErrorResponse {
        errors: errors
            .iter()
            .map(|(kind, message)| ErrorDetail {
                error_type: kind.to_string(),
                message: message.to_string(),
            })
            .collect(),
        success: false,
    })
}

fn tokens() -> TokenResponse {
    TokenResponse {
        access_token: "access".to_string(),
        expires_in: 28800,
        refresh_token: "refresh".to_string(),
        scope: "activity".to_string(),
        token_type: "Bearer".to_string(),
        user_id: "ABC123".to_string(),
    }
}

#[test]
fn today_is_the_day_of_now() {
    assert_eq!(Moment::at(NOW), Some(now()));
    assert_eq!(Moment::at(i64::MAX), None);
    let clock = Moment::now();
    assert_eq!(Moment::at(clock.timestamp), Some(clock));
    assert!(clock.timestamp > NOW);
    assert_eq!(timestamp_from_date(TODAY), 1_699_920_000);
    assert_eq!(timestamp_from_date(-1), -86400);
    assert_eq!(Range { start: 3, end: 10 }.num_days(), 7);
    assert_eq!(Range { start: i32::MIN, end: i32::MAX }.num_days(), 4294967295);
}

#[test]
fn splits_like_str_split() {
    for sample in ["", ":", "a", "a:b", ":a", "a:", "a::b", ":::", "ab:cd:ef:gh", "é:ü"] {
        let fields: Vec<String> =
            split_fields(&to_chars(sample), ':').iter().map(|f| text(f)).collect();
        let expected: Vec<String> = sample.split(':').map(|f| f.to_string()).collect();
        assert_eq!(fields, expected, "{:?}", sample);
    }
}

#[test]
fn parses_integers_like_from_str() {
    let samples = [
        "", "+", "-", "0", "-0", "+0", "007", "42", "-42", "+42", "4 2", " 42", "42 ", "4_2",
        "0x10", "1e3", "--1", "+-1", "١٢", "9223372036854775807", "9223372036854775808",
        "-9223372036854775808", "-9223372036854775809", "4294967295", "4294967296",
        "+4294967295", "-1", "00000000000000000000000000000000000012",
        "99999999999999999999999999999999999999999999",
        "-99999999999999999999999999999999999999999999", "12a", "a12",
    ];
    for sample in samples {
        assert_eq!(parse_i64(&to_chars(sample)), sample.parse::<i64>().ok(), "{:?}", sample);
        assert_eq!(parse_u32(&to_chars(sample)), sample.parse::<u32>().ok(), "{:?}", sample);
    }
}

#[test]
fn writes_integers_like_display() {
    for n in [0i64, 1, 9, 10, 11, 99, 100, 1234567890, -1, -10, -999, i64::MAX, i64::MIN] {
        let mut out = vec!['x'];
        push_integer(&mut out, n);
        assert_eq!(text(&out), format!("x{}", n));
    }
}

#[test]
fn period_names() {
    assert_eq!(Period::OneDay.to_str(), "1d");
    assert_eq!(Period::OneWeek.to_str(), "1w");
    assert_eq!(Period::OneMonth.to_str(), "1m");
    assert_eq!(Period::ThreeMonths.to_str(), "3m");
    assert_eq!(Period::SixMonths.to_str(), "6m");
    assert_eq!(Period::OneYear.to_str(), "1y");
}

#[test]
fn classifies_by_day_count() {
    let expected = [
        (-1, None),
        (0, Some(Period::OneDay)),
        (1, Some(Period::OneWeek)),
        (6, Some(Period::OneWeek)),
        (7, Some(Period::OneMonth)),
        (27, Some(Period::OneMonth)),
        (28, Some(Period::ThreeMonths)),
        (89, Some(Period::ThreeMonths)),
        (90, Some(Period::SixMonths)),
        (179, Some(Period::SixMonths)),
        (180, Some(Period::OneYear)),
        (364, Some(Period::OneYear)),
        (365, None),
        (i64::MAX, None),
        (i64::MIN, None),
    ];
    for (days, period) in expected {
        assert_eq!(classify(days), period, "{}", days);
    }
}

#[test]
fn range_of_364_days_is_one_chunk_of_a_year() {
    let range = Range { start: TODAY - 364, end: TODAY };
    let chunks = chunk(range, TODAY).unwrap();
    assert_eq!(chunks, vec![range]);
    assert_eq!(classify(chunks[0].num_days()), Some(Period::OneYear));
}

#[test]
fn range_of_365_days_is_two_chunks() {
    let range = Range { start: TODAY - 365, end: TODAY };
    let chunks = chunk(range, TODAY).unwrap();
    assert_eq!(
        chunks,
        vec![
            Range { start: TODAY - 365, end: TODAY - 1 },
            Range { start: TODAY - 1, end: TODAY }
        ]
    );
    assert_eq!(classify(chunks[0].num_days()), Some(Period::OneYear));
    assert_eq!(classify(chunks[1].num_days()), Some(Period::OneWeek));
}

#[test]
fn range_of_no_days_is_one_chunk_of_a_day() {
    let range = Range { start: TODAY, end: TODAY };
    let chunks = chunk(range, TODAY).unwrap();
    assert_eq!(chunks, vec![range]);
    assert_eq!(classify(chunks[0].num_days()), Some(Period::OneDay));
}

#[test]
fn long_ranges_are_cut_every_364_days() {
    let chunks = chunk(Range { start: 0, end: 728 }, TODAY).unwrap();
    assert_eq!(chunks, vec![Range { start: 0, end: 364 }, Range { start: 364, end: 728 }]);
    let chunks = chunk(Range { start: 0, end: 729 }, TODAY).unwrap();
    assert_eq!(
        chunks,
        vec![
            Range { start: 0, end: 364 },
            Range { start: 364, end: 728 },
            Range { start: 728, end: 729 }
        ]
    );
    let chunks = chunk(Range { start: -1000, end: 1000 }, TODAY).unwrap();
    assert_eq!(chunks.len(), 6);
    assert_eq!(chunks[0].start, -1000);
    assert_eq!(chunks[5], Range { start: 820, end: 1000 });
    for pair in chunks.windows(2) {
        assert_eq!(pair[0].end, pair[1].start);
        assert_eq!(pair[0].num_days(), 364);
    }
}

#[test]
fn widest_range_is_cut() {
    let chunks = chunk(Range { start: i32::MIN, end: i32::MAX }, i32::MAX).unwrap();
    assert_eq!(chunks.len(), 11799361);
    assert_eq!(chunks[0].start, i32::MIN);
    assert_eq!(chunks[chunks.len() - 1].end, i32::MAX);
}

#[test]
fn chunking_refuses_bad_ranges() {
    match chunk(Range { start: 5, end: 4 }, TODAY) {
        Err(FitbitError::DateOutOfRange(text)) => {
            assert_eq!(text, "Start date must be before end date.")
        }
        other => panic!("unexpected {:?}", other),
    }
    match chunk(Range { start: 5, end: TODAY + 1 }, TODAY) {
        Err(FitbitError::DateOutOfRange(text)) => {
            assert_eq!(text, "Dates must be UTC and in the past.")
        }
        other => panic!("unexpected {:?}", other),
    }
}

#[test]
fn plans_a_call() {
    assert_eq!(plan_fetch(0, Range { start: 10, end: 17 }, TODAY).unwrap(), Period::OneMonth);
    assert_eq!(plan_fetch(145, Range { start: 10, end: 10 }, 10).unwrap(), Period::OneDay);
    match plan_fetch(146, Range { start: 10, end: 17 }, TODAY) {
        Err(FitbitError::RateLimitExceeded(text)) => assert_eq!(text, "Rate limit exceeded"),
        other => panic!("unexpected {:?}", other),
    }
    match plan_fetch(146, Range { start: 18, end: 17 }, TODAY) {
        Err(FitbitError::RateLimitExceeded(_)) => {}
        other => panic!("unexpected {:?}", other),
    }
    match plan_fetch(0, Range { start: 18, end: 17 }, TODAY) {
        Err(FitbitError::DateOutOfRange(text)) => {
            assert_eq!(text, "Start date must be before end date.")
        }
        other => panic!("unexpected {:?}", other),
    }
    match plan_fetch(0, Range { start: 18, end: TODAY + 1 }, TODAY) {
        Err(FitbitError::DateOutOfRange(text)) => {
            assert_eq!(text, "Dates must be UTC and in the past.")
        }
        other => panic!("unexpected {:?}", other),
    }
    match plan_fetch(0, Range { start: 0, end: 365 }, TODAY) {
        Err(FitbitError::DateOutOfRange(text)) => {
            assert_eq!(text, "Date range must be less than one year.")
        }
        other => panic!("unexpected {:?}", other),
    }
}

#[test]
fn quota_is_145_queries() {
    assert!(!check_ratelimit(0));
    assert!(!check_ratelimit(145));
    assert!(check_ratelimit(146));
    assert!(check_ratelimit(usize::MAX));
}

#[test]
fn spacing_spreads_the_quota() {
    assert_eq!(min_spacing(0, Some(NOW + 3600), NOW).unwrap(), 25);
    assert_eq!(min_spacing(100, Some(NOW + 450), NOW).unwrap(), 10);
    assert_eq!(min_spacing(100, Some(NOW + 451), NOW).unwrap(), 11);
    assert_eq!(min_spacing(144, Some(NOW + 3600), NOW).unwrap(), 3600);
    assert_eq!(min_spacing(144, Some(NOW + 65535), NOW).unwrap(), 65535);
    assert_eq!(min_spacing(144, Some(NOW + 65536), NOW).unwrap(), 65535);
    assert_eq!(min_spacing(0, Some(NOW + 145 * 65535 + 1), NOW).unwrap(), 65535);
    assert_eq!(min_spacing(0, Some(NOW + 145 * 65534 + 1), NOW).unwrap(), 65535);
    assert_eq!(min_spacing(0, Some(NOW + 145 * 65534), NOW).unwrap(), 65534);
    assert_eq!(min_spacing(0, Some(NOW), NOW).unwrap(), 0);
    assert_eq!(min_spacing(0, Some(NOW - 1), NOW).unwrap(), 0);
    assert_eq!(min_spacing(0, Some(NOW + 1), NOW).unwrap(), 1);
    assert_eq!(min_spacing(0, None, NOW).unwrap(), 0);
    assert_eq!(min_spacing(0, Some(i64::MAX), i64::MIN).unwrap(), 65535);
    assert_eq!(min_spacing(0, Some(i64::MIN), i64::MAX).unwrap(), 0);
}

#[test]
fn spacing_fails_without_budget() {
    for queries in [145usize, 146, 1000, usize::MAX] {
        match min_spacing(queries, Some(NOW + 3600), NOW) {
            Err(FitbitError::RateLimitExceeded(text)) => assert_eq!(text, "Rate limit exceeded."),
            other => panic!("unexpected {:?}", other),
        }
    }
}

#[test]
fn everything_is_fetched_without_history() {
    let whole = Range { start: 100, end: 200 };
    assert_eq!(
        get_live_range(100, 200, Some(150), 145, None, Some(NOW + 10), now()).unwrap(),
        Some(whole)
    );
    assert_eq!(
        get_live_range(100, 200, None, 145, Some(NOW), Some(NOW + 10), now()).unwrap(),
        Some(whole)
    );
    assert_eq!(get_live_range(100, 200, None, 0, None, None, now()).unwrap(), Some(whole));
}

#[test]
fn recent_query_means_no_fetch() {
    let reset = Some(NOW + 450);
    assert_eq!(get_live_range(100, 200, Some(150), 100, Some(NOW - 9), reset, now()).unwrap(), None);
    assert_eq!(
        get_live_range(100, 200, Some(150), 100, Some(NOW - 10), reset, now()).unwrap(),
        Some(Range { start: 150, end: 200 })
    );
    assert_eq!(get_live_range(100, 200, Some(150), 100, Some(NOW + 50), reset, now()).unwrap(), None);
    assert_eq!(
        get_live_range(100, 200, Some(150), 100, Some(NOW + 50), None, now()).unwrap(),
        Some(Range { start: 150, end: 200 })
    );
}

#[test]
fn tail_is_fetched_or_nothing() {
    assert_eq!(
        get_live_range(100, 200, Some(200), 3, Some(NOW - 5000), None, now()).unwrap(),
        None
    );
    assert_eq!(
        get_live_range(100, 200, Some(100), 3, Some(NOW - 5000), None, now()).unwrap(),
        Some(Range { start: 100, end: 200 })
    );
    assert_eq!(
        get_live_range(100, TODAY, Some(TODAY - 2), 3, Some(NOW - 5000), None, now()).unwrap(),
        Some(Range { start: TODAY - 2, end: TODAY })
    );
}

#[test]
fn last_two_days_are_refreshed() {
    for cache_end in [TODAY - 1, TODAY] {
        assert_eq!(
            get_live_range(100, TODAY, Some(cache_end), 3, Some(NOW - 5000), None, now()).unwrap(),
            Some(Range { start: TODAY - 1, end: TODAY })
        );
    }
    assert_eq!(
        get_live_range(TODAY, TODAY, Some(TODAY), 3, Some(NOW - 5000), None, now()).unwrap(),
        Some(Range { start: TODAY - 1, end: TODAY })
    );
    assert_eq!(
        get_live_range(100, TODAY - 1, Some(TODAY - 1), 3, Some(NOW - 5000), None, now()).unwrap(),
        None
    );
}

#[test]
fn gap_behind_the_cache_end_is_not_seen() {
    let mut cache = StepCache::new();
    for day in [TODAY - 4, TODAY - 3, TODAY - 1, TODAY] {
        cache.add_steps(day, 10, NOW - 10);
    }
    let served = cache.get_steps(TODAY - 4, TODAY, NOW);
    assert_eq!(served, map(&[(TODAY - 4, 10), (TODAY - 3, 10)]));
    assert_eq!(latest_day(&served), Some(TODAY - 3));
    assert_eq!(
        get_live_range(TODAY - 4, TODAY, latest_day(&served), 3, Some(NOW - 5000), None, now())
            .unwrap(),
        Some(Range { start: TODAY - 3, end: TODAY })
    );
    let served = cache.get_steps(TODAY - 1, TODAY, NOW);
    assert_eq!(
        get_live_range(TODAY - 1, TODAY, latest_day(&served), 3, Some(NOW), Some(NOW + 900), now())
            .unwrap(),
        None
    );
}

#[test]
fn quota_of_145_is_a_hard_cap() {
    let mut log = UserQueryLog::new();
    let mut window = RateLimitWindow { reset_at: None };
    for i in 0..145 {
        assert_eq!(log.queries(NOW + i), i as usize);
        assert!(min_spacing(log.queries(NOW + i), window.reset_at, NOW + i).is_ok());
        add_user_query(&mut log, &mut window, NOW + i, 3600 - i as usize).unwrap();
    }
    let at = NOW + 145;
    assert_eq!(log.queries(at), 145);
    assert_eq!(log.last_query(at), Some(NOW + 144));
    assert_eq!(window.reset_at, Some(NOW + 3598));
    let moment = Moment { timestamp: at, date: TODAY };
    match get_live_range(100, 200, Some(150), log.queries(at), log.last_query(at), window.reset_at, moment) {
        Err(FitbitError::RateLimitExceeded(text)) => assert_eq!(text, "Rate limit exceeded."),
        other => panic!("unexpected {:?}", other),
    }
    assert!(min_spacing(log.queries(at), window.reset_at, at).is_err());
}

#[test]
fn query_log_empties_with_the_window() {
    let mut log = UserQueryLog::new();
    let mut window = RateLimitWindow { reset_at: None };
    assert_eq!(log.queries(NOW), 0);
    assert_eq!(log.last_query(NOW), None);
    add_user_query(&mut log, &mut window, NOW, 100).unwrap();
    add_user_query(&mut log, &mut window, NOW + 10, 90).unwrap();
    assert_eq!(log.timestamps, vec![NOW, NOW + 10]);
    assert_eq!(log.expires_at, Some(NOW + 100));
    assert_eq!(window.reset_at, Some(NOW + 98));
    assert_eq!(log.queries(NOW + 99), 2);
    assert_eq!(log.last_query(NOW + 99), Some(NOW + 10));
    assert_eq!(log.queries(NOW + 100), 0);
    assert_eq!(log.last_query(NOW + 100), None);
    add_user_query(&mut log, &mut window, NOW + 200, 3600).unwrap();
    assert_eq!(log.timestamps, vec![NOW + 200]);
    assert_eq!(log.expires_at, Some(NOW + 3800));
    assert_eq!(window.reset_at, Some(NOW + 3798));
}

#[test]
fn reset_is_recorded_two_seconds_early() {
    assert_eq!(reset_marker(NOW, 3600).unwrap(), NOW + 3598);
    assert_eq!(reset_marker(NOW, 0).unwrap(), NOW - 2);
    assert_eq!(reset_marker(i64::MIN, 2).unwrap(), i64::MIN);
    assert_eq!(reset_marker(i64::MAX - 5, 5).unwrap(), i64::MAX - 2);
}

#[test]
fn seconds_beyond_i64_are_refused() {
    let mut log = UserQueryLog::new();
    let mut window = RateLimitWindow { reset_at: Some(7) };
    match add_user_query(&mut log, &mut window, NOW, usize::MAX) {
        Err(FitbitError::TypeConversionError(text)) => {
            assert_eq!(text, "out of range integral type conversion attempted")
        }
        other => panic!("unexpected {:?}", other),
    }
    assert_eq!(log.timestamps, Vec::<i64>::new());
    assert_eq!(window.reset_at, Some(7));
    assert!(matches!(reset_marker(0, usize::MAX), Err(FitbitError::TypeConversionError(_))));
}

#[test]
fn cache_entry_is_written_and_read() {
    let entry = StepCacheEntry::fresh(19358, 1234, NOW);
    assert_eq!(entry, StepCacheEntry { date: 19358, steps: 1234, expires_at: NOW + 172800 });
    assert_eq!(STEP_TTL_SECONDS, 60 * 60 * 24 * 2);
    assert_eq!(entry.score(), 1672531200);
    assert_eq!(entry.encode(), "1234:1672531200:1700172800");
    assert_eq!(StepCacheEntry::decode(&entry.encode()), Some(entry));
    let early = StepCacheEntry { date: -3, steps: 0, expires_at: -5 };
    assert_eq!(early.encode(), "0:-259200:-5");
    assert_eq!(StepCacheEntry::decode("0:-259200:-5"), Some(early));
    assert_eq!(
        StepCacheEntry::decode("7:1672531201:9:more"),
        Some(StepCacheEntry { date: 19358, steps: 7, expires_at: 9 })
    );
}

#[test]
fn unreadable_cache_entries() {
    for value in ["", "1", "1:2", "x:2:3", "-1:2:3", "1:x:3", "1:2:x", "4294967296:2:3",
                  "1:8210266876800:3", "1:2:", "1: 2:3"] {
        assert_eq!(StepCacheEntry::decode(value), None, "{:?}", value);
    }
}

#[test]
fn read_serves_the_prefix_and_sets_expired_aside() {
    let day = |d: i32| timestamp_from_date(d);
    let values = vec![
        format!("10:{}:{}", day(100), NOW + 5),
        format!("11:{}:{}", day(101), NOW),
        format!("99:{}:{}", day(102), NOW - 1),
        format!("12:{}:{}", day(102), NOW + 9),
        format!("13:{}:{}", day(104), NOW + 9),
    ];
    let read = read_steps(&values, 100, NOW);
    assert_eq!(read.steps, map(&[(100, 10), (101, 11), (102, 12)]));
    assert_eq!(read.expired, vec![values[2].clone()]);
    let read = read_steps(&values, 99, NOW);
    assert_eq!(read.steps, map(&[]));
    assert_eq!(read.expired, vec![values[2].clone()]);
    let read = read_steps(&values, 100, NOW + 1);
    assert_eq!(read.steps, map(&[(100, 10)]));
    assert_eq!(read.expired, vec![values[1].clone(), values[2].clone()]);
    let read = read_steps(&Vec::new(), 100, NOW);
    assert_eq!(read.steps, map(&[]));
    assert!(read.expired.is_empty());
}

#[test]
fn read_stops_at_a_repeated_day() {
    let day = |d: i32| timestamp_from_date(d);
    let values = vec![
        format!("10:{}:{}", day(100), NOW + 5),
        format!("11:{}:{}", day(100), NOW + 6),
        format!("12:{}:{}", day(101), NOW + 9),
    ];
    assert_eq!(read_steps(&values, 100, NOW).steps, map(&[(100, 10)]));
}

#[test]
fn unreadable_entry_means_no_data() {
    let values = vec![
        format!("10:{}:{}", timestamp_from_date(100), NOW - 5),
        "garbage".to_string(),
        format!("12:{}:{}", timestamp_from_date(101), NOW + 9),
    ];
    let read = read_steps(&values, 100, NOW);
    assert_eq!(read.steps, map(&[]));
    assert!(read.expired.is_empty());
}

#[test]
fn writing_twice_keeps_one_entry() {
    let mut cache = StepCache::new();
    cache.add_steps(100, 5, NOW - STEP_TTL_SECONDS - 1);
    assert_eq!(cache.get_steps(100, 100, NOW - STEP_TTL_SECONDS - 1), map(&[(100, 5)]));
    cache.add_steps(100, 5, NOW);
    assert_eq!(cache.get_steps(100, 100, NOW), map(&[(100, 5)]));
    assert_eq!(cache.get_steps(100, 100, NOW + STEP_TTL_SECONDS), map(&[(100, 5)]));
    assert_eq!(cache.get_steps(100, 100, NOW + STEP_TTL_SECONDS + 1), map(&[]));
    cache.add_steps(100, 5, NOW);
    cache.add_steps(100, 9, NOW + 1);
    assert_eq!(cache.get_steps(99, 101, NOW), map(&[]));
    assert_eq!(cache.get_steps(100, 101, NOW), map(&[(100, 9)]));
}

#[test]
fn cache_read_is_prefix_only() {
    let mut cache = StepCache::new();
    for day in [10, 11, 12, 14, 15, 20] {
        cache.add_steps(day, day as u32 * 2, NOW);
    }
    assert_eq!(cache.get_steps(10, 20, NOW), map(&[(10, 20), (11, 22), (12, 24)]));
    assert_eq!(cache.get_steps(11, 20, NOW), map(&[(11, 22), (12, 24)]));
    assert_eq!(cache.get_steps(13, 20, NOW), map(&[]));
    assert_eq!(cache.get_steps(14, 20, NOW), map(&[(14, 28), (15, 30)]));
    assert_eq!(cache.get_steps(14, 14, NOW), map(&[(14, 28)]));
    assert_eq!(cache.get_steps(9, 20, NOW), map(&[]));
    assert_eq!(cache.get_steps(20, 10, NOW), map(&[]));
    assert_eq!(cache.get_steps(20, 25, NOW), map(&[(20, 40)]));
}

#[test]
fn expired_entries_leave_the_cache_on_read() {
    let mut cache = StepCache::new();
    cache.add_steps(10, 1, NOW);
    cache.add_steps(11, 2, NOW - 100);
    cache.add_steps(12, 3, NOW);
    cache.add_steps(30, 4, NOW - 100);
    let late = NOW + STEP_TTL_SECONDS - 50;
    assert_eq!(cache.get_steps(10, 12, late), map(&[(10, 1)]));
    assert_eq!(cache.get_steps(10, 12, NOW), map(&[(10, 1)]));
    assert_eq!(cache.get_steps(12, 12, NOW), map(&[(12, 3)]));
    assert_eq!(cache.get_steps(30, 30, NOW), map(&[(30, 4)]));
    assert_eq!(cache.get_steps(30, 30, late), map(&[]));
}

#[test]
fn orders_and_measures_maps() {
    let steps = map(&[(5, 50), (-3, 30), (9, 90), (0, 1)]);
    assert_eq!(ordered_entries(&steps), vec![(-3, 30), (0, 1), (5, 50), (9, 90)]);
    assert_eq!(sort_entries(&vec![(3, 1), (1, 2), (2, 3)]), vec![(1, 2), (2, 3), (3, 1)]);
    assert_eq!(sort_entries(&Vec::new()), Vec::<(i32, u32)>::new());
    let mut listed = entries(&steps);
    listed.sort();
    assert_eq!(listed, vec![(-3, 30), (0, 1), (5, 50), (9, 90)]);
    assert_eq!(latest_day(&steps), Some(9));
    assert_eq!(latest_day(&map(&[])), None);
    assert_eq!(latest_day(&map(&[(i32::MIN, 1)])), Some(i32::MIN));
}

#[test]
fn merges_and_restricts_maps() {
    let base = map(&[(1, 10), (2, 20), (3, 30)]);
    let update = map(&[(3, 33), (4, 44)]);
    assert_eq!(merge(base.clone(), &update), map(&[(1, 10), (2, 20), (3, 33), (4, 44)]));
    assert_eq!(merge(base.clone(), &map(&[])), base);
    assert_eq!(merge(map(&[]), &update), update);
    assert_eq!(within(&base, Range { start: 2, end: 3 }), map(&[(2, 20), (3, 30)]));
    assert_eq!(within(&base, Range { start: 3, end: 2 }), map(&[]));
    assert_eq!(within(&base, Range { start: i32::MIN, end: i32::MAX }), base);
}

#[test]
fn longest_range_stops_at_the_first_gap() {
    let steps = vec![(10, 1), (11, 2), (12, 3), (14, 4), (15, 5)];
    assert_eq!(longest_range(10, steps.clone()), map(&[(10, 1), (11, 2), (12, 3)]));
    assert_eq!(longest_range(11, steps.clone()), map(&[]));
    assert_eq!(longest_range(9, steps), map(&[]));
    assert_eq!(longest_range(10, Vec::new()), map(&[]));
    assert_eq!(longest_range(i32::MAX, vec![(i32::MAX, 7), (i32::MIN, 8)]), map(&[(i32::MAX, 7)]));
    assert_eq!(longest_range(5, vec![(5, 1), (6, 2), (6, 3), (7, 4)]), map(&[(5, 1), (6, 2)]));
}

#[test]
fn stored_pairs_become_days() {
    assert_eq!(
        parse_steps(vec![(5, 0), (6, 86399), (7, 86400), (8, -1), (9, 1672531200)]),
        vec![(0, 5), (0, 6), (1, 7), (-1, 8), (19358, 9)]
    );
    assert_eq!(parse_steps(Vec::new()), Vec::<(i32, u32)>::new());
}

#[test]
fn request_addresses_and_credentials() {
    assert_eq!(
        steps_url("ABC123", 19358, Period::OneWeek).unwrap(),
        "https://api.fitbit.com/1/user/ABC123/activities/steps/date/2023-01-01/1w.json?timezone=UTC"
    );
    assert_eq!(
        steps_url_on("-", "2024-02-29", Period::OneYear),
        "https://api.fitbit.com/1/user/-/activities/steps/date/2024-02-29/1y.json?timezone=UTC"
    );
    assert_eq!(steps_url("ABC123", i32::MAX, Period::OneDay), None);
    assert_eq!(token_url(), "https://api.fitbit.com/oauth2/token");
    assert_eq!(bearer_authorization("tok"), "Bearer tok");
    assert_eq!(basic_authorization("id", "secret").unwrap(), "Basic aWQ6c2VjcmV0");
    assert_eq!(basic_authorization("a", "").unwrap(), "Basic YTo");
    assert_eq!(basic_header("xyz"), "Basic xyz");
}

#[test]
fn fetch_answer_becomes_steps() {
    let answer = steps_answer(
        "activities-steps",
        vec![record("2023-01-01", "100"), record("2023-01-02", "75"), record("2023-01-01", "5")],
    );
    assert_eq!(steps_from_response(&answer).unwrap(), map(&[(19358, 5), (19359, 75)]));
    let answer = FitbitResponse::Success(FitbitSuccess::Steps(vec![
        ("other".to_string(), vec![record("2023-01-05", "1")]),
        ("activities-steps".to_string(), vec![record("2023-01-03", "0")]),
        ("activities-steps".to_string(), vec![record("2023-01-04", "9")]),
    ]));
    assert_eq!(steps_from_response(&answer).unwrap(), map(&[(19360, 0)]));
}

#[test]
fn fetch_answer_without_steps() {
    for answer in [
        steps_answer("activities-steps", Vec::new()),
        steps_answer("activities-distance", vec![record("2023-01-01", "100")]),
        FitbitResponse::Success(FitbitSuccess::Steps(Vec::new())),
    ] {
        match steps_from_response(&answer) {
            Err(FitbitError::ParsingError(text)) => assert_eq!(text, "No steps found"),
            other => panic!("unexpected {:?}", other),
        }
    }
    match steps_from_response(&FitbitResponse::Success(FitbitSuccess::Refresh(tokens()))) {
        Err(FitbitError::ParsingError(text)) => assert_eq!(text, "Failed to parse response"),
        other => panic!("unexpected {:?}", other),
    }
}

#[test]
fn fetch_answer_with_bad_records() {
    let cases = [
        (vec![record("2023-01-01", "1"), record("01/02/2023", "x")], "Failed to parse date"),
        (vec![record("2023-02-30", "1")], "Failed to parse date"),
        (vec![record("2023-01-01", "-1")], "Failed to parse value"),
        (vec![record("2023-01-01", "1.5"), record("bad", "1")], "Failed to parse value"),
        (vec![record("2023-01-01", "")], "Failed to parse value"),
    ];
    for (records, message) in cases {
        match steps_from_response(&steps_answer("activities-steps", records)) {
            Err(FitbitError::ParsingError(text)) => assert_eq!(text, message),
            other => panic!("unexpected {:?}", other),
        }
    }
    assert_eq!(step_entry(Some(4), "12").unwrap(), (4, 12));
    assert!(matches!(step_entry(None, "12"), Err(FitbitError::ParsingError(_))));
}

#[test]
fn fetch_answer_with_errors() {
    assert!(matches!(
        steps_from_response(&error_answer(&[("expired_token", "Access token expired")])),
        Err(FitbitError::ExpiredToken)
    ));
    match steps_from_response(&error_answer(&[("invalid_token", "nope"), ("expired_token", "x")])) {
        Err(FitbitError::FitbitApiError(text)) => assert_eq!(text, "nope"),
        other => panic!("unexpected {:?}", other),
    }
    match steps_from_response(&error_answer(&[])) {
        Err(FitbitError::ParsingError(text)) => assert_eq!(text, "Empty error list"),
        other => panic!("unexpected {:?}", other),
    }
}

#[test]
fn refresh_answer_becomes_tokens() {
    let fresh = tokens_from_response(FitbitResponse::Success(FitbitSuccess::Refresh(tokens())))
        .unwrap();
    assert_eq!(fresh.access_token, "access");
    assert_eq!(fresh.refresh_token, "refresh");
    assert_eq!(fresh.expires_in, 28800);
    assert_eq!(fresh.user_id, "ABC123");
    assert!(matches!(
        tokens_from_response(error_answer(&[("invalid_grant", "Refresh token invalid")])),
        Err(FitbitError::RejectedToken)
    ));
    match tokens_from_response(error_answer(&[])) {
        Err(FitbitError::ParsingError(text)) => assert_eq!(text, "Empty error list"),
        other => panic!("unexpected {:?}", other),
    }
    match tokens_from_response(steps_answer("activities-steps", Vec::new())) {
        Err(FitbitError::ParsingError(text)) => assert_eq!(text, "Failed to parse response"),
        other => panic!("unexpected {:?}", other),
    }
}

#[test]
fn token_state() {
    assert!(needs_refresh(Some(true)));
    assert!(!needs_refresh(Some(false)));
    assert!(!needs_refresh(None));
    assert!(token_expired(NOW - 1, NOW));
    assert!(!token_expired(NOW, NOW));
    assert!(!token_expired(NOW + 1, NOW));
    assert_eq!(token_expiry(NOW, 28800), NOW + 28800);
    assert_eq!(token_expiry(NOW, -5), NOW - 5);
}

#[test]
fn live_fetch_runs_through_its_chunks() {
    let cached = map(&[(0, 1), (1, 2)]);
    let mut fetch = LiveFetch::start(cached, Some(Range { start: 1, end: 366 }), TODAY).unwrap();
    assert_eq!(fetch.chunks, vec![Range { start: 1, end: 365 }, Range { start: 365, end: 366 }]);
    assert_eq!(
        fetch.next(3, TODAY).unwrap(),
        Some((Range { start: 1, end: 365 }, Period::OneYear))
    );
    let kept = fetch.absorb(&map(&[(0, 70), (1, 20), (200, 5), (366, 6)]));
    assert_eq!(kept, map(&[(1, 20), (200, 5)]));
    assert!(matches!(fetch.next(146, TODAY), Err(FitbitError::RateLimitExceeded(_))));
    assert_eq!(
        fetch.next(4, TODAY).unwrap(),
        Some((Range { start: 365, end: 366 }, Period::OneWeek))
    );
    let kept = fetch.absorb(&map(&[(365, 8), (366, 9), (367, 10)]));
    assert_eq!(kept, map(&[(365, 8), (366, 9)]));
    assert_eq!(fetch.next(146, TODAY).unwrap(), None);
    assert_eq!(fetch.finish(), map(&[(0, 1), (1, 20), (200, 5), (365, 8), (366, 9)]));
}

#[test]
fn live_fetch_with_nothing_to_fetch() {
    let fetch = LiveFetch::start(map(&[(3, 4)]), None, TODAY).unwrap();
    assert_eq!(fetch.next(1000, TODAY).unwrap(), None);
    assert_eq!(fetch.finish(), map(&[(3, 4)]));
    assert!(matches!(
        LiveFetch::start(map(&[]), Some(Range { start: 2, end: 1 }), TODAY),
        Err(FitbitError::DateOutOfRange(_))
    ));
    assert!(matches!(
        LiveFetch::start(map(&[]), Some(Range { start: 2, end: TODAY + 1 }), TODAY),
        Err(FitbitError::DateOutOfRange(_))
    ));
}

#[test]
fn outcomes_become_responses() {
    let user = DatabaseUser {
        id: "u".to_string(),
        fitbit_user_id: "F".to_string(),
        fitbit_access_token: "a".to_string(),
        fitbit_refresh_token: "r".to_string(),
        fitbit_token_expires_at: NOW,
    };
    assert_eq!(found_user(Some(user)).unwrap().fitbit_user_id, "F");
    assert!(matches!(found_user(None), Err(FitbitError::UserNotFound)));
    assert!(matches!(steps_response(Ok(map(&[(1, 2)]))), Response::Steps(steps) if steps == map(&[(1, 2)])));
    assert!(matches!(
        steps_response(Err(FitbitError::ExpiredToken)),
        Response::Error(FitbitError::ExpiredToken)
    ));
    assert!(matches!(refresh_response(Ok(("a".to_string(), "r".to_string()))), Response::Refreshed));
    assert!(matches!(
        refresh_response(Err(FitbitError::RejectedToken)),
        Response::Error(FitbitError::RejectedToken)
    ));
}
