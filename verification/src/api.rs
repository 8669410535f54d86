//! What is sent to the upstream and what its answers mean: the address and
//! the credentials of a request, the step counts or the failure that an
//! answer to a fetch stands for, and the tokens or the failure that an answer
//! to a refresh stands for.

use crate::dates::Date;
use crate::errors::{outcome, ErrorKind, FitbitError};
use crate::models::{ErrorResponse, FitbitResponse, FitbitSuccess, Period, StepRecord, TokenResponse};
use crate::text::{parse_u32, parse_u32_spec, spells, to_chars};
use std::collections::HashMap;
use vstd::prelude::*;
use vstd::string::*;
use vstd::utf8::encode_utf8;

verus! {

/// The day that a text of the form `year-month-day` names, as
/// `chrono::NaiveDate::parse_from_str` reads it with the format `%Y-%m-%d`;
/// `None` where that function reports an error.
pub uninterp spec fn day_of_text(text: Seq<char>) -> Option<Date>;

/// The text that chrono writes for a day with the format `%Y-%m-%d`; `None`
/// for a day that chrono's calendar does not have.
pub uninterp spec fn text_of_day(day: Date) -> Option<Seq<char>>;

/// The text that `base64`'s engine `STANDARD_NO_PAD` writes for the bytes.
pub uninterp spec fn base64_text(bytes: Seq<u8>) -> Seq<char>;

/// `chrono::NaiveDate::parse_from_str` with the format `%Y-%m-%d`, followed
/// by `NaiveDate::to_epoch_days`: the day that the text names.
#[verifier::external_body]
fn read_day(text: &str) -> (day: Option<Date>)
    ensures
        day == day_of_text(text@),
{
    match chrono::NaiveDate::parse_from_str(text, "%Y-%m-%d") {
        Ok(date) => Some(date.to_epoch_days()),
        Err(_) => None,
    }
}

/// `chrono::NaiveDate::from_epoch_days`, followed by `NaiveDate::format`
/// with the format `%Y-%m-%d`: the text for the day.
#[verifier::external_body]
fn write_day(day: Date) -> (text: Option<String>)
    ensures
        text is Some <==> text_of_day(day) is Some,
        text matches Some(written) ==> text_of_day(day) == Some(written@),
{
    match chrono::NaiveDate::from_epoch_days(day) {
        Some(date) => Some(date.format("%Y-%m-%d").to_string()),
        None => None,
    }
}

/// `base64::Engine::encode` of the engine `STANDARD_NO_PAD`. The function
/// panics where the length of its result overflows, which an input of at
/// most half the address space cannot cause.
#[verifier::external_body]
fn write_base64(bytes: &[u8]) -> (text: String)
    requires
        bytes@.len() <= usize::MAX / 2,
    ensures
        text@ == base64_text(bytes@),
{
    base64::Engine::encode(&base64::engine::general_purpose::STANDARD_NO_PAD, bytes)
}

/// The address from which the step counts of the days up to `date` are
/// fetched; the period says how many days.
pub open spec fn steps_url_text(user_id: Seq<char>, date: Seq<char>, period: Period) -> Seq<char> {
    "https://api.fitbit.com/1/user/"@ + user_id + "/activities/steps/date/"@ + date + "/"@
        + period.code() + ".json?timezone=UTC"@
}

/// The address from which the step counts of the days up to `date` are
/// fetched, or `None` for a day that has no text.
pub fn steps_url(user_id: &str, date: Date, period: Period) -> (url: Option<String>)
    ensures
        match text_of_day(date) {
            Some(day) => url matches Some(written) && written@ == steps_url_text(
                user_id@,
                day,
                period,
            ),
            None => url is None,
        },
{
    let day = match write_day(date) {
        Some(day) => day,
        None => {
            return None;
        },
    };
    Some(steps_url_on(user_id, day.as_str(), period))
}

/// The address from which the step counts of the days up to the day written
/// as `day` are fetched.
pub fn steps_url_on(user_id: &str, day: &str, period: Period) -> (url: String)
    ensures
        url@ == steps_url_text(user_id@, day@, period),
{
    let mut url = "https://api.fitbit.com/1/user/".to_owned();
    url.append(user_id);
    url.append("/activities/steps/date/");
    url.append(day);
    url.append("/");
    url.append(period.to_str());
    url.append(".json?timezone=UTC");
    url
}

/// The address at which tokens are exchanged.
pub fn token_url() -> (url: &'static str)
    ensures
        url@ == "https://api.fitbit.com/oauth2/token"@,
{
    "https://api.fitbit.com/oauth2/token"
}

/// The credentials of a request made with a user's access token.
pub fn bearer_authorization(access_token: &str) -> (header: String)
    ensures
        header@ == "Bearer "@ + access_token@,
{
    let mut header = "Bearer ".to_owned();
    header.append(access_token);
    header
}

/// The credentials of a token exchange: the word `Basic` and the client's
/// identifier and secret, joined by a colon and written in base64 without
/// padding. `None` where the two are too long for the address space.
pub fn basic_authorization(client_id: &str, client_secret: &str) -> (header: Option<String>)
    ensures
        header matches Some(written) ==> written@ == "Basic "@ + base64_text(
            encode_utf8(client_id@ + ":"@ + client_secret@),
        ),
        header is Some <==> encode_utf8(client_id@ + ":"@ + client_secret@).len() <= usize::MAX
            / 2,
{
    let mut joined = client_id.to_owned();
    joined.append(":");
    joined.append(client_secret);
    let bytes = joined.as_str().as_bytes();
    if bytes.len() > usize::MAX / 2 {
        return None;
    }
    let encoded = write_base64(bytes);
    Some(basic_header(encoded.as_str()))
}

/// The credentials of a token exchange, given the client's identifier and
/// secret as they are written in base64.
pub fn basic_header(encoded: &str) -> (header: String)
    ensures
        header@ == "Basic "@ + encoded@,
{
    let mut header = "Basic ".to_owned();
    header.append(encoded);
    header
}

/// The first list that goes under the given name.
pub open spec fn list_named(lists: Seq<(String, Vec<StepRecord>)>, name: Seq<char>) -> Option<
    Vec<StepRecord>,
>
    decreases lists.len(),
{
    if lists.len() == 0 {
        None
    } else if lists[0].0@ == name {
        Some(lists[0].1)
    } else {
        list_named(lists.skip(1), name)
    }
}

/// What one record says: a day and a count, or the reason why it says none.
/// The day is read before the count.
pub open spec fn record_entry(record: StepRecord) -> Result<(Date, u32), Seq<char>> {
    entry_of(day_of_text(record.date_time@), record.value@)
}

/// What a list of records says: the count of each day, a later record
/// replacing an earlier one for the same day, or the reason why the first
/// record that cannot be read says nothing.
pub open spec fn records_steps(records: Seq<StepRecord>) -> Result<Map<Date, u32>, Seq<char>>
    decreases records.len(),
{
    if records.len() == 0 {
        Ok(Map::<Date, u32>::empty())
    } else {
        match records_steps(records.drop_last()) {
            Err(reason) => Err(reason),
            Ok(steps) => match record_entry(records.last()) {
                Err(reason) => Err(reason),
                Ok((day, count)) => Ok(steps.insert(day, count)),
            },
        }
    }
}

/// What the first error of an error answer stands for when days were asked
/// for: an expired token where it names one, and else the upstream's own
/// message. An answer without errors cannot be read.
pub open spec fn fetch_failure(answer: ErrorResponse) -> (ErrorKind, Seq<char>) {
    if answer.errors@.len() == 0 {
        (ErrorKind::ParsingError, "Empty error list"@)
    } else if answer.errors@[0].error_type@ == "expired_token"@ {
        (ErrorKind::ExpiredToken, Seq::<char>::empty())
    } else {
        (ErrorKind::FitbitApiError, answer.errors@[0].message@)
    }
}

/// What an answer to a fetch stands for: the step counts of the list named
/// `activities-steps`, or a failure.
pub open spec fn steps_of_response(response: FitbitResponse) -> Result<
    Map<Date, u32>,
    (ErrorKind, Seq<char>),
> {
    match response {
        FitbitResponse::Error(answer) => Err(fetch_failure(answer)),
        FitbitResponse::Success(FitbitSuccess::Refresh(_)) => Err(
            (ErrorKind::ParsingError, "Failed to parse response"@),
        ),
        FitbitResponse::Success(FitbitSuccess::Steps(lists)) => match list_named(
            lists@,
            "activities-steps"@,
        ) {
            None => Err((ErrorKind::ParsingError, "No steps found"@)),
            Some(records) => if records@.len() == 0 {
                Err((ErrorKind::ParsingError, "No steps found"@))
            } else {
                match records_steps(records@) {
                    Ok(steps) => Ok(steps),
                    Err(reason) => Err((ErrorKind::ParsingError, reason)),
                }
            },
        },
    }
}

/// What a record says whose day, read as `year-month-day`, is `day`: that
/// day and the count, or the reason why it says none.
pub open spec fn entry_of(day: Option<Date>, value: Seq<char>) -> Result<(Date, u32), Seq<char>> {
    match day {
        None => Err("Failed to parse date"@),
        Some(day) => match parse_u32_spec(value) {
            None => Err("Failed to parse value"@),
            Some(count) => Ok((day, count)),
        },
    }
}

/// Reads a record whose day has been read already.
pub fn step_entry(day: Option<Date>, value: &str) -> (result: Result<(Date, u32), FitbitError>)
    ensures
        match entry_of(day, value@) {
            Ok(entry) => result == Ok::<(Date, u32), FitbitError>(entry),
            Err(reason) => outcome(result) == Err::<(Date, u32), _>(
                (ErrorKind::ParsingError, reason),
            ),
        },
{
    let day = match day {
        Some(day) => day,
        None => {
            return Err(FitbitError::ParsingError("Failed to parse date".to_owned()));
        },
    };
    let text = to_chars(value);
    match parse_u32(&text) {
        Some(count) => Ok((day, count)),
        None => Err(FitbitError::ParsingError("Failed to parse value".to_owned())),
    }
}

/// Reads the records of a list of days.
pub fn parse_steps(records: &Vec<StepRecord>) -> (result: Result<HashMap<Date, u32>, FitbitError>)
    ensures
        match records_steps(records@) {
            Ok(steps) => result matches Ok(parsed) && parsed@ == steps,
            Err(reason) => outcome(result) == Err::<HashMap<Date, u32>, _>(
                (ErrorKind::ParsingError, reason),
            ),
        },
{
    broadcast use vstd::std_specs::hash::group_hash_axioms;

    let mut parsed: HashMap<Date, u32> = HashMap::new();
    let mut i: usize = 0;
    while i < records.len()
        invariant
            i <= records.len(),
            records_steps(records@.take(i as int)) == Ok::<Map<Date, u32>, Seq<char>>(parsed@),
        decreases records.len() - i,
    {
        proof {
            let upto = records@.take(i + 1);
            assert(upto.drop_last() == records@.take(i as int));
            assert(upto.last() == records@[i as int]);
        }
        let named = read_day(records[i].date_time.as_str());
        let (day, count) = match step_entry(named, records[i].value.as_str()) {
            Ok(entry) => entry,
            Err(error) => {
                proof {
                    lemma_first_failure(records@, i as int + 1);
                }
                return Err(error);
            },
        };
        parsed.insert(day, count);
        i += 1;
    }
    assert(records@.take(records.len() as int) == records@);
    Ok(parsed)
}

/// Once a record cannot be read, the records after it change nothing.
proof fn lemma_first_failure(records: Seq<StepRecord>, n: int)
    requires
        0 <= n <= records.len(),
        records_steps(records.take(n)) is Err,
    ensures
        records_steps(records) == records_steps(records.take(n)),
    decreases records.len() - n,
{
    if n < records.len() {
        let upto = records.take(n + 1);
        assert(upto.drop_last() == records.take(n));
        lemma_first_failure(records, n + 1);
    } else {
        assert(records.take(n) == records);
    }
}

/// Finds the first list that goes under the given name.
fn find_list<'a>(lists: &'a Vec<(String, Vec<StepRecord>)>, name: &str) -> (found: Option<
    &'a Vec<StepRecord>,
>)
    ensures
        match list_named(lists@, name@) {
            Some(list) => found matches Some(at) && *at == list,
            None => found is None,
        },
{
    let mut i: usize = 0;
    assert(lists@.skip(0) == lists@);
    while i < lists.len()
        invariant
            i <= lists.len(),
            list_named(lists@, name@) == list_named(lists@.skip(i as int), name@),
        decreases lists.len() - i,
    {
        let key = to_chars(lists[i].0.as_str());
        assert(lists@.skip(i as int)[0] == lists@[i as int]);
        if spells(&key, name) {
            return Some(&lists[i].1);
        }
        assert(lists@.skip(i as int).skip(1) == lists@.skip(i + 1));
        i += 1;
    }
    None
}

/// Turns the upstream's answer to a fetch into step counts or a failure.
pub fn steps_from_response(response: &FitbitResponse) -> (result: Result<
    HashMap<Date, u32>,
    FitbitError,
>)
    ensures
        match steps_of_response(*response) {
            Ok(steps) => result matches Ok(parsed) && parsed@ == steps,
            Err(failure) => outcome(result) == Err::<HashMap<Date, u32>, _>(failure),
        },
{
    match response {
        FitbitResponse::Error(answer) => {
            if answer.errors.len() == 0 {
                return Err(FitbitError::ParsingError("Empty error list".to_owned()));
            }
            let kind = to_chars(answer.errors[0].error_type.as_str());
            if spells(&kind, "expired_token") {
                Err(FitbitError::ExpiredToken)
            } else {
                Err(FitbitError::FitbitApiError(answer.errors[0].message.clone()))
            }
        },
        FitbitResponse::Success(FitbitSuccess::Refresh(_)) => Err(
            FitbitError::ParsingError("Failed to parse response".to_owned()),
        ),
        FitbitResponse::Success(FitbitSuccess::Steps(lists)) => {
            match find_list(lists, "activities-steps") {
                None => Err(FitbitError::ParsingError("No steps found".to_owned())),
                Some(records) => {
                    if records.len() == 0 {
                        Err(FitbitError::ParsingError("No steps found".to_owned()))
                    } else {
                        parse_steps(records)
                    }
                },
            }
        },
    }
}

/// What an answer to a token exchange stands for: the fresh tokens, or a
/// failure. An answer that reports errors means that the upstream rejected
/// the exchange.
pub open spec fn tokens_of_response(response: FitbitResponse) -> Result<
    TokenResponse,
    (ErrorKind, Seq<char>),
> {
    match response {
        FitbitResponse::Success(FitbitSuccess::Refresh(tokens)) => Ok(tokens),
        FitbitResponse::Success(FitbitSuccess::Steps(_)) => Err(
            (ErrorKind::ParsingError, "Failed to parse response"@),
        ),
        FitbitResponse::Error(answer) => if answer.errors@.len() == 0 {
            Err((ErrorKind::ParsingError, "Empty error list"@))
        } else {
            Err((ErrorKind::RejectedToken, Seq::<char>::empty()))
        },
    }
}

/// Turns the upstream's answer to a token exchange into tokens or a
/// failure.
pub fn tokens_from_response(response: FitbitResponse) -> (result: Result<
    TokenResponse,
    FitbitError,
>)
    ensures
        outcome(result) == tokens_of_response(response),
{
    match response {
        FitbitResponse::Success(FitbitSuccess::Refresh(tokens)) => Ok(tokens),
        FitbitResponse::Success(FitbitSuccess::Steps(_)) => Err(
            FitbitError::ParsingError("Failed to parse response".to_owned()),
        ),
        FitbitResponse::Error(answer) => {
            if answer.errors.len() == 0 {
                Err(FitbitError::ParsingError("Empty error list".to_owned()))
            } else {
                Err(FitbitError::RejectedToken)
            }
        },
    }
}

/// Whether a token has to be refreshed before it is used: when the
/// credential store says that it has expired. Where the store does not know,
/// the token is used as it is.
pub fn needs_refresh(token_expired: Option<bool>) -> (refresh: bool)
    ensures
        refresh == (token_expired == Some(true)),
{
    match token_expired {
        Some(expired) => expired,
        None => false,
    }
}

/// Whether a token that expires at `expires_at` has expired at `now`.
pub fn token_expired(expires_at: i64, now: i64) -> (expired: bool)
    ensures
        expired == (expires_at < now),
{
    expires_at < now
}

/// The instant at which a token expires that was issued at `now` for
/// `expires_in` seconds.
pub fn token_expiry(now: i64, expires_in: i32) -> (expires_at: i64)
    requires
        i64::MIN <= now + expires_in <= i64::MAX,
    ensures
        expires_at == now + expires_in,
{
    now + expires_in as i64
}

} // verus!
