//! What can go wrong while a command is served.

use vstd::prelude::*;
use vstd::string::*;

verus! {

/// The failures of the service. A variant that reports the failure of a
/// collaborator carries that collaborator's own description of it.
#[derive(Debug, Clone)]
pub enum FitbitError {
    HttpRequestError(String),
    FitbitApiError(String),
    CacheError(String),
    ExpiredToken,
    RejectedToken,
    ParsingError(String),
    DateOutOfRange(String),
    RateLimitExceeded(String),
    RedisError(String),
    RedisPoolError(String),
    PostgresError(String),
    TypeConversionError(String),
    InvalidMessage(String),
    UserNotFound,
}

/// The variants of `FitbitError` without what they carry.
#[derive(Clone, Copy, Debug, PartialEq, Eq, Structural)]
pub enum ErrorKind {
    HttpRequestError,
    FitbitApiError,
    CacheError,
    ExpiredToken,
    RejectedToken,
    ParsingError,
    DateOutOfRange,
    RateLimitExceeded,
    RedisError,
    RedisPoolError,
    PostgresError,
    TypeConversionError,
    InvalidMessage,
    UserNotFound,
}

impl FitbitError {
    /// Which failure this is.
    pub open spec fn kind(&self) -> ErrorKind {
        match self {
            FitbitError::HttpRequestError(_) => ErrorKind::HttpRequestError,
            FitbitError::FitbitApiError(_) => ErrorKind::FitbitApiError,
            FitbitError::CacheError(_) => ErrorKind::CacheError,
            FitbitError::ExpiredToken => ErrorKind::ExpiredToken,
            FitbitError::RejectedToken => ErrorKind::RejectedToken,
            FitbitError::ParsingError(_) => ErrorKind::ParsingError,
            FitbitError::DateOutOfRange(_) => ErrorKind::DateOutOfRange,
            FitbitError::RateLimitExceeded(_) => ErrorKind::RateLimitExceeded,
            FitbitError::RedisError(_) => ErrorKind::RedisError,
            FitbitError::RedisPoolError(_) => ErrorKind::RedisPoolError,
            FitbitError::PostgresError(_) => ErrorKind::PostgresError,
            FitbitError::TypeConversionError(_) => ErrorKind::TypeConversionError,
            FitbitError::InvalidMessage(_) => ErrorKind::InvalidMessage,
            FitbitError::UserNotFound => ErrorKind::UserNotFound,
        }
    }

    /// The text that the failure carries; empty for a variant without one.
    pub open spec fn detail(&self) -> Seq<char> {
        match self {
            FitbitError::HttpRequestError(e) => e@,
            FitbitError::FitbitApiError(e) => e@,
            FitbitError::CacheError(e) => e@,
            FitbitError::ExpiredToken => Seq::<char>::empty(),
            FitbitError::RejectedToken => Seq::<char>::empty(),
            FitbitError::ParsingError(e) => e@,
            FitbitError::DateOutOfRange(e) => e@,
            FitbitError::RateLimitExceeded(e) => e@,
            FitbitError::RedisError(e) => e@,
            FitbitError::RedisPoolError(e) => e@,
            FitbitError::PostgresError(e) => e@,
            FitbitError::TypeConversionError(e) => e@,
            FitbitError::InvalidMessage(e) => e@,
            FitbitError::UserNotFound => Seq::<char>::empty(),
        }
    }

    /// The words that introduce a failure of the given kind.
    pub open spec fn heading(kind: ErrorKind) -> Seq<char> {
        match kind {
            ErrorKind::HttpRequestError => "HTTP request failed: "@,
            ErrorKind::FitbitApiError => "Fitbit API error: "@,
            ErrorKind::CacheError => "Cache error: "@,
            ErrorKind::ExpiredToken => "Token expired"@,
            ErrorKind::RejectedToken => "Token rejected"@,
            ErrorKind::ParsingError => "Parsing error: "@,
            ErrorKind::DateOutOfRange => "Date out of range: "@,
            ErrorKind::RateLimitExceeded => "Rate limit exceeded: "@,
            ErrorKind::RedisError => "Redis error: "@,
            ErrorKind::RedisPoolError => "Redis pool error: "@,
            ErrorKind::PostgresError => "Postgres error: "@,
            ErrorKind::TypeConversionError => "Type conversion error: "@,
            ErrorKind::InvalidMessage => "Invalid message: "@,
            ErrorKind::UserNotFound => "User not found"@,
        }
    }

    /// The one line that a requester is shown for the failure.
    pub open spec fn display(&self) -> Seq<char> {
        Self::heading(self.kind()) + self.detail()
    }

    /// The one line that a requester is shown for the failure.
    pub fn to_string(&self) -> (line: String)
        ensures
            line@ == self.display(),
    {
        match self {
            FitbitError::HttpRequestError(e) => headed("HTTP request failed: ", e),
            FitbitError::FitbitApiError(e) => headed("Fitbit API error: ", e),
            FitbitError::CacheError(e) => headed("Cache error: ", e),
            FitbitError::ExpiredToken => bare("Token expired"),
            FitbitError::RejectedToken => bare("Token rejected"),
            FitbitError::ParsingError(e) => headed("Parsing error: ", e),
            FitbitError::DateOutOfRange(e) => headed("Date out of range: ", e),
            FitbitError::RateLimitExceeded(e) => headed("Rate limit exceeded: ", e),
            FitbitError::RedisError(e) => headed("Redis error: ", e),
            FitbitError::RedisPoolError(e) => headed("Redis pool error: ", e),
            FitbitError::PostgresError(e) => headed("Postgres error: ", e),
            FitbitError::TypeConversionError(e) => headed("Type conversion error: ", e),
            FitbitError::InvalidMessage(e) => headed("Invalid message: ", e),
            FitbitError::UserNotFound => bare("User not found"),
        }
    }
}

/// A result with its error reduced to the kind of failure and its text.
pub open spec fn outcome<T>(result: Result<T, FitbitError>) -> Result<T, (ErrorKind, Seq<char>)> {
    match result {
        Ok(value) => Ok(value),
        Err(error) => Err((error.kind(), error.detail())),
    }
}

/// A heading followed by a detail.
fn headed(heading: &str, detail: &String) -> (line: String)
    ensures
        line@ == heading@ + detail@,
{
    let mut line = heading.to_owned();
    line.append(detail.as_str());
    line
}

/// A heading alone.
fn bare(heading: &str) -> (line: String)
    ensures
        line@ == heading@ + Seq::<char>::empty(),
{
    let line = heading.to_owned();
    assert(line@ == heading@ + Seq::<char>::empty());
    line
}

} // verus!
