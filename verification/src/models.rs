//! The values that pass between the parts of the service: commands and
//! responses, the periods that the upstream offers, what the upstream
//! answers, and a user's stored credentials.

use crate::dates::{Date, Range};
use crate::errors::FitbitError;
use std::collections::HashMap;
use vstd::prelude::*;

verus! {

/// The spans of time that the upstream can be asked for in one call.
#[derive(Clone, Copy, Debug, PartialEq, Eq, Structural)]
pub enum Period {
    OneDay,
    OneWeek,
    OneMonth,
    ThreeMonths,
    SixMonths,
    OneYear,
}

impl Period {
    /// The period's name on the wire.
    pub open spec fn code(self) -> Seq<char> {
        match self {
            Period::OneDay => "1d"@,
            Period::OneWeek => "1w"@,
            Period::OneMonth => "1m"@,
            Period::ThreeMonths => "3m"@,
            Period::SixMonths => "6m"@,
            Period::OneYear => "1y"@,
        }
    }

    /// The period's name on the wire.
    pub fn to_str(&self) -> (code: &'static str)
        ensures
            code@ == self.code(),
    {
        match self {
            Period::OneDay => "1d",
            Period::OneWeek => "1w",
            Period::OneMonth => "1m",
            Period::ThreeMonths => "3m",
            Period::SixMonths => "6m",
            Period::OneYear => "1y",
        }
    }
}

/// One error of an upstream error answer.
#[derive(Debug, Clone)]
pub struct ErrorDetail {
    pub error_type: String,
    pub message: String,
}

/// An upstream answer that reports errors.
#[derive(Debug, Clone)]
pub struct ErrorResponse {
    pub errors: Vec<ErrorDetail>,
    pub success: bool,
}

/// The upstream's answer to a token refresh.
#[derive(Debug, Clone)]
pub struct TokenResponse {
    pub access_token: String,
    pub expires_in: i32,
    pub refresh_token: String,
    pub scope: String,
    pub token_type: String,
    pub user_id: String,
}

/// One day of an upstream list of step counts, as text: the day as
/// `year-month-day` and the count in base ten.
#[derive(Debug, Clone)]
pub struct StepRecord {
    pub date_time: String,
    pub value: String,
}

/// An upstream answer that reports success: either lists of days, each
/// under its name, or fresh tokens.
#[derive(Debug, Clone)]
pub enum FitbitSuccess {
    Steps(Vec<(String, Vec<StepRecord>)>),
    Refresh(TokenResponse),
}

/// An upstream answer.
#[derive(Debug, Clone)]
pub enum FitbitResponse {
    Success(FitbitSuccess),
    Error(ErrorResponse),
}

/// A request to the service.
#[derive(Debug, Clone)]
pub enum Command {
    GetSteps(String, Range),
    RefreshToken(String),
}

/// What a command is, with text as a sequence of characters.
pub enum CommandView {
    GetSteps(Seq<char>, Range),
    RefreshToken(Seq<char>),
}

impl View for Command {
    type V = CommandView;

    open spec fn view(&self) -> CommandView {
        match self {
            Command::GetSteps(user, range) => CommandView::GetSteps(user@, *range),
            Command::RefreshToken(user) => CommandView::RefreshToken(user@),
        }
    }
}

/// The service's answer to a command.
#[derive(Debug, Clone)]
pub enum Response {
    Steps(HashMap<Date, u32>),
    Refreshed,
    Error(FitbitError),
}

/// A user's credentials as the credential store holds them. The expiry is an
/// instant in seconds.
#[derive(Debug, Clone)]
pub struct DatabaseUser {
    pub id: String,
    pub fitbit_user_id: String,
    pub fitbit_access_token: String,
    pub fitbit_refresh_token: String,
    pub fitbit_token_expires_at: i64,
}

} // verus!
