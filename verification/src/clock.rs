//! The wall clock, through the `chrono` crate. Nothing is promised of the
//! values beyond their ranges and shapes: the time depends on the machine.

use vstd::prelude::*;

verus! {

/// Relies on `chrono::Utc::now` and `%Y-%m-%d` formatting: the current UTC
/// date as `YYYY-MM-DD`, at least ten characters.
#[verifier::external_body]
pub(crate) fn today_date_string() -> (r: String)
    ensures
        r@.len() >= 10,
{
    chrono::Utc::now().date_naive().format("%Y-%m-%d").to_string()
}

/// Relies on `chrono::NaiveDate::pred_opt` and `%Y-%m-%d` formatting: the
/// UTC date one day before today, at least ten characters.
#[verifier::external_body]
pub(crate) fn yesterday_date_string() -> (r: String)
    ensures
        r@.len() >= 10,
{
    let today = chrono::Utc::now().date_naive();
    let day = today.pred_opt().unwrap_or(today);
    day.format("%Y-%m-%d").to_string()
}

/// Relies on `chrono::Timelike`: the current UTC time of day, with the hour
/// under 24 and the minute and second under 60.
#[verifier::external_body]
pub(crate) fn utc_time_of_day() -> (r: (u8, u8, u8))
    ensures
        r.0 < 24,
        r.1 < 60,
        r.2 < 60,
{
    let now = chrono::Utc::now();
    let (h, m, sec) = (
        chrono::Timelike::hour(&now),
        chrono::Timelike::minute(&now),
        chrono::Timelike::second(&now),
    );
    (h as u8, m as u8, (sec % 60) as u8)
}

} // verus!
