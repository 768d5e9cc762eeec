//! Calendar text for stored times: the UTC day and month of a time, as chrono writes them.

use vstd::prelude::*;

verus! {

/// What chrono writes with `%Y-%m-%d` for the UTC time `t` (microseconds since the
/// epoch), or `None` when `t` is outside chrono's range of dates.
pub uninterp spec fn utc_day(t: i64) -> Option<Seq<char>>;

/// What chrono writes with `%Y-%m` for the UTC time `t` (microseconds since the
/// epoch), or `None` when `t` is outside chrono's range of dates.
pub uninterp spec fn utc_month(t: i64) -> Option<Seq<char>>;

/// `DateTime::<Utc>::from_timestamp_micros(t)` formatted with `%Y-%m-%d`. The text is
/// named `utc_day(t)`: the same time always gives the same text. Nothing more about
/// the calendar is stated.
#[verifier::external_body]
pub(crate) fn day_text(t: i64) -> (r: Option<String>)
    ensures
        match r {
            Some(s) => utc_day(t) == Some(s@),
            None => utc_day(t) is None,
        },
{
    match chrono::DateTime::from_timestamp_micros(t) {
        Some(d) => Some(d.format("%Y-%m-%d").to_string()),
        None => None,
    }
}

/// `DateTime::<Utc>::from_timestamp_micros(t)` formatted with `%Y-%m`. The text is
/// named `utc_month(t)`: the same time always gives the same text. Nothing more
/// about the calendar is stated.
#[verifier::external_body]
pub(crate) fn month_text(t: i64) -> (r: Option<String>)
    ensures
        match r {
            Some(s) => utc_month(t) == Some(s@),
            None => utc_month(t) is None,
        },
{
    match chrono::DateTime::from_timestamp_micros(t) {
        Some(d) => Some(d.format("%Y-%m").to_string()),
        None => None,
    }
}

/// What chrono's `to_rfc3339` writes for the UTC time `t` (microseconds since the
/// epoch), or `None` when `t` is outside chrono's range of dates.
pub uninterp spec fn utc_rfc3339(t: i64) -> Option<Seq<char>>;

/// What chrono writes with `%Y-%m-%d %H:%M UTC` for the UTC time `t` (microseconds
/// since the epoch), or `None` when `t` is outside chrono's range of dates.
pub uninterp spec fn utc_minute(t: i64) -> Option<Seq<char>>;

/// `DateTime::<Utc>::from_timestamp_micros(t)` written by `to_rfc3339`. The text is
/// named `utc_rfc3339(t)`: the same time always gives the same text. Nothing more
/// about the calendar is stated.
#[verifier::external_body]
pub(crate) fn rfc3339_text(t: i64) -> (r: Option<String>)
    ensures
        match r {
            Some(s) => utc_rfc3339(t) == Some(s@),
            None => utc_rfc3339(t) is None,
        },
{
    match chrono::DateTime::from_timestamp_micros(t) {
        Some(d) => Some(d.to_rfc3339()),
        None => None,
    }
}

/// `DateTime::<Utc>::from_timestamp_micros(t)` formatted with `%Y-%m-%d %H:%M UTC`.
/// The text is named `utc_minute(t)`: the same time always gives the same text.
/// Nothing more about the calendar is stated.
#[verifier::external_body]
pub(crate) fn minute_text(t: i64) -> (r: Option<String>)
    ensures
        match r {
            Some(s) => utc_minute(t) == Some(s@),
            None => utc_minute(t) is None,
        },
{
    match chrono::DateTime::from_timestamp_micros(t) {
        Some(d) => Some(d.format("%Y-%m-%d %H:%M UTC").to_string()),
        None => None,
    }
}

/// What chrono's `Display` writes for the UTC time `t` (microseconds since the
/// epoch), such as `2024-01-02 03:04:05.000006 UTC`, or `None` when `t` is outside
/// chrono's range of dates.
pub uninterp spec fn utc_display(t: i64) -> Option<Seq<char>>;

/// `DateTime::<Utc>::from_timestamp_micros(t)` written by `to_string`. The text is
/// named `utc_display(t)`: the same time always gives the same text. Nothing more
/// about the calendar is stated.
#[verifier::external_body]
pub(crate) fn display_text(t: i64) -> (r: Option<String>)
    ensures
        match r {
            Some(s) => utc_display(t) == Some(s@),
            None => utc_display(t) is None,
        },
{
    match chrono::DateTime::from_timestamp_micros(t) {
        Some(d) => Some(d.to_string()),
        None => None,
    }
}

} // verus!
