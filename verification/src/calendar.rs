//! Calendar dates and their instants in a time zone.

use chrono::TimeZone;
use vstd::prelude::*;

verus! {

/// The calendar date that `text` holds when it is read by the format
/// `format`, as the number of its day counted from January 1 of the year 1;
/// `None` where `text` is no date in that format.
pub uninterp spec fn parsed_date(text: Seq<char>, format: Seq<char>) -> Option<i32>;

/// What the clocks of a time zone say of a local time. Instants are in
/// seconds since the Unix epoch.
#[derive(Clone, Copy, Debug, PartialEq, Eq, Structural)]
pub enum LocalInstant {
    /// The clocks never show the time: they are set forward over it.
    Never,
    /// The clocks show the time once, at this instant.
    Once(i64),
    /// The clocks show the time twice, at these instants: they are set
    /// back over it.
    Twice(i64, i64),
}

/// The instants at which the clocks of the time zone `zone` show the given
/// time on the given day (counted from January 1 of the year 1); `None`
/// where the zone or the day is unknown, or the time is no time of a day.
pub uninterp spec fn local_instant(
    zone: Seq<char>,
    day: i32,
    hour: u32,
    minute: u32,
    second: u32,
) -> Option<LocalInstant>;

/// The instant that a local time denotes: the one at which the clocks show
/// it, when they show it once. A time that is shown never or twice, or
/// that is not known at all, denotes none.
pub open spec fn single_instant(local: Option<LocalInstant>) -> Option<i64> {
    match local {
        Some(LocalInstant::Once(at)) => Some(at),
        _ => None,
    }
}

/// Gives the instant that a local time denotes, when it denotes a single
/// one.
pub fn the_instant(local: Option<LocalInstant>) -> (at: Option<i64>)
    ensures
        at == single_instant(local),
{
    match local {
        Some(LocalInstant::Once(at)) => Some(at),
        Some(LocalInstant::Never) => None,
        Some(LocalInstant::Twice(_, _)) => None,
        None => None,
    }
}

/// Reads a calendar date written in the given format.
///
/// Trusted: calls `chrono::NaiveDate::parse_from_str`, and hands the date
/// out as the number that `Datelike::num_days_from_ce` gives for it. The
/// result depends on the arguments alone, so it is given a name; nothing
/// else is claimed of it.
#[verifier::external_body]
pub(crate) fn parse_date(text: &str, format: &str) -> (day: Option<i32>)
    ensures
        day == parsed_date(text@, format@),
{
    chrono::NaiveDate::parse_from_str(text, format).ok().map(
        |date| chrono::Datelike::num_days_from_ce(&date),
    )
}

/// Finds the instants that a local time of a time zone denotes.
///
/// Trusted: finds the zone by its name in the data base of `chrono_tz`,
/// builds the local time with `NaiveDate::from_num_days_from_ce_opt` and
/// `NaiveDate::and_hms_opt`, and calls `TimeZone::from_local_datetime`. Each
/// of the three results of that call is handed out as it is, with its
/// instants as `DateTime::timestamp` gives them. The result depends on the
/// arguments alone, so it is given a name; nothing else is claimed of it.
#[verifier::external_body]
pub(crate) fn instant_of_local(zone: &str, day: i32, hour: u32, minute: u32, second: u32) -> (found:
    Option<LocalInstant>)
    ensures
        found == local_instant(zone@, day, hour, minute, second),
{
    let zone: chrono_tz::Tz = zone.parse().ok()?;
    let date = chrono::NaiveDate::from_num_days_from_ce_opt(day)?;
    let local = date.and_hms_opt(hour, minute, second)?;
    Some(
        match zone.from_local_datetime(&local) {
            chrono::LocalResult::Single(at) => LocalInstant::Once(at.timestamp()),
            chrono::LocalResult::Ambiguous(early, late) => LocalInstant::Twice(
                early.timestamp(),
                late.timestamp(),
            ),
            chrono::LocalResult::None => LocalInstant::Never,
        },
    )
}

/// Reads the clock.
///
/// Trusted: calls `chrono::Utc::now` and hands out its seconds since the
/// Unix epoch. Nothing is claimed of the result.
#[verifier::external_body]
pub(crate) fn now() -> (at: i64) {
    chrono::Utc::now().timestamp()
}

} // verus!
