//! Day serials: the numbers by which a spreadsheet counts days, and the
//! timestamps they stand for.

use vstd::prelude::*;

verus! {

/// The pattern of a timestamp: date and time of day to the millisecond, with `T`
/// between them and `Z` behind.
pub const ISO_PATTERN: &'static str = "%Y-%m-%dT%H:%M:%S%.3fZ";

/// Seconds in a day.
pub const SECONDS_PER_DAY: i64 = 86400;

/// The text of the UTC time `seconds` seconds after the start of 1970, written
/// after `pattern`; `None` where the calendar does not reach that time.
pub uninterp spec fn utc_text(seconds: i64, pattern: Seq<char>) -> Option<Seq<char>>;

/// `DateTime::from_timestamp` with no nanoseconds, then `DateTime::format` and
/// `to_string`. The pattern is held to the one of this crate, which is valid:
/// `to_string` panics on one that is not.
#[verifier::external_body]
fn format_utc(seconds: i64, pattern: &str) -> (text: Option<String>)
    requires
        pattern@ == ISO_PATTERN@,
    ensures
        text is Some <==> utc_text(seconds, pattern@) is Some,
        text is Some ==> text.unwrap()@ == utc_text(seconds, pattern@).unwrap(),
{
    chrono::DateTime::from_timestamp(seconds, 0).map(|t| t.format(pattern).to_string())
}

/// The timestamp of the time `seconds` seconds after the start of 1970, in the
/// form `YYYY-MM-DDTHH:MM:SS.sssZ`.
pub open spec fn iso_timestamp(seconds: i64) -> Option<Seq<char>> {
    utc_text(seconds, ISO_PATTERN@)
}

/// Writes the timestamp of a Unix time; `None` where the calendar does not reach it.
pub fn unix_seconds_to_iso_date(seconds: i64) -> (text: Option<String>)
    ensures
        text is Some <==> iso_timestamp(seconds) is Some,
        text is Some ==> text.unwrap()@ == iso_timestamp(seconds).unwrap(),
{
    format_utc(seconds, ISO_PATTERN)
}

/// The day serial of the first day of 1970: 25569 where serials count from 1900,
/// 24107 where they count from 1904.
pub open spec fn epoch_serial(is_1904: bool) -> int {
    if is_1904 {
        24107
    } else {
        25569
    }
}

/// The Unix time of the moment `seconds_of_day` seconds into the day with the
/// serial `days`.
pub open spec fn serial_unix_seconds(days: i32, seconds_of_day: i64, is_1904: bool) -> int {
    (days - epoch_serial(is_1904)) * 86400 + seconds_of_day
}

/// Computes the Unix time of a day serial and the seconds into that day; `None`
/// where an `i64` does not hold it.
pub fn serial_to_unix_seconds(days: i32, seconds_of_day: i64, is_1904: bool) -> (seconds: Option<i64>)
    ensures
        match seconds {
            Some(s) => s == serial_unix_seconds(days, seconds_of_day, is_1904),
            None => serial_unix_seconds(days, seconds_of_day, is_1904) < i64::MIN
                || serial_unix_seconds(days, seconds_of_day, is_1904) > i64::MAX,
        },
{
    let epoch: i64 = if is_1904 {
        24107
    } else {
        25569
    };
    let whole: i64 = (days as i64 - epoch) * SECONDS_PER_DAY;
    whole.checked_add(seconds_of_day)
}

/// The timestamp of the moment `seconds_of_day` seconds into the day with the
/// serial `days`.
pub open spec fn serial_timestamp(days: i32, seconds_of_day: i64, is_1904: bool) -> Option<Seq<char>> {
    let seconds = serial_unix_seconds(days, seconds_of_day, is_1904);
    if i64::MIN <= seconds <= i64::MAX {
        iso_timestamp(seconds as i64)
    } else {
        None
    }
}

/// Writes the timestamp of a day serial and the seconds into that day. Serials
/// count on evenly from their epoch: in the 1900 system, whose day 60 no calendar
/// has, the serials from 61 on fall on their days and those before fall a day early.
pub fn serial_parts_to_iso_date(days: i32, seconds_of_day: i64, is_1904: bool) -> (text: Option<String>)
    ensures
        text is Some <==> serial_timestamp(days, seconds_of_day, is_1904) is Some,
        text is Some ==> text.unwrap()@ == serial_timestamp(
            days,
            seconds_of_day,
            is_1904,
        ).unwrap(),
{
    match serial_to_unix_seconds(days, seconds_of_day, is_1904) {
        Some(seconds) => unix_seconds_to_iso_date(seconds),
        None => None,
    }
}

} // verus!
