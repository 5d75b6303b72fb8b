//! How long ago a message was received, in words.

use crate::decimal::{decimal, format_decimal};
use vstd::prelude::*;
use vstd::string::*;

verus! {

/// The seconds of a minute.
pub const MINUTE: i64 = 60;

/// The seconds of an hour.
pub const HOUR: i64 = 3600;

/// The seconds of a day.
pub const DAY: i64 = 86400;

/// The words for a time that lies `elapsed` seconds back: whole minutes
/// under an hour, whole hours under a day, whole days under thirty days,
/// months of thirty days under a year of 365 days, and such years beyond.
/// Less than a minute, or a time yet to come, is "just now".
pub open spec fn relative_label(elapsed: int) -> Seq<char> {
    if elapsed < MINUTE {
        "just now"@
    } else if elapsed < HOUR {
        decimal(elapsed / MINUTE as int) + " minutes ago"@
    } else if elapsed < DAY {
        decimal(elapsed / HOUR as int) + " hours ago"@
    } else if elapsed < 30 * DAY {
        decimal(elapsed / DAY as int) + " days ago"@
    } else if elapsed < 365 * DAY {
        decimal(elapsed / DAY as int / 30) + " months ago"@
    } else {
        decimal(elapsed / DAY as int / 365) + " years ago"@
    }
}

/// Says how long before `now` the time `timestamp` lies, both in seconds
/// since the epoch.
pub fn relative_time(now: i64, timestamp: i64) -> (label: String)
    ensures
        label@ == relative_label(now - timestamp),
{
    let elapsed: i128 = now as i128 - timestamp as i128;
    if elapsed < MINUTE as i128 {
        return String::from_str("just now");
    }
    let (count, unit): (i128, &str) = if elapsed < HOUR as i128 {
        (elapsed / MINUTE as i128, " minutes ago")
    } else if elapsed < DAY as i128 {
        (elapsed / HOUR as i128, " hours ago")
    } else if elapsed < 30 * DAY as i128 {
        (elapsed / DAY as i128, " days ago")
    } else if elapsed < 365 * DAY as i128 {
        (elapsed / DAY as i128 / 30, " months ago")
    } else {
        (elapsed / DAY as i128 / 365, " years ago")
    };
    let mut label = format_decimal(count as i64);
    label.append(unit);
    label
}

} // verus!
