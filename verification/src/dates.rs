//! Calendar dates for display.

use vstd::prelude::*;
use crate::text::{decimal, decimal_text, opt_text};

verus! {

/// The UTC date and time of the instant `seconds` after the Unix epoch,
/// written as year, month and day, then hour, minute and second
/// (`2024-01-31 23:59:59`); `None` for an instant beyond the calendar's
/// range.
pub uninterp spec fn utc_date_text(seconds: int) -> Option<Seq<char>>;

/// Formats an instant as a UTC date and time.
///
/// Trusted: turns the seconds into a `chrono::DateTime<Utc>` with
/// `DateTime::from_timestamp`, which returns `None` for an instant out of
/// range, and formats that with `DateTime::format` and the pattern
/// `%Y-%m-%d %H:%M:%S`. The result depends on the seconds alone, no time
/// zone of the machine and no locale enters, so it has a name,
/// `utc_date_text`; the contract says no more than that.
#[verifier::external_body]
fn format_utc(seconds: i64) -> (text: Option<String>)
    ensures
        opt_text(text) == utc_date_text(seconds as int),
{
    chrono::DateTime::<chrono::Utc>::from_timestamp(seconds, 0).map(
        |instant| instant.format("%Y-%m-%d %H:%M:%S").to_string(),
    )
}

/// The date shown for an instant: its UTC date and time, or the bare number
/// of seconds for an instant beyond the calendar's range.
pub open spec fn shown_date(seconds: int) -> Seq<char> {
    match utc_date_text(seconds) {
        Some(text) => text,
        None => decimal(seconds),
    }
}

/// The date to show for an instant.
pub fn date_text(seconds: i64) -> (text: String)
    ensures
        text@ == shown_date(seconds as int),
{
    match format_utc(seconds) {
        Some(text) => text,
        None => decimal_text(seconds as i128),
    }
}

/// The number of whole units of `unit` seconds in a span of seconds,
/// rounded towards zero.
pub open spec fn whole_units(seconds: int, unit: int) -> int {
    if seconds >= 0 {
        seconds / unit
    } else {
        -((-seconds) / unit)
    }
}

/// How long ago `then` was, seen from `now`, in the largest unit of days,
/// hours and minutes of which at least one has passed.
pub open spec fn time_ago(now: int, then: int) -> Seq<char> {
    let span = now - then;
    if whole_units(span, 86400) > 0 {
        decimal(whole_units(span, 86400)) + " days ago"@
    } else if whole_units(span, 3600) > 0 {
        decimal(whole_units(span, 3600)) + " hours ago"@
    } else {
        decimal(whole_units(span, 60)) + " minutes ago"@
    }
}

/// Says how long ago `then` was.
pub fn time_ago_text(now: i64, then: i64) -> (text: String)
    ensures
        text@ == time_ago(now as int, then as int),
{
    let span: i128 = now as i128 - then as i128;
    let days = span / 86400;
    let hours = span / 3600;
    let minutes = span / 60;
    if days > 0 {
        let mut text = decimal_text(days);
        text.append(" days ago");
        text
    } else if hours > 0 {
        let mut text = decimal_text(hours);
        text.append(" hours ago");
        text
    } else {
        let mut text = decimal_text(minutes);
        text.append(" minutes ago");
        text
    }
}

} // verus!
