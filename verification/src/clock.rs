//! Moments in time and how they are written.
//!
//! A file's timestamp comes as seconds since the Unix epoch. To name a file
//! after it, the moment is shown on the local clock and written under a
//! strftime-style pattern. Both steps are done by the `chrono` crate.

use chrono::DateTime;
use chrono::FixedOffset;
use chrono::Local;
use chrono::TimeZone;
use vstd::prelude::*;

verus! {

/// A moment together with the offset of the clock that shows it.
#[derive(Debug, Clone, Copy, PartialEq, Eq, Structural)]
pub struct LocalStamp {
    /// Seconds since the Unix epoch.
    pub secs: i64,
    /// Seconds that the clock is ahead of UTC.
    pub offset: i32,
}

/// Whether `offset` can be the offset of a clock: less than a day either
/// way.
pub open spec fn is_clock_offset(offset: int) -> bool {
    -86_400 < offset < 86_400
}

/// The first second that `chrono` can show: the start of the year -262143.
pub const FIRST_MOMENT: i64 = -8_334_601_228_800;

/// The last second that `chrono` can show: the end of the year 262142.
pub const LAST_MOMENT: i64 = 8_210_266_876_799;

/// Whether `secs` seconds after the Unix epoch is a moment that `chrono`
/// can show on a clock.
pub open spec fn is_moment(secs: int) -> bool {
    FIRST_MOMENT <= secs <= LAST_MOMENT
}

/// The pattern that writes the year and month directories of a moment.
pub open spec fn month_dir_pattern() -> Seq<char> {
    seq!['%', 'Y', '/', '%', 'm', '/']
}

/// What `chrono` writes for the moment `secs` seconds after the Unix epoch,
/// shown on a clock `offset` seconds ahead of UTC, under the strftime-style
/// `pattern`; `None` where `chrono` cannot show the moment or rejects the
/// pattern.
pub uninterp spec fn formatted_time(secs: int, offset: int, pattern: Seq<char>) -> Option<
    Seq<char>,
>;

/// The offset of the local clock at a moment, from `chrono`'s
/// `Local.offset_from_utc_datetime`; `None` where
/// `DateTime::from_timestamp` cannot represent the moment, which is where
/// the day of the moment lies outside the years -262143 to 262142 that a
/// `NaiveDate` holds. The offset depends on the time zone of the machine,
/// so only its range is claimed, which is the range of every
/// `FixedOffset`.
#[verifier::external_body]
pub(crate) fn local_offset(secs: i64) -> (r: Option<i32>)
    ensures
        r is Some <==> is_moment(secs as int),
        r matches Some(offset) ==> is_clock_offset(offset as int),
{
    let utc = DateTime::from_timestamp(secs, 0)?;
    Some(Local.offset_from_utc_datetime(&utc.naive_utc()).local_minus_utc())
}

/// The moment written by `chrono`'s `DateTime::format` on a clock with a
/// fixed offset, collected with `DelayedFormat::write_to`. The result is
/// `None` where `FixedOffset::east_opt` or `DateTime::from_timestamp`
/// returns `None` or the writer reports an error. The claim is that the
/// text is a function of the three arguments alone.
#[verifier::external_body]
pub(crate) fn format_time(secs: i64, offset: i32, pattern: &str) -> (r: Option<String>)
    ensures
        match r {
            Some(text) => formatted_time(secs as int, offset as int, pattern@) == Some(text@),
            None => formatted_time(secs as int, offset as int, pattern@) is None,
        },
{
    let zone = FixedOffset::east_opt(offset)?;
    let moment = DateTime::from_timestamp(secs, 0)?.with_timezone(&zone);
    let mut text = String::new();
    moment.format(pattern).write_to(&mut text).ok()?;
    Some(text)
}

} // verus!
