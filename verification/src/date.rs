//! The date column of a long listing: a modification time is shown one
//! hour later than it is, with the year for times more than 180 days
//! before now or later than now, and with the time of day otherwise.

use vstd::prelude::*;
use vstd::string::*;

verus! {

/// A point in time: seconds and nanoseconds since the Unix epoch.
#[derive(Clone, Copy)]
pub struct Timestamp {
    pub secs: i64,
    pub nanos: u32,
}

/// The instant in nanoseconds since the epoch.
pub open spec fn instant(t: Timestamp) -> int {
    t.secs * 1_000_000_000 + t.nanos
}

pub open spec fn hour_ns() -> int {
    3_600_000_000_000int
}

pub open spec fn half_year_ns() -> int {
    15_552_000_000_000_000int
}

/// The shown time is more than 180 days before `now`, or after it.
pub open spec fn is_distant(modified: Timestamp, now: Timestamp) -> bool {
    let shown = instant(modified) + hour_ns();
    instant(now) - shown > half_year_ns() || shown > instant(now)
}

/// Decides `is_distant`.
pub fn date_is_distant(modified: Timestamp, now: Timestamp) -> (r: bool)
    ensures
        r == is_distant(modified, now),
{
    let shown: i128 = (modified.secs as i128) * 1_000_000_000 + (modified.nanos as i128) + 3_600_000_000_000;
    let current: i128 = (now.secs as i128) * 1_000_000_000 + (now.nanos as i128);
    current - shown > 15_552_000_000_000_000 || shown > current
}

/// The `strftime` pattern of the date column.
pub open spec fn date_pattern_spec(distant: bool) -> Seq<char> {
    if distant { "%b %e  %Y"@ } else { "%b %e %H:%M"@ }
}

/// The pattern for a distant or a recent time.
pub fn date_pattern(distant: bool) -> (r: &'static str)
    ensures
        r@ == date_pattern_spec(distant),
{
    if distant { "%b %e  %Y" } else { "%b %e %H:%M" }
}

/// The text chrono writes for the instant `secs`/`nanos` seen at UTC
/// offset `offset` seconds, formatted with `pattern` (`None` when chrono
/// cannot represent the instant or the offset).
pub uninterp spec fn local_text(secs: i64, nanos: u32, offset: i32, pattern: Seq<char>) -> Option<Seq<char>>;

/// Calls `DateTime::from_timestamp`, `FixedOffset::east_opt`,
/// `DateTime::with_timezone` and `DateTime::format`; the contract names the
/// text `local_text(secs, nanos, offset, pattern)`.
#[verifier::external_body]
fn format_at_offset(secs: i64, nanos: u32, offset: i32, pattern: &str) -> (r: Option<String>)
    requires
        pattern@ == "%b %e  %Y"@ || pattern@ == "%b %e %H:%M"@,
    ensures
        match r {
            Some(t) => local_text(secs, nanos, offset, pattern@) == Some(t@),
            None => local_text(secs, nanos, offset, pattern@) is None,
        },
{
    match chrono::DateTime::from_timestamp(secs, nanos) {
        Some(t) => match chrono::FixedOffset::east_opt(offset) {
            Some(o) => Some(t.with_timezone(&o).format(pattern).to_string()),
            None => None,
        },
        None => None,
    }
}

/// The instant shown for a modification time: one hour later, or `None`
/// when that is beyond the range of `i64` seconds.
pub fn shown_instant(modified: Timestamp) -> (r: Option<Timestamp>)
    ensures
        modified.secs <= i64::MAX - 3600 ==> r == Some(Timestamp { secs: (modified.secs + 3600) as i64, nanos: modified.nanos }),
        modified.secs > i64::MAX - 3600 ==> r is None,
{
    if modified.secs <= i64::MAX - 3600 {
        Some(Timestamp { secs: modified.secs + 3600, nanos: modified.nanos })
    } else {
        None
    }
}

/// The date column for a file modified at `modified`, when it is `now` and
/// the local UTC offset at the shown instant is `offset` seconds; `None`
/// where the time cannot be represented.
pub fn date_text(modified: Timestamp, now: Timestamp, offset: i32) -> (r: Option<String>)
    ensures
        modified.secs > i64::MAX - 3600 ==> r is None,
        modified.secs <= i64::MAX - 3600 ==> {
            let text = local_text((modified.secs + 3600) as i64, modified.nanos, offset,
                date_pattern_spec(is_distant(modified, now)));
            match r {
                Some(t) => text == Some(t@),
                None => text is None,
            }
        },
{
    match shown_instant(modified) {
        None => None,
        Some(shown) => {
            let distant = date_is_distant(modified, now);
            let pattern = date_pattern(distant);
            format_at_offset(shown.secs, shown.nanos, offset, pattern)
        },
    }
}

} // verus!
