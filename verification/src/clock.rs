use vstd::prelude::*;

use crate::store::opt_view;

verus! {

/// Moscow is three hours ahead of UTC, all year round.
pub const MOSCOW_OFFSET_SECONDS: i64 = 10800;

pub const SECONDS_IN_DAY: i64 = 86400;

/// A moment, in seconds since the epoch, far enough inside chrono's range of
/// dates (years -262143 to 262142) to be turned into a date.
pub open spec fn representable(secs: int) -> bool {
    -8_200_000_000_000 <= secs <= 8_200_000_000_000
}

/// The RFC 3339 text chrono writes for a UTC moment given in seconds.
pub uninterp spec fn rfc3339_of(secs: i64) -> Seq<char>;

/// The `dd.mm.yyyy` label chrono writes for an RFC 3339 text, read in its own
/// offset, or nothing when chrono cannot read the text.
pub uninterp spec fn day_label_of(text: Seq<char>) -> Option<Seq<char>>;

/// Calls chrono's `DateTime::<Utc>::from_timestamp(secs, 0)` and, when it
/// gives a moment, its `to_rfc3339`. The text is a function of the seconds
/// alone; the contract names it. chrono's source gives a moment for every
/// number of days since the epoch that fits its range of years, which holds
/// for every representable moment.
#[verifier::external_body]
pub(crate) fn rfc3339(secs: i64) -> (r: Option<String>)
    ensures
        r matches Some(t) ==> t@ == rfc3339_of(secs),
        representable(secs as int) ==> r is Some,
{
    match chrono::DateTime::<chrono::Utc>::from_timestamp(secs, 0) {
        Some(moment) => Some(moment.to_rfc3339()),
        None => None,
    }
}

/// Calls chrono's `DateTime::parse_from_rfc3339` and, when it reads the text,
/// `format("%d.%m.%Y")` of the result. The label is a function of the text
/// alone; the contract names it.
#[verifier::external_body]
pub(crate) fn day_label(text: &str) -> (r: Option<String>)
    ensures
        opt_view(r) == day_label_of(text@),
{
    match chrono::DateTime::parse_from_rfc3339(text) {
        Ok(parsed) => Some(parsed.format("%d.%m.%Y").to_string()),
        Err(_) => None,
    }
}

/// The hour of the day in Moscow at the moment.
pub open spec fn hour_in_moscow(secs: int) -> int {
    ((secs + MOSCOW_OFFSET_SECONDS) % (SECONDS_IN_DAY as int)) / 3600
}

/// Returns the hour of the day in Moscow at the moment given in seconds.
pub fn moscow_hour(secs: i64) -> (r: u32)
    ensures
        r as int == hour_in_moscow(secs as int),
        r < 24,
{
    let shifted = secs as i128 + MOSCOW_OFFSET_SECONDS as i128;
    let in_day = shifted % (SECONDS_IN_DAY as i128);
    let in_day = if in_day < 0 { in_day + SECONDS_IN_DAY as i128 } else { in_day };
    proof {
        assert(in_day == (secs as int + MOSCOW_OFFSET_SECONDS) % (SECONDS_IN_DAY as int));
    }
    (in_day / 3600) as u32
}

} // verus!
