use chrono::{DateTime, TimeZone, Utc};
use vstd::prelude::*;

verus! {

/// Earliest millisecond that chrono can represent as a UTC date-time
/// (January 1 of year -262143).
pub const DATE_MIN_MS: i64 = -8334601228800000;

/// Latest millisecond that chrono can represent as a UTC date-time
/// (the last millisecond of year 262142).
pub const DATE_MAX_MS: i64 = 8210266876799999;

/// First millisecond of year 0000, the earliest date with a four-digit year.
pub const YEAR0_MS: i64 = -62167219200000;

/// Last millisecond of year 9999, the latest date with a four-digit year.
pub const YEAR9999_MS: i64 = 253402300799999;

/// Whether chrono can render `millis` as a date-time.
pub open spec fn date_in_range(millis: int) -> bool {
    DATE_MIN_MS <= millis <= DATE_MAX_MS
}

/// Whether the date-time of `millis` has a four-digit year, the form that
/// RFC 3339 text can carry.
pub open spec fn four_digit_year(millis: int) -> bool {
    YEAR0_MS <= millis <= YEAR9999_MS
}

/// The RFC 3339 text, with offset `+00:00`, of the UTC date-time `millis`
/// milliseconds after the Unix epoch.
pub uninterp spec fn rfc3339_of(millis: int) -> Seq<char>;

/// The instant, in milliseconds since the Unix epoch, that the RFC 3339
/// text `s` denotes, or `None` where `s` is not such a text.
pub uninterp spec fn rfc3339_millis(s: Seq<char>) -> Option<i64>;

/// Relies on `TimeZone::timestamp_millis_opt` of `chrono::Utc`, which gives a
/// single date-time inside chrono's date range (the `unwrap` panics outside
/// it), and `DateTime::to_rfc3339`: the RFC 3339 text of the instant, a
/// function of `millis` alone.
#[verifier::external_body]
pub(crate) fn rfc3339_text(millis: i64) -> (r: String)
    requires
        date_in_range(millis as int),
    ensures
        r@ == rfc3339_of(millis as int),
{
    Utc.timestamp_millis_opt(millis).unwrap().to_rfc3339()
}

/// Relies on `DateTime::parse_from_rfc3339` and `DateTime::timestamp_millis`:
/// the instant that an RFC 3339 text denotes, a function of the text alone.
/// `parse_from_rfc3339` reads back what `to_rfc3339` writes for a date with a
/// four-digit year (the only years it accepts), fraction of a second included.
#[verifier::external_body]
pub(crate) fn rfc3339_parse(s: &str) -> (r: Option<i64>)
    ensures
        r == rfc3339_millis(s@),
        forall|m: i64| #[trigger] rfc3339_of(m as int) == s@ && four_digit_year(m as int) ==> r == Some(m),
{
    match DateTime::parse_from_rfc3339(s) {
        Ok(d) => Some(d.timestamp_millis()),
        Err(_) => None,
    }
}

} // verus!
