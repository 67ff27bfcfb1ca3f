//! Trusted boundary to `chrono`: RFC 3339 text, UTC calendar parts, and the
//! wall clock.  Times live in the model as milliseconds since the Unix
//! epoch; parsing and formatting are named spec functions of that value.

use vstd::prelude::*;

use chrono::Datelike;
use chrono::Timelike;

verus! {

/// Milliseconds since the epoch that chrono's RFC 3339 parser reads out of
/// the text (`None` when the text does not parse).
pub uninterp spec fn rfc3339_millis(s: Seq<char>) -> Option<int>;

/// The RFC 3339 rendering of a UTC instant (`None` when the instant is
/// outside chrono's calendar range).
pub uninterp spec fn rfc3339_rendered(ms: int) -> Option<Seq<char>>;

/// The UTC calendar parts of an instant: year, month, day, hour, minute,
/// second (`None` outside chrono's range).
pub uninterp spec fn utc_parts_of(ms: int) -> Option<(int, int, int, int, int, int)>;

/// First instant of the year 0000: the earliest instant whose RFC 3339
/// rendering carries a plain four-digit year.
pub const FOUR_DIGIT_YEARS_START_MS: i64 = -62167219200000;

/// First instant of the year 10000: from here on the rendering carries a
/// sign-prefixed five-digit year, which the RFC 3339 parser rejects.
pub const FOUR_DIGIT_YEARS_END_MS: i64 = 253402300800000;

/// Relies on `chrono::DateTime::parse_from_rfc3339` followed by
/// `timestamp_millis`: a pure function of the text.
#[verifier::external_body]
fn parse_rfc3339_raw(s: &str) -> (r: Option<i64>)
    ensures
        match r {
            Some(ms) => rfc3339_millis(s@) == Some(ms as int),
            None => rfc3339_millis(s@) is None,
        },
{
    match chrono::DateTime::parse_from_rfc3339(s) {
        Ok(dt) => Some(dt.timestamp_millis()),
        Err(_) => None,
    }
}

/// Relies on `chrono::DateTime::<Utc>::from_timestamp_millis` and
/// `to_rfc3339`: a pure function of the millisecond value.  For instants
/// whose UTC year has four digits the printed text parses back to the same
/// instant; outside that range the year is written sign-prefixed, which the
/// RFC 3339 parser does not read, so nothing is promised there.
#[verifier::external_body]
fn format_rfc3339_raw(ms: i64) -> (r: Option<String>)
    ensures
        match r {
            Some(s) => rfc3339_rendered(ms as int) == Some(s@)
                && (FOUR_DIGIT_YEARS_START_MS <= ms < FOUR_DIGIT_YEARS_END_MS
                ==> rfc3339_millis(s@) == Some(ms as int)),
            None => rfc3339_rendered(ms as int) is None,
        },
{
    chrono::DateTime::<chrono::Utc>::from_timestamp_millis(ms).map(|dt| dt.to_rfc3339())
}

/// Relies on `chrono::DateTime::<Utc>::from_timestamp_millis` and the
/// `Datelike` / `Timelike` accessors, whose documented ranges are stated.
#[verifier::external_body]
fn utc_parts_raw(ms: i64) -> (r: Option<(i64, u32, u32, u32, u32, u32)>)
    ensures
        match r {
            Some(p) => utc_parts_of(ms as int) == Some(
                (p.0 as int, p.1 as int, p.2 as int, p.3 as int, p.4 as int, p.5 as int),
            ) && 1 <= p.1 <= 12 && 1 <= p.2 <= 31 && p.3 <= 23 && p.4 <= 59 && p.5 <= 59,
            None => utc_parts_of(ms as int) is None,
        },
{
    chrono::DateTime::<chrono::Utc>::from_timestamp_millis(ms).map(
        |dt| (dt.year() as i64, dt.month(), dt.day(), dt.hour(), dt.minute(), dt.second()),
    )
}

/// Relies on `chrono::Utc::now`; nothing is promised of the clock.
#[verifier::external_body]
fn now_millis_raw() -> i64 {
    chrono::Utc::now().timestamp_millis()
}

/// Parses RFC 3339 text to milliseconds since the epoch.
pub fn parse_rfc3339(s: &str) -> (r: Option<i64>)
    ensures
        match r {
            Some(ms) => rfc3339_millis(s@) == Some(ms as int),
            None => rfc3339_millis(s@) is None,
        },
{
    parse_rfc3339_raw(s)
}

/// The RFC 3339 rendering of an instant, or empty text when chrono cannot
/// represent it.
pub open spec fn rfc3339_text_or_empty(ms: int) -> Seq<char> {
    match rfc3339_rendered(ms) {
        Some(t) => t,
        None => Seq::empty(),
    }
}

/// Formats an instant as RFC 3339 text; empty when out of range.
pub fn format_rfc3339(ms: i64) -> (r: String)
    ensures
        r@ == rfc3339_text_or_empty(ms as int),
{
    match format_rfc3339_raw(ms) {
        Some(s) => s,
        None => String::new(),
    }
}

/// The UTC calendar parts of an instant; `None` when out of range.
pub fn utc_parts(ms: i64) -> (r: Option<(i64, u32, u32, u32, u32, u32)>)
    ensures
        match r {
            Some(p) => utc_parts_of(ms as int) == Some(
                (p.0 as int, p.1 as int, p.2 as int, p.3 as int, p.4 as int, p.5 as int),
            ) && 1 <= p.1 <= 12 && 1 <= p.2 <= 31 && p.3 <= 23 && p.4 <= 59 && p.5 <= 59,
            None => utc_parts_of(ms as int) is None,
        },
{
    utc_parts_raw(ms)
}

/// The wall clock, as milliseconds since the epoch.
pub fn now_millis() -> i64 {
    now_millis_raw()
}

} // verus!
