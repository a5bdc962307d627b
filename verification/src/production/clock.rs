//! Wall-clock reading for the README banner.

use vstd::prelude::*;
use crate::production::readme_laws::clean_stamp;

verus! {

/// A decimal digit.
pub open spec fn is_digit(c: char) -> bool {
    '0' <= c && c <= '9'
}

/// The shape of `"%Y-%m-%d %H:%M UTC"`: a year of at least four
/// characters (digits, save a sign in front), then `-MM-DD HH:MM UTC`
/// with two digits in each field.
pub open spec fn utc_stamp_shape(s: Seq<char>) -> bool {
    let n = s.len() as int;
    &&& n >= 20
    &&& forall|k: int|
        0 <= k < n - 16 ==> is_digit(#[trigger] s[k]) || (k == 0 && (s[k] == '+' || s[k] == '-'))
    &&& s[n - 16] == '-' && is_digit(s[n - 15]) && is_digit(s[n - 14])
    &&& s[n - 13] == '-' && is_digit(s[n - 12]) && is_digit(s[n - 11])
    &&& s[n - 10] == ' ' && is_digit(s[n - 9]) && is_digit(s[n - 8])
    &&& s[n - 7] == ':' && is_digit(s[n - 6]) && is_digit(s[n - 5])
    &&& s[n - 4] == ' ' && s[n - 3] == 'U' && s[n - 2] == 'T' && s[n - 1] == 'C'
}

/// Seconds since 1970-01-01 00:00 UTC by the system clock:
/// `std::time::SystemTime::now().duration_since(UNIX_EPOCH)`, whose
/// whole seconds are converted to `i64`.  `None` when the clock reads
/// before 1970 (where `duration_since` returns an error) or the count
/// does not fit in `i64`.  The reading depends on the time of the call;
/// claimed only that a count is never negative.
#[verifier::external_body]
fn clock_seconds() -> (r: Option<i64>)
    ensures
        r matches Some(s) ==> s >= 0,
{
    match std::time::SystemTime::now().duration_since(std::time::UNIX_EPOCH) {
        Ok(d) => i64::try_from(d.as_secs()).ok(),
        Err(_) => None,
    }
}

/// What `chrono::DateTime::from_timestamp(secs, 0)` rendered with
/// `format("%Y-%m-%d %H:%M UTC")` gives for `secs` (`None` when chrono
/// rejects the count as out of range).
pub uninterp spec fn utc_minute_text(secs: int) -> Option<Seq<char>>;

/// Calls `chrono::DateTime::from_timestamp(secs, 0)` and renders the
/// instant with `format("%Y-%m-%d %H:%M UTC")`.  Claimed: the result is a
/// function of `secs` alone, and a text has the shape of that format
/// (chrono writes the year as at least four digits, with a sign only for
/// years outside 0..=9999, and month, day, hour and minute as two
/// zero-padded digits), so it holds no newline, carriage return, `'<'` or
/// `'#'`.
#[verifier::external_body]
fn utc_minute_stamp(secs: i64) -> (r: Option<String>)
    ensures
        (match r {
            Some(s) => Some(s@),
            None => None,
        }) == utc_minute_text(secs as int),
        r matches Some(s) ==> utc_stamp_shape(s@) && clean_stamp(s@),
{
    match chrono::DateTime::from_timestamp(secs, 0) {
        Some(t) => Some(t.format("%Y-%m-%d %H:%M UTC").to_string()),
        None => None,
    }
}

/// `secs` is a count of seconds that a reading of the system clock can
/// give.
pub closed spec fn clock_reading(secs: i64) -> bool {
    call_ensures(clock_seconds, (), Some(secs))
}

/// The current UTC time as `YYYY-MM-DD HH:MM UTC`, or `None` when the
/// clock cannot be read as a time chrono represents: the stamp is the
/// rendering of a clock reading itself.
pub fn utc_now_stamp() -> (r: Option<String>)
    ensures
        r matches Some(s) ==> utc_stamp_shape(s@) && clean_stamp(s@),
        r matches Some(s) ==> exists|secs: i64|
            clock_reading(secs) && #[trigger] utc_minute_text(secs as int) == Some(s@),
{
    match clock_seconds() {
        Some(secs) => utc_minute_stamp(secs),
        None => None,
    }
}

} // verus!
