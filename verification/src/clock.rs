//! The wall clock, read at minute resolution.

use vstd::prelude::*;

verus! {

/// The `strftime` pattern of every timestamp the library writes.
pub const MINUTE_PATTERN: &'static str = "%Y-%m-%d %H:%M";

/// Whether `c` is one of the ten ASCII digits.
pub open spec fn is_digit(c: char) -> bool {
    '0' <= c <= '9'
}

/// The shape of a minute-resolution timestamp: a year of at least four
/// characters, then `-MM-DD HH:MM`.
pub open spec fn is_minute_stamp(s: Seq<char>) -> bool {
    let n = s.len() as int;
    &&& n >= 16
    &&& s[n - 12] == '-' && is_digit(s[n - 11]) && is_digit(s[n - 10])
    &&& s[n - 9] == '-' && is_digit(s[n - 8]) && is_digit(s[n - 7])
    &&& s[n - 6] == ' ' && is_digit(s[n - 5]) && is_digit(s[n - 4])
    &&& s[n - 3] == ':' && is_digit(s[n - 2]) && is_digit(s[n - 1])
}

/// Reads the clock with `chrono::Utc::now` and renders it with
/// `DateTime::format`. Trusted: for the minute pattern the rendering is the
/// year (four digits, or a sign and more outside 0..=9999) followed by
/// `-MM-DD HH:MM`, each of the four fields zero-padded to two digits. The
/// clock read aborts when the system time lies before the Unix epoch.
#[verifier::external_body]
fn format_now(pattern: &str) -> (stamp: String)
    requires
        pattern@ == MINUTE_PATTERN@,
    ensures
        is_minute_stamp(stamp@),
{
    chrono::Utc::now().format(pattern).to_string()
}

/// The current UTC time as a minute-resolution timestamp.
pub fn current_timestamp() -> (stamp: String)
    ensures
        is_minute_stamp(stamp@),
{
    format_now(MINUTE_PATTERN)
}

} // verus!
