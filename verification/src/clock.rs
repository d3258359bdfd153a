//! The local clock, read through chrono and formatted with the two patterns
//! the library uses: the time of day of log records and the minute stamp of
//! worker identities.
use vstd::prelude::*;

verus! {

/// An ASCII decimal digit.
pub open spec fn is_digit(c: char) -> bool {
    '0' <= c && c <= '9'
}

/// Every character of `s` is an ASCII decimal digit.
pub open spec fn all_digits(s: Seq<char>) -> bool {
    forall|i: int| 0 <= i < s.len() ==> is_digit(#[trigger] s[i])
}

/// The pattern of a log record's timestamp: hours, minutes, seconds and
/// milliseconds.
pub open spec fn time_of_day_pattern() -> Seq<char> {
    "%H:%M:%S%.3f"@
}

/// The pattern of a worker identity's timestamp: day, month, year, then
/// hours and minutes.
pub open spec fn minute_stamp_pattern() -> Seq<char> {
    "%d%m%Y-%H%M"@
}

/// `HH:MM:SS.mmm`: two-digit hours, minutes and seconds, three-digit
/// milliseconds.
pub open spec fn time_of_day_text(t: Seq<char>) -> bool {
    &&& t.len() == 12
    &&& all_digits(t.subrange(0, 2))
    &&& t[2] == ':'
    &&& all_digits(t.subrange(3, 5))
    &&& t[5] == ':'
    &&& all_digits(t.subrange(6, 8))
    &&& t[8] == '.'
    &&& all_digits(t.subrange(9, 12))
}

/// A year as chrono's `%Y` writes it: four digits, or a sign and at least
/// four digits outside the years 0 to 9999.
pub open spec fn year_text(y: Seq<char>) -> bool {
    ||| y.len() == 4 && all_digits(y)
    ||| y.len() >= 5 && (y[0] == '+' || y[0] == '-') && all_digits(y.subrange(1, y.len() as int))
}

/// `DDMMYYYY-HHMM`: two-digit day and month, the year, a dash, two-digit
/// hours and minutes.
pub open spec fn minute_stamp_text(t: Seq<char>) -> bool {
    &&& t.len() >= 13
    &&& all_digits(t.subrange(0, 4))
    &&& year_text(t.subrange(4, t.len() - 5))
    &&& t[t.len() - 5] == '-'
    &&& all_digits(t.subrange(t.len() - 4, t.len() as int))
}

/// The local date and time formatted with a strftime `pattern`: chrono's
/// `Local::now().format(pattern)`, written to a string. Only the two
/// patterns above are accepted (chrono panics on a malformed pattern). The
/// moment read depends on the clock, so only the shape of the text is
/// stated: chrono writes `%d %m %H %M %S` as two zero-padded digits, `%.3f`
/// as a dot and three digits, and `%Y` as described by `year_text`.
#[verifier::external_body]
pub(crate) fn local_now_formatted(pattern: &str) -> (s: String)
    requires
        pattern@ == time_of_day_pattern() || pattern@ == minute_stamp_pattern(),
    ensures
        pattern@ == time_of_day_pattern() ==> time_of_day_text(s@),
        pattern@ == minute_stamp_pattern() ==> minute_stamp_text(s@),
{
    chrono::Local::now().format(pattern).to_string()
}

} // verus!
