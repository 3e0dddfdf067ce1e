//! Conversions between instants, days and their text forms. The calendar
//! arithmetic and the text formats are chrono's.

use chrono::format::ParseErrorKind as Kind;
use vstd::prelude::*;
use crate::types::{Date, Timestamp, opt_str_view};

verus! {

/// Why chrono could not read a date and time (chrono's `ParseErrorKind`).
#[derive(Clone, Copy, PartialEq, Eq, Structural, Debug)]
pub enum TimeParseError {
    OutOfRange,
    Impossible,
    NotEnough,
    Invalid,
    TooShort,
    TooLong,
    BadFormat,
}

impl TimeParseError {
    /// The message that chrono gives for the error.
    pub open spec fn message_spec(self) -> Seq<char> {
        match self {
            TimeParseError::OutOfRange => "input is out of range"@,
            TimeParseError::Impossible => "no possible date and time matching input"@,
            TimeParseError::NotEnough => "input is not enough for unique date and time"@,
            TimeParseError::Invalid => "input contains invalid characters"@,
            TimeParseError::TooShort => "premature end of input"@,
            TimeParseError::TooLong => "trailing input"@,
            TimeParseError::BadFormat => "bad or unsupported format string"@,
        }
    }

    /// The message that chrono gives for the error.
    pub fn message(&self) -> (s: &'static str)
        ensures
            s@ == self.message_spec(),
    {
        match self {
            TimeParseError::OutOfRange => "input is out of range",
            TimeParseError::Impossible => "no possible date and time matching input",
            TimeParseError::NotEnough => "input is not enough for unique date and time",
            TimeParseError::Invalid => "input contains invalid characters",
            TimeParseError::TooShort => "premature end of input",
            TimeParseError::TooLong => "trailing input",
            TimeParseError::BadFormat => "bad or unsupported format string",
        }
    }
}

/// What chrono's `DateTime::parse_from_rfc3339` gives for a text: the
/// instant taken to UTC as whole seconds and nanoseconds since the epoch,
/// or the kind of error.
pub uninterp spec fn rfc3339_parse(s: Seq<char>) -> Result<(i64, u32), TimeParseError>;

/// What chrono's `DateTime::<Utc>::to_rfc3339` gives for the instant with
/// these seconds and nanoseconds, or `None` where `DateTime::from_timestamp`
/// cannot represent it.
pub uninterp spec fn rfc3339_text(secs: i64, nanos: u32) -> Option<Seq<char>>;

/// What chrono's `NaiveDate::format` gives with a pattern for the day that
/// lies this many days after 1970-01-01, or `None` where
/// `NaiveDate::from_epoch_days` cannot represent the day.
pub uninterp spec fn day_text(days: i32, pattern: Seq<char>) -> Option<Seq<char>>;

/// Parses an RFC 3339 text with chrono (`DateTime::parse_from_rfc3339`) and
/// takes the instant to UTC, or gives the kind of chrono's error. Claimed:
/// the result is the named result of the text; nothing is claimed of which
/// texts chrono accepts. (chrono's hidden `__Nonexhaustive` kind is never
/// made; it goes to `Invalid`.)
#[verifier::external_body]
fn chrono_parse_rfc3339(s: &str) -> (r: Result<(i64, u32), TimeParseError>)
    ensures
        r == rfc3339_parse(s@),
{
    match chrono::DateTime::parse_from_rfc3339(s) {
        Ok(d) => Ok((d.timestamp(), d.timestamp_subsec_nanos())),
        Err(e) => Err(match e.kind() {
            Kind::OutOfRange => TimeParseError::OutOfRange,
            Kind::Impossible => TimeParseError::Impossible,
            Kind::NotEnough => TimeParseError::NotEnough,
            Kind::TooShort => TimeParseError::TooShort,
            Kind::TooLong => TimeParseError::TooLong,
            Kind::BadFormat => TimeParseError::BadFormat,
            _ => TimeParseError::Invalid,
        }),
    }
}

/// Whether an instant lies in the years 0000 to 9999, the years that chrono
/// writes in RFC 3339 with four digits.
pub open spec fn in_four_digit_years(secs: i64) -> bool {
    -62_167_219_200 <= secs <= 253_402_300_799
}

/// Formats an instant with chrono (`DateTime::<Utc>::to_rfc3339`), after
/// `DateTime::from_timestamp`. Claimed: the result is the named result of the
/// seconds and nanoseconds; and, as chrono's writer and reader show, for an
/// instant of the years 0000 to 9999 `DateTime::parse_from_rfc3339` reads
/// the text back as the same seconds and nanoseconds (a leap second is
/// written as second 60 and read back so). Nothing is claimed of reading
/// back other years, which chrono writes with a sign and five digits.
#[verifier::external_body]
fn chrono_to_rfc3339(secs: i64, nanos: u32) -> (r: Option<String>)
    ensures
        opt_str_view(r) == rfc3339_text(secs, nanos),
        in_four_digit_years(secs) ==> (r matches Some(t) ==> rfc3339_parse(t@) == Ok::<(i64, u32), TimeParseError>((secs, nanos))),
{
    match chrono::DateTime::<chrono::Utc>::from_timestamp(secs, nanos) {
        Some(d) => Some(d.to_rfc3339()),
        None => None,
    }
}

/// The chrono patterns that days are written with: the year, the month,
/// the day of the month, and the whole date.
pub open spec fn is_day_pattern(p: Seq<char>) -> bool {
    p == "%Y"@ || p == "%m"@ || p == "%d"@ || p == "%Y-%m-%d"@
}

/// Formats a day with chrono (`NaiveDate::format`), after
/// `NaiveDate::from_epoch_days`. Claimed: the result is the named result of
/// the day and the pattern. Only the patterns above are admitted: writing a
/// day with a pattern that chrono cannot read panics.
#[verifier::external_body]
fn chrono_format_day(days: i32, pattern: &str) -> (r: Option<String>)
    requires
        is_day_pattern(pattern@),
    ensures
        opt_str_view(r) == day_text(days, pattern@),
{
    match chrono::NaiveDate::from_epoch_days(days) {
        Some(d) => Some(d.format(pattern).to_string()),
        None => None,
    }
}

/// Parses an RFC 3339 date and time into an instant in UTC, or gives why
/// chrono could not.
pub fn parse_datetime(s: &str) -> (r: Result<Timestamp, TimeParseError>)
    ensures
        match rfc3339_parse(s@) {
            Ok((secs, nanos)) => r == Ok::<Timestamp, TimeParseError>(Timestamp { secs, nanos }),
            Err(e) => r == Err::<Timestamp, TimeParseError>(e),
        },
{
    match chrono_parse_rfc3339(s) {
        Ok((secs, nanos)) => Ok(Timestamp { secs, nanos }),
        Err(e) => Err(e),
    }
}

/// The RFC 3339 text of an instant, if chrono can represent it.
pub fn to_rfc3339(t: &Timestamp) -> (r: Option<String>)
    ensures
        opt_str_view(r) == rfc3339_text(t.secs, t.nanos),
        in_four_digit_years(t.secs) ==> (r matches Some(s) ==> rfc3339_parse(s@) == Ok::<(i64, u32), TimeParseError>((t.secs, t.nanos))),
{
    chrono_to_rfc3339(t.secs, t.nanos)
}

/// The text of a day in one of the chrono patterns "%Y", "%m", "%d" and
/// "%Y-%m-%d", if chrono can represent the day.
pub fn format_day(d: &Date, pattern: &str) -> (r: Option<String>)
    requires
        is_day_pattern(pattern@),
    ensures
        if i32::MIN <= d.days <= i32::MAX {
            opt_str_view(r) == day_text(d.days as i32, pattern@)
        } else {
            r.is_none()
        },
{
    if d.days >= -2147483648i64 && d.days <= 2147483647i64 {
        chrono_format_day(d.days as i32, pattern)
    } else {
        None
    }
}

} // verus!
