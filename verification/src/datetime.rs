//! Points in time, held as UTC seconds and nanoseconds, and the parsing of entry dates.

use vstd::prelude::*;
use crate::text::{push_str, contains_any_char};

verus! {

/// A UTC point in time: whole seconds since the Unix epoch and the sub-second nanoseconds
/// (at least 10^9 only during a leap second, as chrono represents it).
#[derive(Clone, Copy, Debug, PartialEq, Eq, Structural)]
pub struct DateTime {
    pub secs: i64,
    pub nanos: u32,
}

/// Chronological order of two points in time: -1, 0 or 1.
pub open spec fn datetime_order(a: DateTime, b: DateTime) -> int {
    if a.secs < b.secs {
        -1
    } else if a.secs > b.secs {
        1
    } else if a.nanos < b.nanos {
        -1
    } else if a.nanos > b.nanos {
        1
    } else {
        0
    }
}

/// Order of optional dates: a missing date sorts before any date.
pub open spec fn opt_datetime_order(a: Option<DateTime>, b: Option<DateTime>) -> int {
    match (a, b) {
        (None, None) => 0,
        (None, Some(_)) => -1,
        (Some(_), None) => 1,
        (Some(x), Some(y)) => datetime_order(x, y),
    }
}

/// Compares two optional dates; a missing date sorts first.
pub fn compare_opt_datetime(a: &Option<DateTime>, b: &Option<DateTime>) -> (r: i8)
    ensures
        r == opt_datetime_order(*a, *b),
        opt_datetime_order(*b, *a) == -r,
{
    match (a, b) {
        (None, None) => 0,
        (None, Some(_)) => -1,
        (Some(_), None) => 1,
        (Some(x), Some(y)) => {
            if x.secs < y.secs {
                -1
            } else if x.secs > y.secs {
                1
            } else if x.nanos < y.nanos {
                -1
            } else if x.nanos > y.nanos {
                1
            } else {
                0
            }
        },
    }
}

/// What chrono's RFC 3339 parser yields for a text: the instant converted to UTC, or
/// chrono's error message.
pub uninterp spec fn rfc3339_parsed(s: Seq<char>) -> Result<DateTime, Seq<char>>;

/// What chrono's `NaiveDate::parse_from_str` yields for a text and a format: midnight UTC of
/// the parsed day, or chrono's error message.
pub uninterp spec fn naive_date_parsed(s: Seq<char>, fmt: Seq<char>) -> Result<DateTime, Seq<char>>;

/// Parses an RFC 3339 date-time with offset.
///
/// Trusted: calls `chrono::DateTime::<FixedOffset>::parse_from_rfc3339`, converts the result to
/// UTC seconds/nanoseconds, or renders chrono's error with `to_string`. The contract only ties the
/// result to the input through the name `rfc3339_parsed`.
#[verifier::external_body]
fn chrono_parse_rfc3339(s: &str) -> (r: Result<DateTime, String>)
    ensures
        match r {
            Ok(d) => rfc3339_parsed(s@) == Ok::<DateTime, Seq<char>>(d),
            Err(m) => rfc3339_parsed(s@) == Err::<DateTime, Seq<char>>(m@),
        },
{
    match chrono::DateTime::<chrono::FixedOffset>::parse_from_rfc3339(s) {
        Ok(d) => Ok(DateTime { secs: d.timestamp(), nanos: d.timestamp_subsec_nanos() }),
        Err(e) => Err(e.to_string()),
    }
}

/// Parses a calendar day with the given chrono format and places it at midnight UTC.
///
/// Trusted: calls `chrono::NaiveDate::parse_from_str`, then takes the UTC timestamp of that day's
/// midnight (`NaiveTime::default()`), or renders chrono's error with `to_string`.
#[verifier::external_body]
fn chrono_parse_naive_date(s: &str, fmt: &str) -> (r: Result<DateTime, String>)
    ensures
        match r {
            Ok(d) => naive_date_parsed(s@, fmt@) == Ok::<DateTime, Seq<char>>(d),
            Err(m) => naive_date_parsed(s@, fmt@) == Err::<DateTime, Seq<char>>(m@),
        },
{
    match chrono::NaiveDate::parse_from_str(s, fmt) {
        Ok(d) => {
            let t = chrono::NaiveDateTime::new(d, chrono::NaiveTime::default()).and_utc();
            Ok(DateTime { secs: t.timestamp(), nanos: t.timestamp_subsec_nanos() })
        },
        Err(e) => Err(e.to_string()),
    }
}

/// The characters whose presence marks a full date-time rather than a bare day.
pub open spec fn is_datetime_marker(c: char) -> bool {
    c == ' ' || c == 't' || c == 'T'
}

/// The chrono format of a bare day.
pub open spec fn day_format() -> Seq<char> {
    seq!['%', 'Y', '-', '%', 'm', '-', '%', 'd']
}

/// How an entry date is read: texts containing a space, `t` or `T` are RFC 3339 date-times,
/// other texts are `YYYY-MM-DD` days at midnight UTC. Failures carry `invalid date: ` and
/// chrono's message.
pub open spec fn spec_parse_datetime(s: Seq<char>) -> Result<DateTime, Seq<char>> {
    let parsed = if exists|i: int| 0 <= i < s.len() && #[trigger] is_datetime_marker(s[i]) {
        rfc3339_parsed(s)
    } else {
        naive_date_parsed(s, day_format())
    };
    match parsed {
        Ok(d) => Ok(d),
        Err(m) => Err(invalid_date_prefix() + m),
    }
}

/// The prefix of date error messages.
pub open spec fn invalid_date_prefix() -> Seq<char> {
    seq!['i', 'n', 'v', 'a', 'l', 'i', 'd', ' ', 'd', 'a', 't', 'e', ':', ' ']
}

/// Parses an entry date (see `spec_parse_datetime`).
pub fn parse_datetime(date: &str) -> (r: Result<DateTime, String>)
    ensures
        match r {
            Ok(d) => spec_parse_datetime(date@) == Ok::<DateTime, Seq<char>>(d),
            Err(m) => spec_parse_datetime(date@) == Err::<DateTime, Seq<char>>(m@),
        },
{
    let has_marker = contains_any_char(date, ' ', 't', 'T');
    proof {
        if has_marker {
            let i = choose|i: int|
                0 <= i < date@.len() && (#[trigger] date@[i] == ' ' || date@[i] == 't' || date@[i]
                    == 'T');
            assert(is_datetime_marker(date@[i]));
        } else {
            assert forall|i: int| 0 <= i < date@.len() implies !#[trigger] is_datetime_marker(
                date@[i],
            ) by {
                assert(!(date@[i] == ' ' || date@[i] == 't' || date@[i] == 'T'));
            }
        }
    }
    let parsed = if has_marker {
        chrono_parse_rfc3339(date)
    } else {
        let fmt = crate::text::string_of(&['%', 'Y', '-', '%', 'm', '-', '%', 'd']);
        proof {
            assert(fmt@ =~= day_format());
        }
        chrono_parse_naive_date(date, fmt.as_str())
    };
    match parsed {
        Ok(d) => Ok(d),
        Err(m) => {
            let mut msg = crate::text::string_of(
                &['i', 'n', 'v', 'a', 'l', 'i', 'd', ' ', 'd', 'a', 't', 'e', ':', ' '],
            );
            proof {
                assert(msg@ =~= invalid_date_prefix());
            }
            push_str(&mut msg, m.as_str());
            Err(msg)
        },
    }
}

} // verus!
