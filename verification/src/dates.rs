//! Source-specific date text is turned into a plain [`Date`] by chrono;
//! the parse itself is the one trusted step.

use vstd::prelude::*;
use chrono::Datelike;
use crate::deck::Date;

verus! {

/// The date (year, month, day) that chrono's `NaiveDate::parse_from_str`
/// reads out of `s` under the format string `fmt`, or `None` where it
/// fails.  The parse depends on its two arguments alone.
pub uninterp spec fn chrono_date_of(s: Seq<char>, fmt: Seq<char>) -> Option<(i32, u8, u8)>;

/// `chrono_date_of` in `Date` form: what date text parses to.
pub open spec fn spec_parse_date(s: Seq<char>, fmt: Seq<char>) -> Option<Date> {
    match chrono_date_of(s, fmt) {
        Some(t) => Some(Date { year: t.0, month: t.1, day: t.2 }),
        None => None,
    }
}

/// Relies on chrono's `NaiveDate::parse_from_str` together with the
/// `Datelike` accessors: the result is a pure function of `s` and `fmt`,
/// `month()` ranges over 1..=12 and `day()` over 1..=31.
#[verifier::external_body]
pub(crate) fn parse_date(s: &str, fmt: &str) -> (r: Option<Date>)
    ensures
        match r {
            Some(d) => chrono_date_of(s@, fmt@) == Some((d.year, d.month, d.day)) && d.wf(),
            None => chrono_date_of(s@, fmt@) is None,
        },
        r == spec_parse_date(s@, fmt@),
{
    match chrono::NaiveDate::parse_from_str(s, fmt) {
        Ok(d) => Some(Date { year: d.year(), month: d.month() as u8, day: d.day() as u8 }),
        Err(_) => None,
    }
}

} // verus!
