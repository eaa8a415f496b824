//! Calendar days as numbers, and the reading of a date that was typed in.
//!
//! A day is held as its number in the proleptic Gregorian calendar, where
//! 1 January of the year 1 is day 1. Two days are then compared, and the
//! days between them counted, by plain integer arithmetic.

use vstd::prelude::*;

verus! {

/// The due day of a task whose date has not been entered yet: 1 December 2102.
pub const PLACEHOLDER_DUE: i32 = 767_709;

/// The shape in which a date is typed: year, month and day, with a slash
/// between them.
pub open spec fn date_format() -> Seq<char> {
    "%Y/%m/%d"@
}

/// What `chrono::NaiveDate::parse_from_str` makes of `text` under `format`:
/// the number of the day it reads, or `None` where it reports an error.
pub uninterp spec fn parsed_day(text: Seq<char>, format: Seq<char>) -> Option<i32>;

/// The day that a typed date stands for. Empty text stands for no day;
/// what any other text stands for is for the date parser to say.
pub open spec fn due_of_text(text: Seq<char>) -> Option<i32> {
    if text.len() == 0 {
        None
    } else {
        parsed_day(text, date_format())
    }
}

/// Calls `chrono::NaiveDate::parse_from_str` and, where it returns a date,
/// `chrono::Datelike::num_days_from_ce` on that date. The parser reads
/// nothing but its two arguments, so the outcome is a function of them, here
/// under the name `parsed_day`. Nothing is claimed about which texts it
/// accepts.
#[verifier::external_body]
pub(crate) fn parse_day(text: &str, format: &str) -> (day: Option<i32>)
    ensures
        day == parsed_day(text@, format@),
{
    match chrono::NaiveDate::parse_from_str(text, format) {
        Ok(date) => Some(chrono::Datelike::num_days_from_ce(&date)),
        Err(_) => None,
    }
}

/// Reads a typed date of the shape `YYYY/MM/DD`.
pub fn parse_due(text: &str) -> (day: Option<i32>)
    ensures
        day == due_of_text(text@),
{
    if text.is_empty() {
        None
    } else {
        parse_day(text, "%Y/%m/%d")
    }
}

} // verus!
