//! Due dates: the text form `YYYY-MM-DD`, the calendar, and the instant at
//! which a day begins.
//!
//! A due date is written as four digits, a hyphen, two digits, a hyphen and
//! two digits. It is kept as the number of seconds from the start of 1970 to
//! the start of that day in UTC.

use vstd::prelude::*;
use vstd::string::*;

use crate::calendar::{is_calendar_date, midnight_of};
use crate::error::TaskError;

verus! {

/// A year, a month and a day, as they were written; not every value is a day
/// of the calendar (see [`is_calendar_date`]).
#[derive(Clone, Copy, Debug, PartialEq, Eq, Structural)]
pub struct CalendarDate {
    pub year: i32,
    pub month: u32,
    pub day: u32,
}

/// The first year whose days can be turned into seconds.
pub const MIN_YEAR: i32 = -262_143;

/// The last year whose days can be turned into seconds.
pub const MAX_YEAR: i32 = 262_142;

/// The byte of the character `-`.
const HYPHEN: u8 = 45;

/// The byte of the character `0`.
const DIGIT_0: u8 = 48;

/// The byte of the character `9`.
const DIGIT_9: u8 = 57;

/// The characters `0` to `9`.
pub open spec fn is_digit(c: char) -> bool {
    '0' <= c && c <= '9'
}

/// The number that a digit stands for.
pub open spec fn digit_value(c: char) -> int {
    c as int - '0' as int
}

/// The form `YYYY-MM-DD`: ten characters, hyphens in the fifth and eighth
/// place, digits elsewhere.
pub open spec fn is_date_shaped(text: Seq<char>) -> bool {
    &&& text.len() == 10
    &&& text[4] == '-'
    &&& text[7] == '-'
    &&& forall|i: int| 0 <= i < 10 && i != 4 && i != 7 ==> is_digit(#[trigger] text[i])
}

/// The year that a text of the form `YYYY-MM-DD` spells.
pub open spec fn year_of(text: Seq<char>) -> int {
    1000 * digit_value(text[0]) + 100 * digit_value(text[1]) + 10 * digit_value(text[2])
        + digit_value(text[3])
}

/// The month that a text of the form `YYYY-MM-DD` spells.
pub open spec fn month_of(text: Seq<char>) -> int {
    10 * digit_value(text[5]) + digit_value(text[6])
}

/// The day that a text of the form `YYYY-MM-DD` spells.
pub open spec fn day_of(text: Seq<char>) -> int {
    10 * digit_value(text[8]) + digit_value(text[9])
}

/// The days that can be turned into seconds: the days of the calendar in the
/// years from `MIN_YEAR` to `MAX_YEAR`.
pub open spec fn is_storable_date(year: int, month: int, day: int) -> bool {
    MIN_YEAR <= year <= MAX_YEAR && is_calendar_date(year, month, day)
}

impl CalendarDate {
    /// Whether the calendar has this day.
    pub open spec fn is_valid(&self) -> bool {
        is_calendar_date(self.year as int, self.month as int, self.day as int)
    }

    /// The start of this day in seconds since the start of 1970.
    pub open spec fn spec_midnight(&self) -> int {
        midnight_of(self.year as int, self.month as int, self.day as int)
    }

    /// Reads a text of the form `YYYY-MM-DD`. Any other text gives `None`.
    /// The numbers are taken as written: `2023-02-30` is read, and is no
    /// valid date.
    pub fn parse(text: &str) -> (date: Option<CalendarDate>)
        ensures
            date is Some <==> is_date_shaped(text@),
            date matches Some(d) ==> d.year == year_of(text@) && d.month == month_of(text@)
                && d.day == day_of(text@),
    {
        if !text.is_ascii() {
            proof {
                if is_date_shaped(text@) {
                    lemma_date_shaped_is_ascii(text@);
                }
            }
            return None;
        }
        let bytes = text.as_bytes();
        proof {
            is_ascii_spec_bytes(text);
            lemma_ascii_digits(text@);
        }
        if bytes.len() != 10 || bytes[4] != HYPHEN || bytes[7] != HYPHEN {
            return None;
        }
        assert(forall|i: int| 0 <= i < 10 ==> bytes@[i] == (#[trigger] text@[i]) as u8);
        assert(text@[4] == '-' && text@[7] == '-') by {
            assert(bytes@[4] == text@[4] as u8 && bytes@[7] == text@[7] as u8);
        }
        match (two_digits(bytes, 0), two_digits(bytes, 2), two_digits(bytes, 5), two_digits(
            bytes,
            8,
        )) {
            (Some(century), Some(year), Some(month), Some(day)) => {
                let year: u32 = 100 * century + year;
                Some(CalendarDate { year: year as i32, month, day })
            },
            _ => None,
        }
    }

    /// The start of this day in seconds since the start of 1970, or `None`
    /// where the calendar has no such day or the year lies outside
    /// `MIN_YEAR` to `MAX_YEAR`.
    pub fn midnight(&self) -> (seconds: Option<i64>)
        ensures
            seconds is Some <==> is_storable_date(
                self.year as int,
                self.month as int,
                self.day as int,
            ),
            seconds matches Some(s) ==> s == self.spec_midnight(),
    {
        midnight_timestamp(self.year, self.month, self.day)
    }
}

/// The number that the two digits at `bytes[at]` and `bytes[at + 1]` spell,
/// or `None` where one of the two is no digit.
fn two_digits(bytes: &[u8], at: usize) -> (value: Option<u32>)
    requires
        at + 2 <= bytes@.len(),
    ensures
        value is Some <==> DIGIT_0 <= bytes@[at as int] <= DIGIT_9 && DIGIT_0 <= bytes@[at + 1] <= DIGIT_9,
        value matches Some(v) ==> v == 10 * (bytes@[at as int] - DIGIT_0) + (bytes@[at + 1] - DIGIT_0),
{
    let tens: u8 = bytes[at];
    let ones: u8 = bytes[at + 1];
    if DIGIT_0 <= tens && tens <= DIGIT_9 && DIGIT_0 <= ones && ones <= DIGIT_9 {
        Some(10 * ((tens - DIGIT_0) as u32) + ((ones - DIGIT_0) as u32))
    } else {
        None
    }
}

/// A text of the date form holds ASCII characters only.
proof fn lemma_date_shaped_is_ascii(text: Seq<char>)
    requires
        is_date_shaped(text),
    ensures
        vstd::utf8::is_ascii_chars(text),
{
    assert forall|i: int| 0 <= i < text.len() implies '\0' <= #[trigger] text[i] <= '\u{7f}' by {
        if i != 4 && i != 7 {
            assert(is_digit(text[i]));
        }
    }
}

/// An ASCII character is a digit where its byte is one, and the byte then
/// spells the same number.
proof fn lemma_ascii_digits(text: Seq<char>)
    requires
        vstd::utf8::is_ascii_chars(text),
    ensures
        forall|i: int|
            0 <= i < text.len() ==> (is_digit(#[trigger] text[i]) <==> DIGIT_0 <= text[i] as u8
                <= DIGIT_9),
        forall|i: int|
            0 <= i < text.len() && is_digit(#[trigger] text[i]) ==> digit_value(text[i])
                == text[i] as u8 - DIGIT_0,
{
}

/// The start of a day in seconds since the start of 1970, by chrono:
/// `NaiveDate::from_ymd_opt` makes the date, `NaiveDate::and_time` with
/// `NaiveTime::MIN` its first instant, `NaiveDateTime::and_utc` reads that as
/// UTC, and `DateTime::timestamp` counts the seconds.
///
/// Trusted, of `from_ymd_opt`: it gives a date exactly where the calendar has
/// the day and the year lies from -262143 to 262142. Of `timestamp`: it is
/// the number of the day, less 719 163, times 86 400, and the seconds of the
/// day on top, of which the first instant has none; the number of the day
/// counts the days of the proleptic Gregorian calendar from 1 for 1 January
/// of the year 1.
#[verifier::external_body]
fn midnight_timestamp(year: i32, month: u32, day: u32) -> (seconds: Option<i64>)
    ensures
        (seconds is Some) == is_storable_date(year as int, month as int, day as int),
        seconds matches Some(s) ==> s == midnight_of(year as int, month as int, day as int),
{
    let date = chrono::NaiveDate::from_ymd_opt(year, month, day)?;
    Some(date.and_time(chrono::NaiveTime::MIN).and_utc().timestamp())
}

/// The stored form of a due date that was given as text.
pub open spec fn due_date_of(text: Seq<char>) -> Result<int, TaskError> {
    if !is_date_shaped(text) {
        Err(TaskError::InvalidDateFormat)
    } else if !is_calendar_date(year_of(text), month_of(text), day_of(text)) {
        Err(TaskError::InvalidDate)
    } else {
        Ok(midnight_of(year_of(text), month_of(text), day_of(text)))
    }
}

/// Turns a due date given as text into its stored form: the start of that
/// day in seconds since the start of 1970.
///
/// A text that is not of the form `YYYY-MM-DD` is refused as
/// `InvalidDateFormat`, one of that form that names no day of the calendar as
/// `InvalidDate`.
pub fn parse_due_date(text: &str) -> (stored: Result<i64, TaskError>)
    ensures
        stored matches Ok(s) ==> due_date_of(text@) == Ok::<int, TaskError>(s as int),
        stored matches Err(e) ==> due_date_of(text@) == Err::<int, TaskError>(e),
{
    match CalendarDate::parse(text) {
        None => Err(TaskError::InvalidDateFormat),
        Some(date) => {
            proof {
                lemma_spelled_in_range(text@);
            }
            match date.midnight() {
                None => Err(TaskError::InvalidDate),
                Some(seconds) => Ok(seconds),
            }
        },
    }
}

/// The numbers that a text of the date form spells: a year up to 9999, a
/// month and a day up to 99.
pub proof fn lemma_spelled_in_range(text: Seq<char>)
    requires
        is_date_shaped(text),
    ensures
        0 <= year_of(text) <= 9999,
        0 <= month_of(text) <= 99,
        0 <= day_of(text) <= 99,
{
    assert(is_digit(text[0]) && is_digit(text[1]) && is_digit(text[2]) && is_digit(text[3]));
    assert(is_digit(text[5]) && is_digit(text[6]));
    assert(is_digit(text[8]) && is_digit(text[9]));
}

} // verus!
