//! The proleptic Gregorian calendar: which days exist, and how many seconds
//! lie between the start of 1970 and the start of a given day.

use vstd::prelude::*;

verus! {

/// Leap years of the Gregorian calendar, carried back before its
/// introduction.
pub open spec fn is_leap_year(year: int) -> bool {
    year % 4 == 0 && (year % 100 != 0 || year % 400 == 0)
}

/// The number of days of a month; 0 where `month` is not 1 to 12.
pub open spec fn days_in_month(year: int, month: int) -> int {
    if month == 2 {
        if is_leap_year(year) {
            29
        } else {
            28
        }
    } else if month == 4 || month == 6 || month == 9 || month == 11 {
        30
    } else if 1 <= month <= 12 {
        31
    } else {
        0
    }
}

/// Whether the calendar has this day.
pub open spec fn is_calendar_date(year: int, month: int, day: int) -> bool {
    1 <= month <= 12 && 1 <= day <= days_in_month(year, month)
}

/// The number of leap years from the year 1 up to, not including, `year`.
pub open spec fn leap_years_before(year: int) -> int {
    (year - 1) / 4 - (year - 1) / 100 + (year - 1) / 400
}

/// The number of days of `year` that lie before the first of `month`.
pub open spec fn days_before_month(year: int, month: int) -> int
    decreases month,
{
    if month <= 1 {
        0
    } else {
        days_before_month(year, month - 1) + days_in_month(year, month - 1)
    }
}

/// The number of a day in the count that gives 1 to 1 January of the year 1:
/// 365 days for each year before, one more for each leap year among them,
/// the days of the months before, and the day of the month.
pub open spec fn days_from_ce(year: int, month: int, day: int) -> int {
    365 * (year - 1) + leap_years_before(year) + days_before_month(year, month) + day
}

/// The number of 1 January 1970 in that count.
pub open spec fn unix_epoch_day() -> int {
    719_163
}

/// The number of seconds from the start of 1970 to the start of the given
/// day, both in UTC and without leap seconds: 86 400 for each day.
pub open spec fn midnight_of(year: int, month: int, day: int) -> int {
    86_400 * (days_from_ce(year, month, day) - unix_epoch_day())
}

/// The day of the calendar that begins at the given second, as year, month
/// and day; any day where none begins then.
pub open spec fn day_beginning_at(seconds: int) -> (int, int, int) {
    choose|date: (int, int, int)|
        is_calendar_date(date.0, date.1, date.2) && midnight_of(date.0, date.1, date.2) == seconds
}

/// The days that lie before each month of a year, and the length of the
/// year.
pub proof fn lemma_days_before_month(year: int)
    ensures
        days_before_month(year, 1) == 0,
        days_before_month(year, 2) == 31,
        forall|month: int|
            3 <= month <= 13 ==> #[trigger] days_before_month(year, month) == days_before_month(
                year,
                month - 1,
            ) + days_in_month(year, month - 1),
        days_before_month(year, 13) == if is_leap_year(year) {
            366int
        } else {
            365int
        },
{
    reveal_with_fuel(days_before_month, 14);
}

/// The count gives 1 to the first day of the year 1 and 719 163 to
/// 1 January 1970, where the seconds start.
pub proof fn lemma_epoch()
    ensures
        days_from_ce(1, 1, 1) == 1,
        days_from_ce(1970, 1, 1) == unix_epoch_day(),
        midnight_of(1970, 1, 1) == 0,
{
    lemma_days_before_month(1);
    lemma_days_before_month(1970);
}

/// From one first of January to the next it is as far as the year is long:
/// 365 days, and 366 in a leap year.
pub proof fn lemma_year_length(year: int)
    ensures
        days_from_ce(year + 1, 1, 1) - days_from_ce(year, 1, 1) == days_before_month(year, 13),
{
    lemma_days_before_month(year);
    lemma_days_before_month(year + 1);
}

/// The first of January comes later in a later year.
pub proof fn lemma_years_increase(earlier: int, later: int)
    requires
        earlier <= later,
    ensures
        days_from_ce(earlier, 1, 1) <= days_from_ce(later, 1, 1),
        earlier < later ==> days_from_ce(earlier + 1, 1, 1) <= days_from_ce(later, 1, 1),
    decreases later - earlier,
{
    if earlier < later {
        lemma_years_increase(earlier, later - 1);
        lemma_year_length(later - 1);
        lemma_days_before_month(later - 1);
    }
}

/// Within a year, the days before a month grow with the month.
pub proof fn lemma_months_increase(year: int, earlier: int, later: int)
    requires
        1 <= earlier <= later <= 13,
    ensures
        days_before_month(year, earlier) <= days_before_month(year, later),
        earlier < later ==> days_before_month(year, earlier) + days_in_month(year, earlier)
            <= days_before_month(year, later),
    decreases later - earlier,
{
    if earlier < later {
        lemma_months_increase(year, earlier, later - 1);
        lemma_days_before_month(year);
    }
}

/// A later day of the calendar begins later: the seconds keep the order of
/// year, month and day.
pub proof fn lemma_later_day_begins_later(
    year: int,
    month: int,
    day: int,
    later_year: int,
    later_month: int,
    later_day: int,
)
    requires
        is_calendar_date(year, month, day),
        is_calendar_date(later_year, later_month, later_day),
        year < later_year || (year == later_year && (month < later_month || (month == later_month
            && day < later_day))),
    ensures
        days_from_ce(year, month, day) < days_from_ce(later_year, later_month, later_day),
        midnight_of(year, month, day) < midnight_of(later_year, later_month, later_day),
{
    lemma_months_increase(year, month, 13);
    lemma_months_increase(later_year, 1, later_month);
    lemma_days_before_month(year);
    lemma_days_before_month(later_year);
    if year < later_year {
        lemma_years_increase(year, later_year);
        lemma_year_length(year);
        lemma_days_before_month(year + 1);
    } else if month < later_month {
        lemma_months_increase(year, month, later_month);
    }
}

/// The seconds give the day back: two days of the calendar that begin at the
/// same second are the same day.
pub proof fn lemma_midnight_determines_day(
    year: int,
    month: int,
    day: int,
    other_year: int,
    other_month: int,
    other_day: int,
)
    requires
        is_calendar_date(year, month, day),
        is_calendar_date(other_year, other_month, other_day),
        midnight_of(year, month, day) == midnight_of(other_year, other_month, other_day),
    ensures
        year == other_year,
        month == other_month,
        day == other_day,
{
    if year < other_year || (year == other_year && (month < other_month || (month == other_month
        && day < other_day))) {
        lemma_later_day_begins_later(year, month, day, other_year, other_month, other_day);
    } else if year != other_year || month != other_month || day != other_day {
        lemma_later_day_begins_later(other_year, other_month, other_day, year, month, day);
    }
}

/// The second at which a day of the calendar begins gives that day back.
pub proof fn lemma_day_beginning_at(year: int, month: int, day: int)
    requires
        is_calendar_date(year, month, day),
    ensures
        day_beginning_at(midnight_of(year, month, day)) == (year, month, day),
{
    let seconds = midnight_of(year, month, day);
    let found = day_beginning_at(seconds);
    let given = (year, month, day);
    assert(is_calendar_date(given.0, given.1, given.2) && midnight_of(given.0, given.1, given.2)
        == seconds);
    lemma_midnight_determines_day(found.0, found.1, found.2, year, month, day);
}

} // verus!
