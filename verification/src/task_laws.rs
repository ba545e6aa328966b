//! What holds of the making of a task.

use vstd::prelude::*;

use crate::calendar::{day_beginning_at, is_calendar_date, lemma_day_beginning_at};
use crate::date::{day_of, is_date_shaped, month_of, year_of};
use crate::error::ErrorKind;
use crate::task::Task;

verus! {

/// A task without a due date is always made.
pub proof fn lemma_no_due_date(text: Seq<char>, created_at: int)
    ensures
        Task::spec_new_at(text, None, created_at) matches Ok(task) && task.due_date is None,
{
}

/// A due date of the form `YYYY-MM-DD` that names a day of the calendar is
/// accepted, and what is stored gives that day back.
pub proof fn lemma_valid_due_date(text: Seq<char>, due_date: Seq<char>, created_at: int)
    requires
        is_date_shaped(due_date),
        is_calendar_date(year_of(due_date), month_of(due_date), day_of(due_date)),
    ensures
        Task::spec_new_at(text, Some(due_date), created_at) matches Ok(task)
            && task.due_date matches Some(seconds) && day_beginning_at(seconds) == (
            year_of(due_date),
            month_of(due_date),
            day_of(due_date),
        ),
{
    lemma_day_beginning_at(year_of(due_date), month_of(due_date), day_of(due_date));
}

/// Any other due date is refused as invalid input, and no task is made.
pub proof fn lemma_malformed_due_date(text: Seq<char>, due_date: Seq<char>, created_at: int)
    requires
        !is_date_shaped(due_date) || !is_calendar_date(
            year_of(due_date),
            month_of(due_date),
            day_of(due_date),
        ),
    ensures
        Task::spec_new_at(text, Some(due_date), created_at) matches Err(e) && e.spec_kind()
            == ErrorKind::InvalidInput,
{
}

} // verus!
