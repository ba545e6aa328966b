//! A task and what it is made from.

use vstd::prelude::*;

use crate::date::{due_date_of, parse_due_date};
use crate::error::TaskError;
use crate::priority::Priority;

verus! {

/// One entry of the journal.
#[derive(Clone, Debug)]
pub struct Task {
    /// The place that the task took when it was added, counted from 1; 0
    /// until then. Not unique once tasks have been removed.
    pub id: usize,
    /// What is to be done.
    pub text: String,
    /// When the task was made, in seconds since the start of 1970.
    pub created_at: i64,
    /// The start of the day on which the task is due, in seconds since the
    /// start of 1970.
    pub due_date: Option<i64>,
    /// `high`, `medium` or `low`; any other text ranks as none.
    pub priority: Option<String>,
    /// A free label to group tasks by.
    pub category: Option<String>,
}

/// A task as a mathematical value.
pub struct TaskView {
    pub id: nat,
    pub text: Seq<char>,
    pub created_at: int,
    pub due_date: Option<int>,
    pub priority: Option<Seq<char>>,
    pub category: Option<Seq<char>>,
}

/// The characters of an optional string.
pub open spec fn text_of(text: Option<String>) -> Option<Seq<char>> {
    match text {
        Some(t) => Some(t@),
        None => None,
    }
}

/// The views of a sequence of tasks, in the same order.
pub open spec fn views(tasks: Seq<Task>) -> Seq<TaskView> {
    tasks.map_values(|task: Task| task@)
}

/// The priority that a task's label stands for.
pub open spec fn priority_of(task: TaskView) -> Priority {
    Priority::of_label(task.priority)
}

/// The rank by which a task is ordered: 1 for high priority, 2 for medium
/// priority, 3 for low priority, 4 for any other task.
pub open spec fn rank_of(task: TaskView) -> int {
    priority_of(task).spec_rank() as int
}

/// The stored form of an optional due date that was given as text.
pub open spec fn stored_due_date(due_date: Option<Seq<char>>) -> Result<Option<int>, TaskError> {
    match due_date {
        None => Ok(None),
        Some(text) => match due_date_of(text) {
            Ok(seconds) => Ok(Some(seconds)),
            Err(e) => Err(e),
        },
    }
}

/// The view of a task that was made, or the reason why none was.
pub open spec fn made_view(made: Result<Task, TaskError>) -> Result<TaskView, TaskError> {
    match made {
        Ok(task) => Ok(task@),
        Err(e) => Err(e),
    }
}

impl View for Task {
    type V = TaskView;

    open spec fn view(&self) -> TaskView {
        TaskView {
            id: self.id as nat,
            text: self.text@,
            created_at: self.created_at as int,
            due_date: match self.due_date {
                Some(seconds) => Some(seconds as int),
                None => None,
            },
            priority: text_of(self.priority),
            category: text_of(self.category),
        }
    }
}

impl Task {
    /// What `new_at` makes: a task without id, priority or category, due at
    /// the start of the day that `due_date` spells, or the reason why that
    /// text is no due date.
    pub open spec fn spec_new_at(
        text: Seq<char>,
        due_date: Option<Seq<char>>,
        created_at: int,
    ) -> Result<TaskView, TaskError> {
        match stored_due_date(due_date) {
            Ok(due) => Ok(
                TaskView { id: 0, text, created_at, due_date: due, priority: None, category: None },
            ),
            Err(e) => Err(e),
        }
    }

    /// Makes a task with the present time as its time of creation.
    ///
    /// The task has no id, priority or category yet. A due date, where one
    /// is given, must have the form `YYYY-MM-DD` and name a day of the
    /// calendar; else no task is made.
    ///
    /// Equal to [`Task::new_at`] but for the time, which is read from the
    /// system clock.
    pub fn new(text: String, due_date: Option<String>) -> (made: Result<Task, TaskError>)
        ensures
            made matches Ok(task) ==> Task::spec_new_at(
                text@,
                text_of(due_date),
                task.created_at as int,
            ) == Ok::<TaskView, TaskError>(task@),
            made matches Err(e) ==> stored_due_date(text_of(due_date)) == Err::<
                Option<int>,
                TaskError,
            >(e),
    {
        Task::new_at(text, due_date, current_timestamp())
    }

    /// Makes a task that was created at the given time, in seconds since the
    /// start of 1970.
    pub fn new_at(text: String, due_date: Option<String>, created_at: i64) -> (made: Result<
        Task,
        TaskError,
    >)
        ensures
            made_view(made) == Task::spec_new_at(text@, text_of(due_date), created_at as int),
    {
        let due_date = match due_date {
            Some(date_text) => match parse_due_date(date_text.as_str()) {
                Ok(seconds) => Some(seconds),
                Err(e) => {
                    return Err(e);
                },
            },
            None => None,
        };
        Ok(Task { id: 0, text, created_at, due_date, priority: None, category: None })
    }

    /// The priority that the task's label stands for.
    pub fn priority(&self) -> (priority: Priority)
        ensures
            priority == priority_of(self@),
    {
        match &self.priority {
            Some(label) => Priority::from_label(Some(label.as_str())),
            None => Priority::Unset,
        }
    }

    /// The rank by which the task is ordered: 1 for high priority, 2 for
    /// medium priority, 3 for low priority, 4 for any other task.
    pub fn priority_order(&self) -> (rank: u8)
        ensures
            rank == rank_of(self@),
            1 <= rank <= 4,
    {
        self.priority().rank()
    }
}

/// The present time in seconds since the start of 1970, by chrono:
/// `Utc::now`, then `DateTime::timestamp`.
///
/// Nothing is promised of the value. chrono stops the program where the
/// system clock stands before 1970.
#[verifier::external_body]
fn current_timestamp() -> i64 {
    chrono::Utc::now().timestamp()
}

} // verus!
