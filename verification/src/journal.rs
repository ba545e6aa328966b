//! The operations of the journal: add a task, complete one, list and search.
//!
//! Each takes the journal as it was read and gives back what is to be
//! written or shown. The journal is kept by rising priority rank, so every
//! operation that changes it orders it anew.

use vstd::prelude::*;

use crate::error::TaskError;
use crate::order::{ascending, ordered, sort_tasks, SortOrder};
use crate::task::{text_of, views, Task, TaskView};
use crate::text::{chars_of, contains_chars, contains_text, same_text};

verus! {

/// One line of a listing.
#[derive(Clone, Debug)]
pub struct Row {
    /// The number under which the task is shown, counted from 1.
    pub number: usize,
    pub task: Task,
}

/// What `list_tasks` shows.
#[derive(Clone, Debug)]
pub enum Listing {
    /// The journal holds no task.
    Empty,
    /// The tasks that are shown, in the order in which they are shown. No
    /// row at all where the journal holds tasks, but none of the category
    /// asked for.
    Rows(Vec<Row>),
}

/// The tasks of a sequence of rows, as views.
pub open spec fn row_views(rows: Seq<Row>) -> Seq<TaskView> {
    rows.map_values(|row: Row| row.task@)
}

/// The views of tasks that are held by reference.
pub open spec fn ref_views(tasks: Seq<&Task>) -> Seq<TaskView> {
    tasks.map_values(|task: &Task| task@)
}

/// The journal after `task` was added: the task gets the next free place as
/// its id, joins the end, and the journal is ordered by rising rank.
pub open spec fn added(tasks: Seq<TaskView>, task: TaskView) -> Seq<TaskView> {
    ascending(tasks.push(TaskView { id: tasks.len() + 1, ..task }))
}

/// The journal after the task at `position`, counted from 1, was removed and
/// the rest ordered by rising rank.
pub open spec fn completed(tasks: Seq<TaskView>, position: int) -> Seq<TaskView> {
    ascending(tasks.remove(position - 1))
}

/// The tasks of a category, in the order in which they stand; all tasks
/// where no category is asked for. A category is matched exactly.
pub open spec fn in_category(tasks: Seq<TaskView>, category: Option<Seq<char>>) -> Seq<TaskView> {
    match category {
        None => tasks,
        Some(c) => tasks.filter(|task: TaskView| task.category == Some(c)),
    }
}

/// The tasks that a listing shows: ordered in the given direction, then
/// those of the category.
pub open spec fn listed(
    tasks: Seq<TaskView>,
    category: Option<Seq<char>>,
    order: SortOrder,
) -> Seq<TaskView> {
    in_category(ordered(tasks, order), category)
}

/// The tasks whose text holds `keyword`, in the order in which they stand.
pub open spec fn matching(tasks: Seq<TaskView>, keyword: Seq<char>) -> Seq<TaskView> {
    tasks.filter(|task: TaskView| contains_text(task.text, keyword))
}

/// Whether a journal file holds nothing but blanks: spaces, tabs and line
/// ends.
pub open spec fn is_blank(content: Seq<char>) -> bool {
    forall|i: int|
        0 <= i < content.len() ==> {
            let c = #[trigger] content[i];
            c == ' ' || c == '\t' || c == '\n' || c == '\r'
        }
}

/// Whether a journal file holds nothing but blanks: spaces, tabs and line
/// ends.
pub fn blank(content: &str) -> (blank: bool)
    ensures
        blank == is_blank(content@),
{
    for c in it: content.chars()
        invariant
            it.seq() == content@,
            is_blank(content@.take(it.index())),
    {
        if !(c == ' ' || c == '\t' || c == '\n' || c == '\r') {
            assert(content@[it.index()] == c);
            return false;
        }
        assert forall|i: int| 0 <= i < it.index() + 1 implies {
            let c = #[trigger] content@.take(it.index() + 1)[i];
            c == ' ' || c == '\t' || c == '\n' || c == '\r'
        } by {
            if i < it.index() {
                assert(content@.take(it.index())[i] == content@[i]);
            }
        }
    }
    assert(content@.take(content@.len() as int) == content@);
    true
}

/// The journal that a file holds. `parsed` is what a reader of JSON made of
/// `content`: the tasks, or its account of why it found none.
///
/// A file that is empty or blank holds the empty journal, whatever the
/// reader said of it. Any other content that the reader refused is an error.
pub fn collect_tasks(content: &str, parsed: Result<Vec<Task>, String>) -> (journal: Result<
    Vec<Task>,
    TaskError,
>)
    ensures
        is_blank(content@) ==> (journal matches Ok(tasks) && tasks@.len() == 0),
        !is_blank(content@) ==> match parsed {
            Ok(tasks) => journal == Ok::<Vec<Task>, TaskError>(tasks),
            Err(fault) => journal == Err::<Vec<Task>, TaskError>(TaskError::Malformed(fault)),
        },
{
    if blank(content) {
        Ok(Vec::new())
    } else {
        match parsed {
            Ok(tasks) => Ok(tasks),
            Err(fault) => Err(TaskError::Malformed(fault)),
        }
    }
}

/// Adds a task to the journal. The task's id becomes the number of tasks
/// that the journal then holds; the journal is ordered by rising rank.
pub fn add_task(tasks: Vec<Task>, task: Task) -> (journal: Vec<Task>)
    requires
        tasks@.len() < usize::MAX,
    ensures
        views(journal@) == added(views(tasks@), task@),
{
    let mut tasks = tasks;
    let mut task = task;
    let ghost before = tasks@;
    let ghost given = task@;
    task.id = tasks.len() + 1;
    tasks.push(task);
    assert(views(tasks@) =~= views(before).push(TaskView { id: before.len() + 1, ..given }));
    sort_tasks(tasks, SortOrder::Ascending)
}

/// Removes the task at `task_position`, counted from 1 in the order in
/// which the journal stands, and orders the rest by rising rank.
///
/// Position 0 and positions past the end are refused, and nothing is removed.
pub fn complete_task(tasks: Vec<Task>, task_position: usize) -> (journal: Result<
    Vec<Task>,
    TaskError,
>)
    ensures
        1 <= task_position <= tasks@.len() ==> (journal matches Ok(rest) && views(rest@)
            == completed(views(tasks@), task_position as int)),
        !(1 <= task_position <= tasks@.len()) ==> (journal matches Err(e) && e
            == TaskError::InvalidPosition),
{
    let mut tasks = tasks;
    if task_position == 0 || task_position > tasks.len() {
        return Err(TaskError::InvalidPosition);
    }
    let ghost before = tasks@;
    tasks.remove(task_position - 1);
    assert(views(tasks@) =~= views(before).remove(task_position - 1));
    Ok(sort_tasks(tasks, SortOrder::Ascending))
}

/// Lists the journal: ordered by priority in the direction that
/// `sort_order` names (`desc` for descending, anything else for ascending),
/// then narrowed to `category` where one is given. The rows are numbered
/// from 1 as they are shown.
pub fn list_tasks(tasks: Vec<Task>, category: Option<String>, sort_order: String) -> (listing:
    Listing)
    ensures
        tasks@.len() == 0 <==> listing is Empty,
        listing matches Listing::Rows(rows) ==> {
            &&& row_views(rows@) == listed(
                views(tasks@),
                text_of(category),
                SortOrder::of_name(sort_order@),
            )
            &&& forall|i: int| 0 <= i < rows@.len() ==> (#[trigger] rows@[i]).number == i + 1
        },
{
    if tasks.len() == 0 {
        return Listing::Empty;
    }
    let order = SortOrder::from_name(sort_order.as_str());
    let sorted = sort_tasks(tasks, order);
    let ghost all = sorted@;
    let total: usize = sorted.len();
    let ghost wanted = text_of(category);
    let mut rows: Vec<Row> = Vec::new();
    for task in it: sorted
        invariant
            it.seq() == all,
            all.len() == total,
            wanted == text_of(category),
            row_views(rows@) == in_category(views(all.take(it.index())), wanted),
            rows@.len() <= it.index(),
            forall|i: int| 0 <= i < rows@.len() ==> (#[trigger] rows@[i]).number == i + 1,
    {
        proof {
            lemma_in_category_next(all, it.index(), wanted);
        }
        let shown = match &category {
            None => true,
            Some(c) => match &task.category {
                Some(own) => same_text(own.as_str(), c.as_str()),
                None => false,
            },
        };
        if shown {
            let ghost before = rows@;
            let number: usize = rows.len() + 1;
            rows.push(Row { number, task });
            assert(row_views(rows@) =~= row_views(before).push(task@));
        }
    }
    assert(all.take(all.len() as int) == all);
    Listing::Rows(rows)
}

/// Finds the tasks whose text holds `keyword`, character for character, in
/// the order in which the journal stands. No match is no error: the result
/// is then empty.
pub fn search_tasks<'a>(tasks: &'a Vec<Task>, keyword: String) -> (found: Vec<&'a Task>)
    ensures
        ref_views(found@) == matching(views(tasks@), keyword@),
{
    let keyword_chars = chars_of(keyword.as_str());
    let mut found: Vec<&'a Task> = Vec::new();
    let mut i: usize = 0;
    while i < tasks.len()
        invariant
            i <= tasks@.len(),
            keyword_chars@ == keyword@,
            ref_views(found@) == matching(views(tasks@.take(i as int)), keyword@),
        decreases tasks@.len() - i,
    {
        proof {
            lemma_matching_next(tasks@, i as int, keyword@);
        }
        let task = &tasks[i];
        let text_chars = chars_of(task.text.as_str());
        if contains_chars(&text_chars, &keyword_chars) {
            let ghost before = found@;
            found.push(task);
            assert(ref_views(found@) =~= ref_views(before).push(task@));
        }
        i += 1;
    }
    assert(tasks@.take(tasks@.len() as int) == tasks@);
    found
}

/// How the tasks of a category grow when one more task is taken in.
proof fn lemma_in_category_next(tasks: Seq<Task>, i: int, category: Option<Seq<char>>)
    requires
        0 <= i < tasks.len(),
    ensures
        in_category(views(tasks.take(i + 1)), category) == if category is None
            || tasks[i]@.category == category {
            in_category(views(tasks.take(i)), category).push(tasks[i]@)
        } else {
            in_category(views(tasks.take(i)), category)
        },
{
    assert(views(tasks.take(i + 1)).drop_last() =~= views(tasks.take(i)));
    assert(views(tasks.take(i + 1)).last() == tasks[i]@);
    assert(views(tasks.take(i + 1)) =~= views(tasks.take(i)).push(tasks[i]@));
    reveal_with_fuel(Seq::filter, 2);
}

/// How the tasks that hold a keyword grow when one more task is taken in.
proof fn lemma_matching_next(tasks: Seq<Task>, i: int, keyword: Seq<char>)
    requires
        0 <= i < tasks.len(),
    ensures
        matching(views(tasks.take(i + 1)), keyword) == if contains_text(tasks[i]@.text, keyword) {
            matching(views(tasks.take(i)), keyword).push(tasks[i]@)
        } else {
            matching(views(tasks.take(i)), keyword)
        },
{
    assert(views(tasks.take(i + 1)).drop_last() =~= views(tasks.take(i)));
    assert(views(tasks.take(i + 1)).last() == tasks[i]@);
    reveal_with_fuel(Seq::filter, 2);
}

} // verus!
