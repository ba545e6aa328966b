//! The order of the journal: by priority rank, tasks of one rank in the
//! order in which they stood before.

use vstd::prelude::*;

use crate::priority::Priority;
use crate::task::{rank_of, views, Task, TaskView};
use crate::text::same_text;

verus! {

/// The direction in which a listing is ordered.
#[derive(Clone, Copy, Debug, PartialEq, Eq, Structural)]
pub enum SortOrder {
    /// High priority first, tasks without priority last.
    Ascending,
    /// Tasks without priority first, high priority last.
    Descending,
}

impl SortOrder {
    /// The direction that a name stands for: `desc` is descending, every
    /// other name ascending.
    pub open spec fn of_name(name: Seq<char>) -> SortOrder {
        if name == "desc"@ {
            SortOrder::Descending
        } else {
            SortOrder::Ascending
        }
    }

    /// The direction that a name stands for: `desc` is descending, every
    /// other name ascending.
    pub fn from_name(name: &str) -> (order: SortOrder)
        ensures
            order == SortOrder::of_name(name@),
    {
        if same_text(name, "desc") {
            SortOrder::Descending
        } else {
            SortOrder::Ascending
        }
    }
}

/// The tasks of one rank, in the order in which they stand.
pub open spec fn with_rank(tasks: Seq<TaskView>, rank: int) -> Seq<TaskView> {
    tasks.filter(|task: TaskView| rank_of(task) == rank)
}

/// The tasks by rising rank. Tasks of one rank keep their order.
pub open spec fn ascending(tasks: Seq<TaskView>) -> Seq<TaskView> {
    with_rank(tasks, 1) + with_rank(tasks, 2) + with_rank(tasks, 3) + with_rank(tasks, 4)
}

/// The tasks by falling rank. Tasks of one rank keep their order.
pub open spec fn descending(tasks: Seq<TaskView>) -> Seq<TaskView> {
    with_rank(tasks, 4) + with_rank(tasks, 3) + with_rank(tasks, 2) + with_rank(tasks, 1)
}

/// Whether the ranks rise along the tasks: no task stands before a task of
/// lower rank.
pub open spec fn ranks_rise(tasks: Seq<TaskView>) -> bool {
    forall|i: int, j: int|
        0 <= i <= j < tasks.len() ==> #[trigger] rank_of(tasks[i]) <= #[trigger] rank_of(tasks[j])
}

/// Whether the ranks fall along the tasks: no task stands before a task of
/// higher rank.
pub open spec fn ranks_fall(tasks: Seq<TaskView>) -> bool {
    forall|i: int, j: int|
        0 <= i <= j < tasks.len() ==> #[trigger] rank_of(tasks[i]) >= #[trigger] rank_of(tasks[j])
}

/// Whether the tasks stand in the given direction.
pub open spec fn in_order(tasks: Seq<TaskView>, order: SortOrder) -> bool {
    match order {
        SortOrder::Ascending => ranks_rise(tasks),
        SortOrder::Descending => ranks_fall(tasks),
    }
}

/// The tasks in the given direction.
pub open spec fn ordered(tasks: Seq<TaskView>, order: SortOrder) -> Seq<TaskView> {
    match order {
        SortOrder::Ascending => ascending(tasks),
        SortOrder::Descending => descending(tasks),
    }
}

/// Orders tasks by priority rank in the given direction. The sort is stable:
/// tasks of one rank keep the order in which they came.
pub fn sort_tasks(tasks: Vec<Task>, order: SortOrder) -> (sorted: Vec<Task>)
    ensures
        views(sorted@) == ordered(views(tasks@), order),
{
    let ghost all = tasks@;
    let mut high: Vec<Task> = Vec::new();
    let mut medium: Vec<Task> = Vec::new();
    let mut low: Vec<Task> = Vec::new();
    let mut unset: Vec<Task> = Vec::new();
    for task in it: tasks
        invariant
            it.seq() == all,
            views(high@) == with_rank(views(all.take(it.index())), 1),
            views(medium@) == with_rank(views(all.take(it.index())), 2),
            views(low@) == with_rank(views(all.take(it.index())), 3),
            views(unset@) == with_rank(views(all.take(it.index())), 4),
    {
        proof {
            lemma_with_rank_next(all, it.index());
        }
        match task.priority() {
            Priority::High => high.push(task),
            Priority::Medium => medium.push(task),
            Priority::Low => low.push(task),
            Priority::Unset => unset.push(task),
        }
    }
    assert(all.take(all.len() as int) == all);
    match order {
        SortOrder::Ascending => {
            high.append(&mut medium);
            high.append(&mut low);
            high.append(&mut unset);
            high
        },
        SortOrder::Descending => {
            unset.append(&mut low);
            unset.append(&mut medium);
            unset.append(&mut high);
            unset
        },
    }
}

/// How the tasks of each rank grow when one more task is taken in.
proof fn lemma_with_rank_next(tasks: Seq<Task>, i: int)
    requires
        0 <= i < tasks.len(),
    ensures
        forall|rank: int| #[trigger]
            with_rank(views(tasks.take(i + 1)), rank) == if rank_of(tasks[i]@) == rank {
                with_rank(views(tasks.take(i)), rank).push(tasks[i]@)
            } else {
                with_rank(views(tasks.take(i)), rank)
            },
        forall|bucket: Seq<Task>| #[trigger]
            views(bucket.push(tasks[i])) == views(bucket).push(tasks[i]@),
{
    assert(views(tasks.take(i + 1)).drop_last() =~= views(tasks.take(i)));
    assert(views(tasks.take(i + 1)).last() == tasks[i]@);
    reveal_with_fuel(Seq::filter, 2);
    assert forall|bucket: Seq<Task>| #[trigger]
        views(bucket.push(tasks[i])) == views(bucket).push(tasks[i]@) by {
        assert(views(bucket.push(tasks[i])) =~= views(bucket).push(tasks[i]@));
    }
}

} // verus!
