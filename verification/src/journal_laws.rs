//! What holds of the operations of the journal.

use vstd::prelude::*;
use vstd::seq_lib::*;

use crate::journal::{added, completed, in_category, listed, matching};
use crate::order::{ascending, in_order, ordered, ranks_rise, with_rank, SortOrder};
use crate::order_laws::{
    lemma_ascending_by_rank,
    lemma_in_order_stays,
    lemma_ordered_in_order,
    lemma_ordered_keeps_tasks,
};
use crate::task::{rank_of, TaskView};
use crate::text::contains_text;

verus! {

/// A task that is added to the empty journal is its only task, with the
/// id 1.
pub proof fn lemma_add_to_empty(task: TaskView)
    ensures
        added(Seq::<TaskView>::empty(), task) == seq![TaskView { id: 1, ..task }],
{
    let only = Seq::<TaskView>::empty().push(TaskView { id: 1, ..task });
    lemma_ordered_keeps_tasks(only, SortOrder::Ascending);
    assert(only.contains(only[0]));
    to_multiset_contains(only, only[0]);
    to_multiset_contains(ascending(only), only[0]);
    assert(ascending(only) =~= seq![TaskView { id: 1, ..task }]);
}

/// Adding a task makes the journal one task longer. The new task gets the
/// new length as its id; every other task stays as it was.
pub proof fn lemma_added_keeps_tasks(tasks: Seq<TaskView>, task: TaskView)
    ensures
        added(tasks, task).len() == tasks.len() + 1,
        added(tasks, task).to_multiset() == tasks.to_multiset().insert(
            TaskView { id: tasks.len() + 1, ..task },
        ),
{
    let new = TaskView { id: tasks.len() + 1, ..task };
    to_multiset_build(tasks, new);
    lemma_ordered_keeps_tasks(tasks.push(new), SortOrder::Ascending);
}

/// After a task was added the journal is in order, the ranks rising.
pub proof fn lemma_added_in_order(tasks: Seq<TaskView>, task: TaskView)
    ensures
        ranks_rise(added(tasks, task)),
{
    lemma_ascending_by_rank(tasks.push(TaskView { id: tasks.len() + 1, ..task }));
}

/// Completing the task at a position from 1 to the length of the journal
/// takes exactly that task away: the journal is one task shorter, and every
/// other task stays.
pub proof fn lemma_completed_removes_one(tasks: Seq<TaskView>, position: int)
    requires
        1 <= position <= tasks.len(),
    ensures
        completed(tasks, position).len() == tasks.len() - 1,
        completed(tasks, position).to_multiset() == tasks.to_multiset().remove(
            tasks[position - 1],
        ),
{
    to_multiset_remove(tasks, position - 1);
    lemma_ordered_keeps_tasks(tasks.remove(position - 1), SortOrder::Ascending);
}

/// After a task was completed the journal is in order, the ranks rising.
pub proof fn lemma_completed_in_order(tasks: Seq<TaskView>, position: int)
    requires
        1 <= position <= tasks.len(),
    ensures
        ranks_rise(completed(tasks, position)),
{
    lemma_ascending_by_rank(tasks.remove(position - 1));
}

/// In a journal that is in order, completing a task moves no other task:
/// the journal is as before but for the task that was removed.
pub proof fn lemma_completed_in_place(tasks: Seq<TaskView>, position: int)
    requires
        1 <= position <= tasks.len(),
        ranks_rise(tasks),
    ensures
        completed(tasks, position) == tasks.remove(position - 1),
{
    let shorter = tasks.remove(position - 1);
    assert(ranks_rise(shorter)) by {
        assert forall|i: int, j: int| 0 <= i <= j < shorter.len() implies rank_of(
            #[trigger] shorter[i],
        ) <= rank_of(#[trigger] shorter[j]) by {
            let from = if i < position - 1 {
                i
            } else {
                i + 1
            };
            let to = if j < position - 1 {
                j
            } else {
                j + 1
            };
            assert(rank_of(tasks[from]) <= rank_of(tasks[to]));
        }
    }
    lemma_in_order_stays(shorter, SortOrder::Ascending);
}

/// A listing of a journal that stands in the direction asked for shows the
/// tasks of the category as they stand in the journal.
pub proof fn lemma_listed_in_place(
    tasks: Seq<TaskView>,
    category: Option<Seq<char>>,
    order: SortOrder,
)
    requires
        in_order(tasks, order),
    ensures
        listed(tasks, category, order) == in_category(tasks, category),
{
    lemma_in_order_stays(tasks, order);
}

/// Taking the tasks of a rank and those of a category can go in either
/// order.
pub proof fn lemma_category_of_rank(tasks: Seq<TaskView>, category: Option<Seq<char>>, rank: int)
    ensures
        in_category(with_rank(tasks, rank), category) == with_rank(
            in_category(tasks, category),
            rank,
        ),
    decreases tasks.len(),
{
    reveal_with_fuel(Seq::filter, 2);
    if tasks.len() > 0 && category is Some {
        let rest = tasks.drop_last();
        let last = tasks.last();
        lemma_category_of_rank(rest, category, rank);
        if rank_of(last) == rank {
            assert(with_rank(tasks, rank).drop_last() =~= with_rank(rest, rank));
        }
        if last.category == category {
            assert(in_category(tasks, category).drop_last() =~= in_category(rest, category));
        }
    }
}

/// A listing shows exactly the tasks of the category that was asked for,
/// each as often as it stands in the journal, in the direction that was
/// asked for: ordering and then narrowing gives what narrowing and then
/// ordering gives.
pub proof fn lemma_listed(tasks: Seq<TaskView>, category: Option<Seq<char>>, order: SortOrder)
    ensures
        listed(tasks, category, order) == ordered(in_category(tasks, category), order),
        listed(tasks, category, order).to_multiset() == in_category(
            tasks,
            category,
        ).to_multiset(),
        category is Some ==> forall|i: int|
            0 <= i < listed(tasks, category, order).len() ==> (#[trigger] listed(
                tasks,
                category,
                order,
            )[i]).category == category,
        in_order(listed(tasks, category, order), order),
{
    let a = with_rank(tasks, 1);
    let b = with_rank(tasks, 2);
    let c = with_rank(tasks, 3);
    let d = with_rank(tasks, 4);
    lemma_category_of_rank(tasks, category, 1);
    lemma_category_of_rank(tasks, category, 2);
    lemma_category_of_rank(tasks, category, 3);
    lemma_category_of_rank(tasks, category, 4);
    if category is Some {
        let of_category = |task: TaskView| task.category == Some(category->0);
        Seq::filter_distributes_over_add(a, b, of_category);
        Seq::filter_distributes_over_add(a + b, c, of_category);
        Seq::filter_distributes_over_add(a + b + c, d, of_category);
        Seq::filter_distributes_over_add(d, c, of_category);
        Seq::filter_distributes_over_add(d + c, b, of_category);
        Seq::filter_distributes_over_add(d + c + b, a, of_category);
        assert forall|i: int| 0 <= i < listed(tasks, category, order).len() implies (
        #[trigger] listed(tasks, category, order)[i]).category == category by {
            ordered(tasks, order).lemma_filter_pred(of_category, i);
        }
    }
    assert(listed(tasks, category, order) =~= ordered(in_category(tasks, category), order));
    lemma_ordered_keeps_tasks(in_category(tasks, category), order);
    lemma_ordered_in_order(in_category(tasks, category), order);
}

/// A search finds exactly the tasks whose text holds the keyword: every
/// task found holds it, every task of the journal that holds it is found,
/// and nothing is found that is not in the journal.
pub proof fn lemma_matching(tasks: Seq<TaskView>, keyword: Seq<char>)
    ensures
        forall|i: int|
            0 <= i < matching(tasks, keyword).len() ==> contains_text(
                (#[trigger] matching(tasks, keyword)[i]).text,
                keyword,
            ),
        forall|i: int|
            0 <= i < tasks.len() && contains_text(tasks[i].text, keyword) ==> matching(
                tasks,
                keyword,
            ).contains(#[trigger] tasks[i]),
        forall|task: TaskView| #[trigger]
            matching(tasks, keyword).contains(task) ==> tasks.contains(task),
        matching(tasks, keyword).len() <= tasks.len(),
{
    let holds = |task: TaskView| contains_text(task.text, keyword);
    assert forall|i: int| 0 <= i < matching(tasks, keyword).len() implies contains_text(
        (#[trigger] matching(tasks, keyword)[i]).text,
        keyword,
    ) by {
        tasks.lemma_filter_pred(holds, i);
    }
    assert forall|i: int|
        0 <= i < tasks.len() && contains_text(tasks[i].text, keyword) implies matching(
        tasks,
        keyword,
    ).contains(#[trigger] tasks[i]) by {
        tasks.lemma_filter_contains(holds, i);
    }
    assert forall|task: TaskView| #[trigger]
        matching(tasks, keyword).contains(task) implies tasks.contains(task) by {
        tasks.lemma_filter_contains_rev(holds, task);
    }
    tasks.lemma_filter_len(holds);
}

} // verus!
