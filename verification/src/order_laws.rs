//! What holds of the order of the journal: it keeps every task, it goes by
//! rank, and it leaves tasks of one rank as they stood.

use vstd::prelude::*;
use vstd::seq_lib::*;

use crate::order::{
    ascending, descending, in_order, ordered, ranks_fall, ranks_rise, with_rank, SortOrder,
};
use crate::task::{rank_of, TaskView};

verus! {

/// Every task has a rank from 1 to 4.
pub proof fn lemma_rank_bounds(task: TaskView)
    ensures
        1 <= rank_of(task) <= 4,
{
}

/// The tasks of a rank are of that rank.
pub proof fn lemma_with_rank_has_rank(tasks: Seq<TaskView>, rank: int)
    ensures
        forall|i: int|
            0 <= i < with_rank(tasks, rank).len() ==> rank_of(#[trigger] with_rank(tasks, rank)[i])
                == rank,
{
    let of_rank = |task: TaskView| rank_of(task) == rank;
    assert forall|i: int| 0 <= i < with_rank(tasks, rank).len() implies rank_of(
        #[trigger] with_rank(tasks, rank)[i],
    ) == rank by {
        tasks.lemma_filter_pred(of_rank, i);
    }
}

/// Taking the tasks of a rank twice is taking them once; taking those of
/// another rank from them leaves nothing.
pub proof fn lemma_with_rank_twice(tasks: Seq<TaskView>, first: int, second: int)
    ensures
        with_rank(with_rank(tasks, first), second) == if first == second {
            with_rank(tasks, first)
        } else {
            Seq::<TaskView>::empty()
        },
    decreases tasks.len(),
{
    reveal_with_fuel(Seq::filter, 2);
    if tasks.len() > 0 {
        lemma_with_rank_twice(tasks.drop_last(), first, second);
        let rest = with_rank(tasks.drop_last(), first);
        if rank_of(tasks.last()) == first {
            assert(with_rank(tasks, first) == rest.push(tasks.last()));
            assert(rest.push(tasks.last()).drop_last() =~= rest);
        }
    }
}

/// The four ranks share out the tasks: each task is of one of them.
pub proof fn lemma_ranks_share_out(tasks: Seq<TaskView>)
    ensures
        with_rank(tasks, 1).to_multiset().add(with_rank(tasks, 2).to_multiset()).add(
            with_rank(tasks, 3).to_multiset(),
        ).add(with_rank(tasks, 4).to_multiset()) == tasks.to_multiset(),
    decreases tasks.len(),
{
    broadcast use group_to_multiset_ensures;

    reveal_with_fuel(Seq::filter, 2);
    let sum = with_rank(tasks, 1).to_multiset().add(with_rank(tasks, 2).to_multiset()).add(
        with_rank(tasks, 3).to_multiset(),
    ).add(with_rank(tasks, 4).to_multiset());
    if tasks.len() == 0 {
        assert(sum =~= tasks.to_multiset());
    } else {
        let rest = tasks.drop_last();
        let last = tasks.last();
        lemma_ranks_share_out(rest);
        lemma_rank_bounds(last);
        assert(tasks =~= rest.push(last));
        assert(tasks.to_multiset() =~= rest.to_multiset().insert(last));
        assert(sum =~= tasks.to_multiset());
    }
}

/// Ordering keeps every task, as often as it stood in the journal, and adds
/// none.
pub proof fn lemma_ordered_keeps_tasks(tasks: Seq<TaskView>, order: SortOrder)
    ensures
        ordered(tasks, order).to_multiset() == tasks.to_multiset(),
        ordered(tasks, order).len() == tasks.len(),
{
    broadcast use group_to_multiset_ensures;

    let a = with_rank(tasks, 1);
    let b = with_rank(tasks, 2);
    let c = with_rank(tasks, 3);
    let d = with_rank(tasks, 4);
    lemma_ranks_share_out(tasks);
    lemma_multiset_commutative(a, b);
    lemma_multiset_commutative(a + b, c);
    lemma_multiset_commutative(a + b + c, d);
    lemma_multiset_commutative(d, c);
    lemma_multiset_commutative(d + c, b);
    lemma_multiset_commutative(d + c + b, a);
    assert(ascending(tasks).to_multiset() =~= tasks.to_multiset());
    assert(descending(tasks).to_multiset() =~= tasks.to_multiset());
    assert(ordered(tasks, order).len() == ordered(tasks, order).to_multiset().len());
    assert(tasks.len() == tasks.to_multiset().len());
}

/// In ascending order the ranks rise: no task stands before a task of lower
/// rank. High priority comes first, then medium, then low, then the rest.
pub proof fn lemma_ascending_by_rank(tasks: Seq<TaskView>)
    ensures
        ranks_rise(ascending(tasks)),
{
    lemma_with_rank_has_rank(tasks, 1);
    lemma_with_rank_has_rank(tasks, 2);
    lemma_with_rank_has_rank(tasks, 3);
    lemma_with_rank_has_rank(tasks, 4);
    let a = with_rank(tasks, 1);
    let b = with_rank(tasks, 2);
    let c = with_rank(tasks, 3);
    let d = with_rank(tasks, 4);
    assert forall|i: int| 0 <= i < ascending(tasks).len() implies rank_of(
        #[trigger] ascending(tasks)[i],
    ) == (if i < a.len() {
        1int
    } else if i < a.len() + b.len() {
        2int
    } else if i < a.len() + b.len() + c.len() {
        3int
    } else {
        4int
    }) by {
        if i < a.len() {
            assert(ascending(tasks)[i] == a[i]);
        } else if i < a.len() + b.len() {
            assert(ascending(tasks)[i] == b[i - a.len()]);
        } else if i < a.len() + b.len() + c.len() {
            assert(ascending(tasks)[i] == c[i - a.len() - b.len()]);
        } else {
            assert(ascending(tasks)[i] == d[i - a.len() - b.len() - c.len()]);
        }
    }
}

/// In descending order the ranks fall: no task stands before a task of
/// higher rank. Tasks without priority come first, high priority last.
pub proof fn lemma_descending_by_rank(tasks: Seq<TaskView>)
    ensures
        ranks_fall(descending(tasks)),
{
    lemma_with_rank_has_rank(tasks, 1);
    lemma_with_rank_has_rank(tasks, 2);
    lemma_with_rank_has_rank(tasks, 3);
    lemma_with_rank_has_rank(tasks, 4);
    let a = with_rank(tasks, 1);
    let b = with_rank(tasks, 2);
    let c = with_rank(tasks, 3);
    let d = with_rank(tasks, 4);
    assert forall|i: int| 0 <= i < descending(tasks).len() implies rank_of(
        #[trigger] descending(tasks)[i],
    ) == (if i < d.len() {
        4int
    } else if i < d.len() + c.len() {
        3int
    } else if i < d.len() + c.len() + b.len() {
        2int
    } else {
        1int
    }) by {
        if i < d.len() {
            assert(descending(tasks)[i] == d[i]);
        } else if i < d.len() + c.len() {
            assert(descending(tasks)[i] == c[i - d.len()]);
        } else if i < d.len() + c.len() + b.len() {
            assert(descending(tasks)[i] == b[i - d.len() - c.len()]);
        } else {
            assert(descending(tasks)[i] == a[i - d.len() - c.len() - b.len()]);
        }
    }
}

/// Ordering is stable: the tasks of a rank stand after it as they stood
/// before, in either direction.
pub proof fn lemma_ordered_is_stable(tasks: Seq<TaskView>, order: SortOrder, rank: int)
    ensures
        with_rank(ordered(tasks, order), rank) == with_rank(tasks, rank),
{
    let of_rank = |task: TaskView| rank_of(task) == rank;
    let a = with_rank(tasks, 1);
    let b = with_rank(tasks, 2);
    let c = with_rank(tasks, 3);
    let d = with_rank(tasks, 4);
    lemma_with_rank_twice(tasks, 1, rank);
    lemma_with_rank_twice(tasks, 2, rank);
    lemma_with_rank_twice(tasks, 3, rank);
    lemma_with_rank_twice(tasks, 4, rank);
    Seq::filter_distributes_over_add(a, b, of_rank);
    Seq::filter_distributes_over_add(a + b, c, of_rank);
    Seq::filter_distributes_over_add(a + b + c, d, of_rank);
    Seq::filter_distributes_over_add(d, c, of_rank);
    Seq::filter_distributes_over_add(d + c, b, of_rank);
    Seq::filter_distributes_over_add(d + c + b, a, of_rank);
    if !(1 <= rank <= 4) {
        lemma_no_other_rank(tasks, rank);
    }
    assert(with_rank(ascending(tasks), rank) =~= with_rank(tasks, rank));
    assert(with_rank(descending(tasks), rank) =~= with_rank(tasks, rank));
}

/// No task has a rank outside 1 to 4.
proof fn lemma_no_other_rank(tasks: Seq<TaskView>, rank: int)
    requires
        !(1 <= rank <= 4),
    ensures
        with_rank(tasks, rank) == Seq::<TaskView>::empty(),
    decreases tasks.len(),
{
    reveal_with_fuel(Seq::filter, 2);
    if tasks.len() > 0 {
        lemma_no_other_rank(tasks.drop_last(), rank);
        lemma_rank_bounds(tasks.last());
    }
}

/// What was ordered is in order.
pub proof fn lemma_ordered_in_order(tasks: Seq<TaskView>, order: SortOrder)
    ensures
        in_order(ordered(tasks, order), order),
{
    lemma_ascending_by_rank(tasks);
    lemma_descending_by_rank(tasks);
}

/// Among tasks whose ranks rise there is no task of a rank above that of
/// the last.
proof fn lemma_none_above_last(tasks: Seq<TaskView>, rank: int)
    requires
        tasks.len() > 0,
        ranks_rise(tasks),
        rank > rank_of(tasks.last()),
    ensures
        with_rank(tasks.drop_last(), rank) == Seq::<TaskView>::empty(),
{
    let of_rank = |task: TaskView| rank_of(task) == rank;
    let found = with_rank(tasks.drop_last(), rank);
    if found.len() > 0 {
        tasks.drop_last().lemma_filter_pred(of_rank, 0);
        assert(found.contains(found[0]));
        tasks.drop_last().lemma_filter_contains_rev(of_rank, found[0]);
        let i = choose|i: int| 0 <= i < tasks.drop_last().len() && tasks.drop_last()[i] == found[0];
        assert(rank_of(tasks[i]) <= rank_of(tasks[tasks.len() - 1]));
    }
}

/// Among tasks whose ranks fall there is no task of a rank below that of
/// the last.
proof fn lemma_none_below_last(tasks: Seq<TaskView>, rank: int)
    requires
        tasks.len() > 0,
        ranks_fall(tasks),
        rank < rank_of(tasks.last()),
    ensures
        with_rank(tasks.drop_last(), rank) == Seq::<TaskView>::empty(),
{
    let of_rank = |task: TaskView| rank_of(task) == rank;
    let found = with_rank(tasks.drop_last(), rank);
    if found.len() > 0 {
        tasks.drop_last().lemma_filter_pred(of_rank, 0);
        assert(found.contains(found[0]));
        tasks.drop_last().lemma_filter_contains_rev(of_rank, found[0]);
        let i = choose|i: int| 0 <= i < tasks.drop_last().len() && tasks.drop_last()[i] == found[0];
        assert(rank_of(tasks[i]) >= rank_of(tasks[tasks.len() - 1]));
    }
}

/// Ordering a task in behind tasks that are all of its rank or of an
/// earlier one leaves it last.
proof fn lemma_ordered_push(rest: Seq<TaskView>, last: TaskView, order: SortOrder)
    requires
        forall|rank: int|
            (match order {
                SortOrder::Ascending => rank > rank_of(last),
                SortOrder::Descending => rank < rank_of(last),
            }) ==> #[trigger] with_rank(rest, rank) == Seq::<TaskView>::empty(),
    ensures
        ordered(rest.push(last), order) == ordered(rest, order).push(last),
{
    reveal_with_fuel(Seq::filter, 2);
    lemma_rank_bounds(last);
    let tasks = rest.push(last);
    assert(tasks.drop_last() =~= rest);
    // The premise speaks of the four groups of `rest` once they are named.
    let groups = seq![with_rank(rest, 1), with_rank(rest, 2), with_rank(rest, 3), with_rank(rest, 4)];
    assert(groups.len() == 4);
    assert(ordered(tasks, order) =~= ordered(rest, order).push(last));
}

/// Tasks without their last are in order where the tasks are.
proof fn lemma_rest_in_order(tasks: Seq<TaskView>, order: SortOrder)
    requires
        tasks.len() > 0,
        in_order(tasks, order),
    ensures
        in_order(tasks.drop_last(), order),
{
    let rest = tasks.drop_last();
    assert forall|i: int, j: int| 0 <= i <= j < rest.len() implies (rank_of(#[trigger] rest[i])
        <= rank_of(#[trigger] rest[j]) <==> rank_of(tasks[i]) <= rank_of(tasks[j])) by {}
}

/// Where tasks stand in order, so do the tasks before the last, and among
/// these is no task of a later rank than the last.
proof fn lemma_last_stands_last(tasks: Seq<TaskView>, order: SortOrder)
    requires
        tasks.len() > 0,
        in_order(tasks, order),
    ensures
        in_order(tasks.drop_last(), order),
        forall|rank: int|
            (match order {
                SortOrder::Ascending => rank > rank_of(tasks.last()),
                SortOrder::Descending => rank < rank_of(tasks.last()),
            }) ==> #[trigger] with_rank(tasks.drop_last(), rank) == Seq::<TaskView>::empty(),
{
    lemma_rest_in_order(tasks, order);
    assert forall|rank: int|
        (match order {
            SortOrder::Ascending => rank > rank_of(tasks.last()),
            SortOrder::Descending => rank < rank_of(tasks.last()),
        }) implies #[trigger] with_rank(tasks.drop_last(), rank) == Seq::<TaskView>::empty() by {
        match order {
            SortOrder::Ascending => lemma_none_above_last(tasks, rank),
            SortOrder::Descending => lemma_none_below_last(tasks, rank),
        }
    }
}

/// The empty journal is in order.
proof fn lemma_ordered_empty(order: SortOrder)
    ensures
        ordered(Seq::<TaskView>::empty(), order) == Seq::<TaskView>::empty(),
{
    reveal_with_fuel(Seq::filter, 1);
    assert(ordered(Seq::<TaskView>::empty(), order) =~= Seq::<TaskView>::empty());
}

/// Tasks are their last task behind the tasks before it.
proof fn lemma_split_last(tasks: Seq<TaskView>)
    ensures
        tasks.len() == 0 ==> tasks == Seq::<TaskView>::empty(),
        tasks.len() > 0 ==> tasks == tasks.drop_last().push(tasks.last()),
{
    if tasks.len() == 0 {
        assert(tasks =~= Seq::<TaskView>::empty());
    } else {
        assert(tasks =~= tasks.drop_last().push(tasks.last()));
    }
}

/// Tasks that stand in order stay as they are when they are ordered: the
/// order moves a task only where a task of a later rank stands before it.
pub proof fn lemma_in_order_stays(tasks: Seq<TaskView>, order: SortOrder)
    requires
        in_order(tasks, order),
    ensures
        ordered(tasks, order) == tasks,
    decreases tasks.len(),
{
    lemma_split_last(tasks);
    if tasks.len() == 0 {
        lemma_ordered_empty(order);
    } else {
        lemma_last_stands_last(tasks, order);
        lemma_in_order_stays(tasks.drop_last(), order);
        lemma_ordered_push(tasks.drop_last(), tasks.last(), order);
    }
}

/// There is one stable order only: tasks that stand in order, and hold for
/// each rank the tasks of the journal as they stood there, are the journal
/// in that order.
pub proof fn lemma_stable_order_is_unique(
    tasks: Seq<TaskView>,
    order: SortOrder,
    sorted: Seq<TaskView>,
)
    requires
        in_order(sorted, order),
        forall|rank: int| 1 <= rank <= 4 ==> with_rank(sorted, rank) == with_rank(tasks, rank),
    ensures
        sorted == ordered(tasks, order),
{
    lemma_in_order_stays(sorted, order);
}

/// Ordering twice is ordering once.
pub proof fn lemma_ordered_twice(tasks: Seq<TaskView>, order: SortOrder)
    ensures
        ordered(ordered(tasks, order), order) == ordered(tasks, order),
{
    lemma_ordered_in_order(tasks, order);
    lemma_in_order_stays(ordered(tasks, order), order);
}

} // verus!
