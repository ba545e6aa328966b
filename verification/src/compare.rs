//! Comparison of tasks. Tasks are compared by priority rank and by nothing
//! else: two tasks of one rank are equal, whatever else they hold.

use std::cmp::Ordering;
use vstd::prelude::*;

use crate::task::{rank_of, Task};

verus! {

/// How a rank stands to another: the lower rank is the lesser.
pub open spec fn rank_order(rank: int, other: int) -> Ordering {
    if rank < other {
        Ordering::Less
    } else if rank == other {
        Ordering::Equal
    } else {
        Ordering::Greater
    }
}

impl Task {
    /// Orders the task against another by priority rank: the task with the
    /// lower rank is the lesser.
    pub fn cmp(&self, other: &Task) -> (order: Ordering)
        ensures
            order == rank_order(rank_of(self@), rank_of(other@)),
    {
        let rank: u8 = self.priority_order();
        let other_rank: u8 = other.priority_order();
        if rank < other_rank {
            Ordering::Less
        } else if rank == other_rank {
            Ordering::Equal
        } else {
            Ordering::Greater
        }
    }
}

impl PartialEq for Task {
    fn eq(&self, other: &Task) -> (equal: bool) {
        self.priority_order() == other.priority_order()
    }
}

impl vstd::std_specs::cmp::PartialEqSpecImpl for Task {
    open spec fn obeys_eq_spec() -> bool {
        true
    }

    open spec fn eq_spec(&self, other: &Task) -> bool {
        rank_of(self@) == rank_of(other@)
    }
}

impl Eq for Task {

}

impl PartialOrd for Task {
    fn partial_cmp(&self, other: &Task) -> (order: Option<Ordering>) {
        Some(self.cmp(other))
    }
}

impl vstd::std_specs::cmp::PartialOrdSpecImpl for Task {
    open spec fn obeys_partial_cmp_spec() -> bool {
        true
    }

    open spec fn partial_cmp_spec(&self, other: &Task) -> Option<Ordering> {
        Some(rank_order(rank_of(self@), rank_of(other@)))
    }
}

} // verus!
