//! Priorities and their ranks.
//!
//! A task carries its priority as free text. Only three labels count: `high`,
//! `medium` and `low`. Anything else, or no label at all, is ranked last.

use vstd::prelude::*;

use crate::text::same_text;

verus! {

/// The priority that a label stands for.
#[derive(Clone, Copy, Debug, PartialEq, Eq, Structural)]
pub enum Priority {
    High,
    Medium,
    Low,
    /// No label, or one that is none of the three.
    Unset,
}

impl Priority {
    /// The rank by which tasks are ordered: 1 for high, 2 for medium, 3 for
    /// low, 4 for the rest.
    pub open spec fn spec_rank(self) -> u8 {
        match self {
            Priority::High => 1,
            Priority::Medium => 2,
            Priority::Low => 3,
            Priority::Unset => 4,
        }
    }

    /// The rank by which tasks are ordered: 1 for high, 2 for medium, 3 for
    /// low, 4 for the rest.
    #[verifier::when_used_as_spec(spec_rank)]
    pub fn rank(self) -> (rank: u8)
        ensures
            rank == self.spec_rank(),
    {
        match self {
            Priority::High => 1,
            Priority::Medium => 2,
            Priority::Low => 3,
            Priority::Unset => 4,
        }
    }

    /// The priority that a label stands for. Labels are matched exactly:
    /// `High` is not `high`.
    pub open spec fn of_label(label: Option<Seq<char>>) -> Priority {
        match label {
            Some(l) => if l == "high"@ {
                Priority::High
            } else if l == "medium"@ {
                Priority::Medium
            } else if l == "low"@ {
                Priority::Low
            } else {
                Priority::Unset
            },
            None => Priority::Unset,
        }
    }

    /// The priority that a label stands for.
    pub fn from_label(label: Option<&str>) -> (priority: Priority)
        ensures
            priority == Priority::of_label(
                match label {
                    Some(l) => Some(l@),
                    None => None,
                },
            ),
    {
        match label {
            Some(l) => if same_text(l, "high") {
                Priority::High
            } else if same_text(l, "medium") {
                Priority::Medium
            } else if same_text(l, "low") {
                Priority::Low
            } else {
                Priority::Unset
            },
            None => Priority::Unset,
        }
    }
}

/// Whether a text is one of the three labels.
pub open spec fn is_priority_label(text: Seq<char>) -> bool {
    text == "low"@ || text == "medium"@ || text == "high"@
}

/// `high` ranks first, `medium` second and `low` third. Every other label
/// ranks last, as does a task without label.
pub proof fn lemma_ranks_of_labels()
    ensures
        Priority::of_label(Some("high"@)).spec_rank() == 1,
        Priority::of_label(Some("medium"@)).spec_rank() == 2,
        Priority::of_label(Some("low"@)).spec_rank() == 3,
        Priority::of_label(None).spec_rank() == 4,
        forall|label: Seq<char>|
            !is_priority_label(label) ==> (#[trigger] Priority::of_label(Some(label))).spec_rank()
                == 4,
{
    reveal_strlit("high");
    reveal_strlit("medium");
    reveal_strlit("low");
    assert("high"@.len() == 4 && "medium"@.len() == 6 && "low"@.len() == 3);
}

} // verus!
