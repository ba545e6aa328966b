//! A personal task journal: short text tasks with an optional due date,
//! priority and category, kept in priority order.
//!
//! The crate holds the rules of the journal: how a task is made, how the
//! collection is ordered, extended, shortened, listed, searched and shown.
//! Reading and writing the journal file is left to the caller, who hands the
//! collection over as a `Vec<Task>` and gets the next collection back.
//!
//! Every function states what it returns over the view of a task,
//! [`task::TaskView`], and sequences of such views. What holds of the
//! operations beyond that is proved in the modules whose names end in
//! `_laws`, and in [`calendar`].
//!
//! Four things are taken on trust, each behind a private function with its
//! contract: the seconds at which a day begins, the present time, and the
//! local time of an instant, all three by chrono; and the trimming and
//! lowering of an answer, by std.

pub mod calendar;
pub mod cli;
pub mod compare;
pub mod date;
pub mod display;
pub mod error;
pub mod journal;
pub mod journal_laws;
pub mod order;
pub mod order_laws;
pub mod priority;
pub mod prompt;
pub mod task;
pub mod task_laws;
pub mod text;

pub use cli::{Action, CommandLineArgs};
pub use error::{ErrorKind, TaskError};
pub use journal::{add_task, collect_tasks, complete_task, list_tasks, search_tasks, Listing, Row};
pub use order::{sort_tasks, SortOrder};
pub use priority::Priority;
pub use task::Task;
