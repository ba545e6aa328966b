//! What the user asks of the journal.

use std::path::PathBuf;
use vstd::prelude::*;

verus! {

/// `std::path::PathBuf`: a path of the file system, carried through as it
/// is.
#[verifier::external_type_specification]
#[verifier::external_body]
pub struct ExPathBuf(PathBuf);

/// One request, with the journal file that it is meant for.
#[derive(Debug)]
pub struct CommandLineArgs {
    pub action: Action,
    /// The journal file to use in place of the default one.
    pub journal_file: Option<PathBuf>,
}

/// What can be asked of the journal.
#[derive(Debug)]
pub enum Action {
    /// Write a task to the journal.
    Add {
        /// What is to be done.
        task: String,
        /// The day on which the task is due, as `YYYY-MM-DD`.
        due_date: Option<String>,
    },
    /// Remove a task from the journal by its position, counted from 1.
    Done { position: usize },
    /// List the tasks of the journal.
    List {
        /// The category to show; all tasks where none is given.
        category: Option<String>,
        /// `asc` or `desc`.
        sort_order: String,
    },
    /// Show the tasks whose text holds a keyword.
    Search { keyword: String },
}

impl CommandLineArgs {
    /// The request together with the journal file that it is meant for: the
    /// file that was named, else `default_file`. `None` where neither is
    /// there.
    pub fn into_request(self, default_file: Option<PathBuf>) -> (request: Option<
        (Action, PathBuf),
    >)
        ensures
            request == match (self.journal_file, default_file) {
                (Some(file), _) => Some((self.action, file)),
                (None, Some(file)) => Some((self.action, file)),
                (None, None) => None,
            },
    {
        match self.journal_file {
            Some(file) => Some((self.action, file)),
            None => match default_file {
                Some(file) => Some((self.action, file)),
                None => None,
            },
        }
    }
}

} // verus!
