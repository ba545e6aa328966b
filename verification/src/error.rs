//! What can go wrong in a journal operation.

use vstd::prelude::*;

verus! {

/// The broad class of a failure.
#[derive(Clone, Copy, Debug, PartialEq, Eq, Structural)]
pub enum ErrorKind {
    /// The caller supplied a value that the journal does not accept.
    InvalidInput,
    /// The journal file holds something other than a list of tasks.
    ParseError,
}

/// A failed journal operation.
#[derive(Clone, Debug, PartialEq, Eq)]
pub enum TaskError {
    /// A due date was given, but not in the form `YYYY-MM-DD`.
    InvalidDateFormat,
    /// A due date has the right form but names no day of the calendar.
    InvalidDate,
    /// A position that is zero or past the end of the journal.
    InvalidPosition,
    /// The journal's content could not be read as a list of tasks; the
    /// string is the reader's own account of the fault.
    Malformed(String),
}

impl TaskError {
    /// The class that this failure belongs to.
    pub open spec fn spec_kind(&self) -> ErrorKind {
        match self {
            TaskError::Malformed(_) => ErrorKind::ParseError,
            _ => ErrorKind::InvalidInput,
        }
    }

    /// The class that this failure belongs to.
    #[verifier::when_used_as_spec(spec_kind)]
    pub fn kind(&self) -> (k: ErrorKind)
        ensures
            k == self.spec_kind(),
    {
        match self {
            TaskError::Malformed(_) => ErrorKind::ParseError,
            _ => ErrorKind::InvalidInput,
        }
    }

    /// What to tell the user.
    pub open spec fn spec_message(&self) -> Seq<char> {
        match self {
            TaskError::InvalidDateFormat => "Invalid date format. Use YYYY-MM-DD format."@,
            TaskError::InvalidDate => "Invalid date. The calendar has no such day."@,
            TaskError::InvalidPosition => "Invalid Task ID"@,
            TaskError::Malformed(fault) => fault@,
        }
    }

    /// What to tell the user: the rule that was broken, or the reader's
    /// account of the fault in the journal file.
    pub fn message(&self) -> (text: String)
        ensures
            text@ == self.spec_message(),
    {
        match self {
            TaskError::InvalidDateFormat => "Invalid date format. Use YYYY-MM-DD format.".to_owned(),
            TaskError::InvalidDate => "Invalid date. The calendar has no such day.".to_owned(),
            TaskError::InvalidPosition => "Invalid Task ID".to_owned(),
            TaskError::Malformed(fault) => fault.clone(),
        }
    }
}

} // verus!
