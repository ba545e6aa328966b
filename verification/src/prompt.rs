//! The answers that the user gives when asked for the priority and the
//! category of a task.

use vstd::prelude::*;

use crate::priority::is_priority_label;
use crate::text::same_text;

verus! {

/// A text without the white space at its two ends, as `str::trim` leaves it.
pub uninterp spec fn trimmed(text: Seq<char>) -> Seq<char>;

/// A text in lower case, as `str::to_lowercase` turns it.
pub uninterp spec fn lowercase(text: Seq<char>) -> Seq<char>;

/// The priority that an answer names, in the form in which it is stored.
pub open spec fn answered_priority(answer: Seq<char>) -> Option<Seq<char>> {
    accepted(lowercase(trimmed(answer)))
}

/// A label, where it is one of `low`, `medium` and `high`.
pub open spec fn accepted(label: Seq<char>) -> Option<Seq<char>> {
    if is_priority_label(label) {
        Some(label)
    } else {
        None
    }
}

/// Reads the answer to the question for a priority. White space around the
/// answer and the case of its letters do not count. An answer that names
/// none of `low`, `medium` and `high` gives `None`: the question is to be
/// asked again.
pub fn priority_answer(answer: &str) -> (priority: Option<String>)
    ensures
        match priority {
            Some(label) => answered_priority(answer@) == Some(label@),
            None => answered_priority(answer@) is None,
        },
{
    accept_label(to_lowercase(trim(answer)))
}

/// Reads the answer to the question for a category: the answer without the
/// white space around it. Every answer is a category, the empty one too.
pub fn category_answer(answer: &str) -> (category: String)
    ensures
        category@ == trimmed(answer@),
{
    trim(answer).to_owned()
}

/// Accepts a label that is one of `low`, `medium` and `high`, written just
/// so, and refuses every other.
pub fn accept_label(label: String) -> (priority: Option<String>)
    ensures
        match priority {
            Some(kept) => accepted(label@) == Some(kept@),
            None => accepted(label@) is None,
        },
{
    if same_text(label.as_str(), "low") || same_text(label.as_str(), "medium") || same_text(
        label.as_str(),
        "high",
    ) {
        Some(label)
    } else {
        None
    }
}

/// `str::trim` of std: the text without leading and trailing white space.
///
/// Trusted: the result is a function of the text alone. What counts as white
/// space is left to std.
#[verifier::external_body]
fn trim(text: &str) -> (inner: &str)
    ensures
        inner@ == trimmed(text@),
{
    text.trim()
}

/// `str::to_lowercase` of std: the text with each character in lower case.
///
/// Trusted: the result is a function of the text alone. Which character is
/// the lower case of which is left to std.
#[verifier::external_body]
fn to_lowercase(text: &str) -> (lower: String)
    ensures
        lower@ == lowercase(text@),
{
    text.to_lowercase()
}

} // verus!
