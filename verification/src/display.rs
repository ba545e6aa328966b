//! How the journal is shown: one line for each task, under a line of
//! headings, in columns of fixed width.

use vstd::prelude::*;
use vstd::string::*;

use crate::journal::{Listing, Row};
use crate::task::{text_of, Task, TaskView};

verus! {

/// A run of spaces; empty where `count` is not positive.
pub open spec fn spaces(count: int) -> Seq<char> {
    Seq::new(
        if count > 0 {
            count as nat
        } else {
            0
        },
        |i: int| ' ',
    )
}

/// A text at the left of a column: spaces fill the column up behind it. A
/// text that is wider than the column stays whole.
pub open spec fn at_left(text: Seq<char>, width: int) -> Seq<char> {
    text + spaces(width - text.len())
}

/// A text in the middle of a column: spaces fill it up on both sides, and
/// where their number is odd the one more stands behind the text. A text
/// that is wider than the column stays whole.
pub open spec fn in_middle(text: Seq<char>, width: int) -> Seq<char> {
    spaces((width - text.len()) / 2) + text + spaces(
        width - text.len() - (width - text.len()) / 2,
    )
}

/// The line that shows a task: its text and the time of its creation at
/// the left of their columns, the day on which it is due, its priority and
/// its category in the middle of theirs, a space between the columns.
pub open spec fn task_line(
    text: Seq<char>,
    created_at: Seq<char>,
    due_date: Seq<char>,
    priority: Seq<char>,
    category: Seq<char>,
) -> Seq<char> {
    at_left(text, 50) + seq![' '] + at_left(created_at, 20) + seq![' '] + in_middle(due_date, 15)
        + seq![' '] + in_middle(priority, 25) + seq![' '] + in_middle(category, 25)
}

/// The line of headings that stands above the tasks.
pub open spec fn heading_line() -> Seq<char> {
    at_left("ID"@, 5) + seq![' '] + at_left("Task"@, 50) + seq![' '] + at_left("Created At"@, 20)
        + seq![' '] + at_left("Due Date"@, 20) + seq![' '] + at_left("Priority"@, 25) + seq![' ']
        + at_left("Category"@, 25)
}

/// The text of an optional label: empty where there is none.
pub open spec fn shown_label(label: Option<Seq<char>>) -> Seq<char> {
    match label {
        Some(text) => text,
        None => Seq::empty(),
    }
}

/// Whether `line` shows `task`, whatever the local time of its creation and
/// the local day on which it is due are written as. A task that is not due
/// has an empty column there.
pub open spec fn shows_task(line: Seq<char>, task: TaskView) -> bool {
    exists|created_at: Seq<char>, due_date: Seq<char>|
        {
            &&& task.due_date is None ==> due_date.len() == 0
            &&& line == #[trigger] task_line(
                task.text,
                created_at,
                due_date,
                shown_label(task.priority),
                shown_label(task.category),
            )
        }
}

/// The character of a digit from 0 to 9.
pub open spec fn digit_char(digit: int) -> char {
    if digit == 0 {
        '0'
    } else if digit == 1 {
        '1'
    } else if digit == 2 {
        '2'
    } else if digit == 3 {
        '3'
    } else if digit == 4 {
        '4'
    } else if digit == 5 {
        '5'
    } else if digit == 6 {
        '6'
    } else if digit == 7 {
        '7'
    } else if digit == 8 {
        '8'
    } else {
        '9'
    }
}

/// A number in decimal digits, without leading zeros.
pub open spec fn decimal(number: nat) -> Seq<char>
    decreases number,
{
    if number < 10 {
        seq![digit_char(number as int)]
    } else {
        decimal(number / 10).push(digit_char((number % 10) as int))
    }
}

/// A line of a listing with its number before it.
pub open spec fn numbered_line(number: nat, line: Seq<char>) -> Seq<char> {
    decimal(number) + seq![':', ' '] + line
}

/// What a listing says of the empty journal.
pub open spec fn empty_list_message() -> Seq<char> {
    "Task list is empty!"@
}

/// What a search says where no task holds the keyword.
pub open spec fn no_match_message(keyword: Seq<char>) -> Seq<char> {
    "No tasks found with the keyword '"@ + keyword + seq!['\'']
}

/// Whether `line` shows a row of a listing: the number of the row, and
/// behind it a line that shows its task.
pub open spec fn shows_row(line: Seq<char>, row: Row) -> bool {
    exists|shown: Seq<char>|
        shows_task(shown, row.task@) && line == #[trigger] numbered_line(row.number as nat, shown)
}

/// Whether `lines` show a listing: one message for the empty journal; else
/// the headings and under them the rows, each with its number.
pub open spec fn show_listing(lines: Seq<String>, listing: Listing) -> bool {
    match listing {
        Listing::Empty => lines.len() == 1 && lines[0]@ == empty_list_message(),
        Listing::Rows(rows) => {
            &&& lines.len() == rows@.len() + 1
            &&& lines[0]@ == heading_line()
            &&& forall|i: int| 0 <= i < rows@.len() ==> shows_row((#[trigger] lines[i + 1])@, rows@[i])
        },
    }
}

/// Whether `lines` show what a search for `keyword` found: one message
/// where it found nothing; else the headings and under them the tasks.
pub open spec fn show_search(lines: Seq<String>, found: Seq<&Task>, keyword: Seq<char>) -> bool {
    if found.len() == 0 {
        lines.len() == 1 && lines[0]@ == no_match_message(keyword)
    } else {
        &&& lines.len() == found.len() + 1
        &&& lines[0]@ == heading_line()
        &&& forall|i: int| 0 <= i < found.len() ==> shows_task((#[trigger] lines[i + 1])@, found[i]@)
    }
}

/// A text fills its column, and keeps its own width where it is wider.
pub proof fn lemma_column_width(text: Seq<char>, width: int)
    ensures
        at_left(text, width).len() == if text.len() < width {
            width
        } else {
            text.len() as int
        },
        in_middle(text, width).len() == at_left(text, width).len(),
        at_left(text, width).subrange(0, text.len() as int) == text,
{
    assert(at_left(text, width).subrange(0, text.len() as int) =~= text);
}

/// A line that shows a task is 139 characters wide where no text is wider
/// than its column, and wider else.
pub proof fn lemma_task_line_width(
    text: Seq<char>,
    created_at: Seq<char>,
    due_date: Seq<char>,
    priority: Seq<char>,
    category: Seq<char>,
)
    ensures
        task_line(text, created_at, due_date, priority, category).len() >= 139,
        text.len() <= 50 && created_at.len() <= 20 && due_date.len() <= 15 && priority.len() <= 25
            && category.len() <= 25 <==> task_line(
            text,
            created_at,
            due_date,
            priority,
            category,
        ).len() == 139,
{
    lemma_column_width(text, 50);
    lemma_column_width(created_at, 20);
    lemma_column_width(due_date, 15);
    lemma_column_width(priority, 25);
    lemma_column_width(category, 25);
}

/// Adds spaces to the end of a line.
fn push_spaces(line: &mut String, count: usize)
    ensures
        final(line)@ == old(line)@ + spaces(count as int),
{
    let mut done: usize = 0;
    while done < count
        invariant
            done <= count,
            line@ == old(line)@ + spaces(done as int),
        decreases count - done,
    {
        proof {
            reveal_strlit(" ");
            assert(spaces(done + 1) =~= spaces(done as int) + " "@);
        }
        line.append(" ");
        done += 1;
        assert(line@ =~= old(line)@ + spaces(done as int));
    }
}

/// Adds a text at the left of a column to the end of a line.
fn push_at_left(line: &mut String, text: &str, width: usize)
    ensures
        final(line)@ == old(line)@ + at_left(text@, width as int),
{
    let length: usize = text.unicode_len();
    line.append(text);
    if length < width {
        push_spaces(line, width - length);
    } else {
        assert(spaces(width - length) =~= Seq::<char>::empty());
    }
    assert(line@ =~= old(line)@ + at_left(text@, width as int));
}

/// Adds a text in the middle of a column to the end of a line.
fn push_in_middle(line: &mut String, text: &str, width: usize)
    ensures
        final(line)@ == old(line)@ + in_middle(text@, width as int),
{
    let length: usize = text.unicode_len();
    if length < width {
        let before: usize = (width - length) / 2;
        push_spaces(line, before);
        line.append(text);
        push_spaces(line, width - length - before);
    } else {
        line.append(text);
        assert(spaces((width - length) / 2) =~= Seq::<char>::empty());
        assert(spaces(width - length - (width - length) / 2) =~= Seq::<char>::empty());
    }
    assert(line@ =~= old(line)@ + in_middle(text@, width as int));
}

/// Writes the line that shows a task from the texts of its columns.
pub fn write_task_line(
    text: &str,
    created_at: &str,
    due_date: &str,
    priority: &str,
    category: &str,
) -> (line: String)
    ensures
        line@ == task_line(text@, created_at@, due_date@, priority@, category@),
{
    let mut line = String::new();
    proof {
        reveal_strlit(" ");
        assert(" "@ =~= seq![' ']);
    }
    push_at_left(&mut line, text, 50);
    line.append(" ");
    push_at_left(&mut line, created_at, 20);
    line.append(" ");
    push_in_middle(&mut line, due_date, 15);
    line.append(" ");
    push_in_middle(&mut line, priority, 25);
    line.append(" ");
    push_in_middle(&mut line, category, 25);
    assert(line@ =~= task_line(text@, created_at@, due_date@, priority@, category@));
    line
}

/// Writes the line of headings that stands above the tasks.
pub fn write_heading_line() -> (line: String)
    ensures
        line@ == heading_line(),
{
    let mut line = String::new();
    proof {
        reveal_strlit(" ");
        assert(" "@ =~= seq![' ']);
    }
    push_at_left(&mut line, "ID", 5);
    line.append(" ");
    push_at_left(&mut line, "Task", 50);
    line.append(" ");
    push_at_left(&mut line, "Created At", 20);
    line.append(" ");
    push_at_left(&mut line, "Due Date", 20);
    line.append(" ");
    push_at_left(&mut line, "Priority", 25);
    line.append(" ");
    push_at_left(&mut line, "Category", 25);
    assert(line@ =~= heading_line());
    line
}

/// The text of a digit from 0 to 9.
fn digit_text(digit: usize) -> (text: &'static str)
    requires
        digit < 10,
    ensures
        text@ == seq![digit_char(digit as int)],
{
    proof {
        reveal_strlit("0");
        reveal_strlit("1");
        reveal_strlit("2");
        reveal_strlit("3");
        reveal_strlit("4");
        reveal_strlit("5");
        reveal_strlit("6");
        reveal_strlit("7");
        reveal_strlit("8");
        reveal_strlit("9");
    }
    let text = if digit == 0 {
        "0"
    } else if digit == 1 {
        "1"
    } else if digit == 2 {
        "2"
    } else if digit == 3 {
        "3"
    } else if digit == 4 {
        "4"
    } else if digit == 5 {
        "5"
    } else if digit == 6 {
        "6"
    } else if digit == 7 {
        "7"
    } else if digit == 8 {
        "8"
    } else {
        "9"
    };
    assert(text@ =~= seq![digit_char(digit as int)]);
    text
}

/// Adds a number in decimal digits to the end of a line.
fn push_decimal(line: &mut String, number: usize)
    ensures
        final(line)@ == old(line)@ + decimal(number as nat),
    decreases number,
{
    if number >= 10 {
        push_decimal(line, number / 10);
    }
    line.append(digit_text(number % 10));
    assert(line@ =~= old(line)@ + decimal(number as nat));
}

/// Writes a number in decimal digits.
pub fn write_decimal(number: usize) -> (text: String)
    ensures
        text@ == decimal(number as nat),
{
    let mut text = String::new();
    push_decimal(&mut text, number);
    assert(text@ =~= decimal(number as nat));
    text
}

/// The text of an optional label: empty where there is none.
fn label_text(label: &Option<String>) -> (text: &str)
    ensures
        text@ == shown_label(text_of(*label)),
{
    proof {
        reveal_strlit("");
        assert(""@ =~= Seq::<char>::empty());
    }
    match label {
        Some(text) => text.as_str(),
        None => "",
    }
}

impl Task {
    /// Writes the line that shows the task. `created_at` and `due_date` are
    /// what stands in the columns of these names.
    pub fn line_with(&self, created_at: &str, due_date: &str) -> (line: String)
        ensures
            line@ == task_line(
                self@.text,
                created_at@,
                due_date@,
                shown_label(self@.priority),
                shown_label(self@.category),
            ),
    {
        write_task_line(
            self.text.as_str(),
            created_at,
            due_date,
            label_text(&self.priority),
            label_text(&self.category),
        )
    }

    /// Writes the line that shows the task, with the time of its creation
    /// and the day on which it is due in the time zone of the machine.
    pub fn line(&self) -> (line: String)
        ensures
            shows_task(line@, self@),
    {
        let created_at = match local_time(self.created_at, "%F %H:%M") {
            Some(text) => text,
            None => String::new(),
        };
        let due_date = match self.due_date {
            Some(seconds) => match local_time(seconds, "%F") {
                Some(text) => text,
                None => String::new(),
            },
            None => String::new(),
        };
        self.line_with(created_at.as_str(), due_date.as_str())
    }
}

/// Writes the lines that show a listing: one message for the empty journal;
/// else the headings and under them the rows, each with its number.
pub fn listing_lines(listing: &Listing) -> (lines: Vec<String>)
    ensures
        show_listing(lines@, *listing),
{
    let mut lines: Vec<String> = Vec::new();
    match listing {
        Listing::Empty => {
            lines.push("Task list is empty!".to_owned());
        },
        Listing::Rows(rows) => {
            lines.push(write_heading_line());
            let mut i: usize = 0;
            while i < rows.len()
                invariant
                    i <= rows@.len(),
                    lines@.len() == i + 1,
                    lines@[0]@ == heading_line(),
                    forall|k: int| 0 <= k < i ==> shows_row((#[trigger] lines@[k + 1])@, rows@[k]),
                decreases rows@.len() - i,
            {
                let row: &Row = &rows[i];
                let shown = row.task.line();
                let mut line = String::new();
                push_decimal(&mut line, row.number);
                line.append(": ");
                line.append(shown.as_str());
                proof {
                    reveal_strlit(": ");
                    assert(": "@ =~= seq![':', ' ']);
                    assert(line@ =~= numbered_line(row.number as nat, shown@));
                }
                assert(shows_row(line@, *row));
                let ghost before = lines@;
                lines.push(line);
                assert forall|k: int| 0 <= k < i + 1 implies shows_row(
                    (#[trigger] lines@[k + 1])@,
                    rows@[k],
                ) by {
                    if k < i {
                        assert(lines@[k + 1] == before[k + 1]);
                    }
                }
                i += 1;
            }
        },
    }
    lines
}

/// Writes the lines that show what a search for `keyword` found: one
/// message where it found nothing; else the headings and under them the
/// tasks.
pub fn search_lines(found: &Vec<&Task>, keyword: &str) -> (lines: Vec<String>)
    ensures
        show_search(lines@, found@, keyword@),
{
    let mut lines: Vec<String> = Vec::new();
    if found.len() == 0 {
        let mut message = "No tasks found with the keyword '".to_owned();
        message.append(keyword);
        message.append("'");
        proof {
            reveal_strlit("'");
            assert(message@ =~= no_match_message(keyword@));
        }
        lines.push(message);
    } else {
        lines.push(write_heading_line());
        let mut i: usize = 0;
        while i < found.len()
            invariant
                i <= found@.len(),
                lines@.len() == i + 1,
                lines@[0]@ == heading_line(),
                forall|k: int| 0 <= k < i ==> shows_task((#[trigger] lines@[k + 1])@, found@[k]@),
            decreases found@.len() - i,
        {
            let line = found[i].line();
            let ghost before = lines@;
            lines.push(line);
            assert forall|k: int| 0 <= k < i + 1 implies shows_task(
                (#[trigger] lines@[k + 1])@,
                found@[k]@,
            ) by {
                if k < i {
                    assert(lines@[k + 1] == before[k + 1]);
                }
            }
            i += 1;
        }
    }
    lines
}

/// A time in the time zone of the machine, written by chrono after a
/// pattern: `DateTime::from_timestamp` makes the instant that lies `seconds`
/// after the start of 1970, `DateTime::with_timezone` with `Local` moves it
/// to the time zone of the machine, `DateTime::format` lays it out and
/// `DelayedFormat::write_to` writes it.
///
/// Nothing is promised of the text: it hangs on the time zone of the
/// machine. `None` where chrono cannot hold the instant or cannot read the
/// pattern. chrono stops the program where it finds no offset of the time
/// zone for the instant.
#[verifier::external_body]
fn local_time(seconds: i64, pattern: &str) -> Option<String> {
    let instant = chrono::DateTime::from_timestamp(seconds, 0)?;
    let mut text = String::new();
    instant.with_timezone(&chrono::Local).format(pattern).write_to(&mut text).ok()?;
    Some(text)
}

} // verus!
