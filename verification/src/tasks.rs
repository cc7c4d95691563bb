//! Tasks: the lines of the task list, the rows they are mirrored in, and the
//! two things that can be done with a reminder.
use vstd::prelude::*;
use crate::datetime::Date;
use crate::datetime::Timestamp;
use crate::datetime;
use crate::error::AppError;
use crate::error;
use crate::text;

verus! {

broadcast use vstd::string::group_string_axioms;

/// The note that the task list is kept in.
pub const TASKS_NOTE_PATH: &'static str = "Tasks.md";

/// A task that was found newly done.
#[derive(Debug, PartialEq, Eq)]
pub struct TaskCompletionEvent {
    pub task_id: String,
    pub title: String,
}

/// A line of the task list.
#[derive(Debug, PartialEq, Eq)]
pub struct ChecklistLine {
    pub done: bool,
    pub title: String,
    pub due: Option<Date>,
    /// The day it was done on.
    pub completed: Option<Date>,
    /// The task's key, where the line has one.
    pub id: Option<String>,
}

/// Whether a task is done.
#[derive(Clone, Copy, Debug, PartialEq, Eq, Structural)]
pub enum TaskStatus {
    Open,
    Done,
}

/// A task as it is mirrored.
#[derive(Debug, PartialEq, Eq)]
pub struct Task {
    pub id: String,
    pub title: String,
    pub status: TaskStatus,
    pub due: Option<Timestamp>,
    pub remind_at: Option<Timestamp>,
    /// Whether its reminder has gone out.
    pub notified: bool,
    pub created: Timestamp,
    pub completed_at: Option<Timestamp>,
    pub source_chat_id: Option<String>,
}

/// The line is that of an open task with that key.
pub open spec fn open_line(line: ChecklistLine, key: Seq<char>) -> bool {
    text::opt_text(line.id) == Some(key) && !line.done
}

/// The lines once the task with that key is done.
pub open spec fn completed_line(line: ChecklistLine, key: Seq<char>, today: Date) -> ChecklistLine {
    if open_line(line, key) {
        ChecklistLine { done: true, completed: Some(today), ..line }
    } else {
        line
    }
}

fn is_open_line(line: &ChecklistLine, key: &str) -> (r: bool)
    ensures
        r == open_line(*line, key@),
{
    match &line.id {
        Some(id) => text::same(id.as_str(), key) && !line.done,
        None => false,
    }
}

fn line_done(line: &ChecklistLine, today: Date) -> (r: ChecklistLine)
    ensures
        r == (ChecklistLine { done: true, completed: Some(today), ..*line }),
{
    ChecklistLine {
        done: true,
        title: line.title.clone(),
        due: line.due,
        completed: Some(today),
        id: match &line.id {
            Some(id) => Some(id.clone()),
            None => None,
        },
    }
}

/// Marks a task done in the task list, on the day `today`, and says whether
/// there was anything to mark.
pub fn complete_task(lines: &mut Vec<ChecklistLine>, key: &str, today: Date) -> (r: bool)
    ensures
        final(lines)@ == old(lines)@.map_values(|l: ChecklistLine| completed_line(l, key@, today)),
        r == exists|i: int|
            0 <= i < old(lines)@.len() && open_line(#[trigger] old(lines)@[i], key@),
{
    let ghost start = lines@;
    let mut changed: bool = false;
    let mut i: usize = 0;
    while i < lines.len()
        invariant
            i <= lines.len(),
            lines@.len() == start.len(),
            forall|k: int| 0 <= k < i ==> #[trigger] lines@[k] == completed_line(start[k], key@, today),
            forall|k: int| i <= k < lines@.len() ==> #[trigger] lines@[k] == start[k],
            changed == exists|k: int| 0 <= k < i && open_line(#[trigger] start[k], key@),
        decreases lines.len() - i,
    {
        assert(lines@[i as int] == start[i as int]);
        if is_open_line(&lines[i], key) {
            let done = line_done(&lines[i], today);
            lines.set(i, done);
            assert(open_line(start[i as int], key@));
            changed = true;
        }
        i += 1;
    }
    assert(lines@ =~= start.map_values(|l: ChecklistLine| completed_line(l, key@, today)));
    changed
}

/// A task that no row is kept of.
pub fn no_such_task(id: &str) -> (r: AppError)
    ensures
        r.text() == "no such task: "@ + id@,
{
    error::message2("no such task: ", id)
}

/// Puts a reminder off until an instant in the form of RFC 3339, given the row
/// that is kept of the task. The reminder will go out again.
pub fn snooze_task(task: Option<Task>, id: &str, until: &str) -> (r: Result<Task, AppError>)
    ensures
        match datetime::rfc3339_reading(until@) {
            Err(m) => r matches Err(e) && e.text() == "parse snooze time: "@ + m,
            Ok(t) => match task {
                None => r matches Err(e) && e.text() == "no such task: "@ + id@,
                Some(row) => r == Ok::<Task, AppError>(
                    Task { remind_at: Some(t), notified: false, ..row },
                ),
            },
        },
{
    snooze_until(task, id, datetime::read_instant(until))
}

/// Puts a reminder off, given what the instant was read as.
pub fn snooze_until(task: Option<Task>, id: &str, until: Result<Timestamp, String>) -> (r: Result<
    Task,
    AppError,
>)
    ensures
        match until {
            Err(m) => r matches Err(e) && e.text() == "parse snooze time: "@ + m@,
            Ok(t) => match task {
                None => r matches Err(e) && e.text() == "no such task: "@ + id@,
                Some(row) => r == Ok::<Task, AppError>(
                    Task { remind_at: Some(t), notified: false, ..row },
                ),
            },
        },
{
    match until {
        Err(m) => Err(error::message2("parse snooze time: ", m.as_str())),
        Ok(t) => match task {
            None => Err(no_such_task(id)),
            Some(row) => Ok(Task { remind_at: Some(t), notified: false, ..row }),
        },
    }
}

/// A task that is done stays as it is when it is marked again.
pub proof fn law_completing_twice_is_completing_once(
    line: ChecklistLine,
    key: Seq<char>,
    first: Date,
    second: Date,
)
    ensures
        completed_line(completed_line(line, key, first), key, second) == completed_line(
            line,
            key,
            first,
        ),
{
}

/// Completing a task ticks just the open lines with its key, on the day, and touches
/// nothing else of them; every other line stays as it is.
pub proof fn law_only_the_task_is_ticked(line: ChecklistLine, key: Seq<char>, today: Date)
    ensures
        ({
            let after = completed_line(line, key, today);
            &&& after.title == line.title && after.due == line.due && after.id == line.id
            &&& text::opt_text(line.id) == Some(key) ==> after.done
            &&& text::opt_text(line.id) == Some(key) && !line.done ==> after.completed == Some(
                today,
            )
            &&& text::opt_text(line.id) != Some(key) ==> after == line
            &&& line.done ==> after == line
        }),
{
}

} // verus!
