//! The two task lists and the commands that change them.
use vstd::prelude::*;
use chrono::Datelike;
use crate::args::Command;
use crate::data::{all_writable, document_text, entries_of, lemma_entries_of_writable, TodoData};
use crate::date::DateData;
use crate::entry::{
    entry_text, lemma_parse_entry_no_reserved, no_reserved, parse_entry, EntryV, TodoEntry,
};
use crate::status::Status;
use crate::text::split_on;

verus! {

#[derive(Debug, PartialEq)]
pub struct Model {
    pub todo_data: TodoData,
    pub done_data: TodoData,
}

/// The mathematical value of the two lists.
pub ghost struct ModelV {
    pub todo: Seq<EntryV>,
    pub done: Seq<EntryV>,
}

impl View for Model {
    type V = ModelV;

    open spec fn view(&self) -> ModelV {
        ModelV { todo: self.todo_data@, done: self.done_data@ }
    }
}

/// Why a command was refused; the lists are then left as they were.
#[derive(Debug, Clone, Copy, PartialEq, Eq, Structural)]
pub enum CommandError {
    IndexOutOfRange,
}

/// The text that reports a refused command.
pub open spec fn error_text(e: CommandError) -> Seq<char> {
    match e {
        CommandError::IndexOutOfRange => "index out of range"@,
    }
}

impl CommandError {
    pub fn message(&self) -> (r: &'static str)
        ensures
            r@ == error_text(*self),
    {
        match self {
            CommandError::IndexOutOfRange => "index out of range",
        }
    }
}

pub open spec fn with_status(e: EntryV, s: Status) -> EntryV {
    EntryV { status: s, ..e }
}

/// What a command does to the lists, `today` being the date of the day.
pub open spec fn step(m: ModelV, command: Command, today: DateData) -> (ModelV, Result<(), CommandError>) {
    match command {
        Command::Add(t) => (ModelV { todo: m.todo.push(parse_entry(t@)), ..m }, Ok(())),
        Command::Archive(i) => if i < m.todo.len() {
            (ModelV { todo: m.todo.remove(i as int), done: m.done.push(m.todo[i as int]) }, Ok(()))
        } else {
            (m, Err(CommandError::IndexOutOfRange))
        },
        Command::Do(i) => if i < m.todo.len() {
            (
                ModelV {
                    todo: m.todo.update(i as int, with_status(m.todo[i as int], Status::Done(Some(today)))),
                    ..m
                },
                Ok(()),
            )
        } else {
            (m, Err(CommandError::IndexOutOfRange))
        },
        Command::Undo(i) => if i < m.todo.len() {
            (ModelV { todo: m.todo.update(i as int, with_status(m.todo[i as int], Status::Open)), ..m }, Ok(()))
        } else {
            (m, Err(CommandError::IndexOutOfRange))
        },
        Command::List => (m, Ok(())),
    }
}

/// Relies on chrono's `Local::now` and `Datelike`: the local date of the day,
/// whose month is from 1 to 12 and day from 1 to 31.
#[verifier::external_body]
fn today() -> (r: DateData)
    ensures
        1 <= r.month <= 12,
        1 <= r.day <= 31,
{
    let d = chrono::Local::now().date_naive();
    DateData { year: d.year() as u16, month: d.month() as u8, day: d.day() as u8 }
}

impl Model {
    /// Both lists can be written out.
    pub open spec fn well_formed(&self) -> bool {
        all_writable(self@.todo) && all_writable(self@.done)
    }

    /// The two lists that two documents hold.
    pub open spec fn load_spec(todo_text: Seq<char>, done_text: Seq<char>) -> ModelV {
        ModelV {
            todo: entries_of(split_on(todo_text, '\n')),
            done: entries_of(split_on(done_text, '\n')),
        }
    }

    /// Reads the two lists from their documents.
    pub fn load(todo_text: &str, done_text: &str) -> (r: Model)
        ensures
            r@ == Model::load_spec(todo_text@, done_text@),
            r.well_formed(),
    {
        let todo_data = TodoData::parse(todo_text).unwrap();
        let done_data = TodoData::parse(done_text).unwrap();
        proof {
            lemma_entries_of_writable(split_on(todo_text@, '\n'));
            lemma_entries_of_writable(split_on(done_text@, '\n'));
        }
        Model { todo_data, done_data }
    }

    /// Runs a command with `today` as the date of the day.
    pub fn apply(&mut self, command: Command, today: DateData) -> (r: Result<(), CommandError>)
        ensures
            (final(self)@, r) == step(old(self)@, command, today),
            old(self).well_formed() ==> final(self).well_formed(),
    {
        let ghost old_m = self@;
        let ghost cmd = command;
        match command {
            Command::Add(text) => {
                let e = TodoEntry::parse(text.as_str()).unwrap();
                proof {
                    lemma_parse_entry_no_reserved(text@);
                }
                self.todo_data.entries.push(e);
                assert(self@.todo =~= old_m.todo.push(parse_entry(text@)));
                Ok(())
            },
            Command::Archive(offset) => {
                if (offset as usize) < self.todo_data.entries.len() {
                    let e = self.todo_data.entries.remove(offset as usize);
                    self.done_data.entries.push(e);
                    assert(self@.todo =~= old_m.todo.remove(offset as int));
                    assert(self@.done =~= old_m.done.push(old_m.todo[offset as int]));
                    Ok(())
                } else {
                    Err(CommandError::IndexOutOfRange)
                }
            },
            Command::Do(index) => {
                if (index as usize) < self.todo_data.entries.len() {
                    self.todo_data.entries[index as usize].status = Status::Done(Some(today));
                    assert(self@.todo =~= old_m.todo.update(
                        index as int,
                        with_status(old_m.todo[index as int], Status::Done(Some(today))),
                    ));
                    Ok(())
                } else {
                    Err(CommandError::IndexOutOfRange)
                }
            },
            Command::Undo(index) => {
                if (index as usize) < self.todo_data.entries.len() {
                    self.todo_data.entries[index as usize].status = Status::Open;
                    assert(self@.todo =~= old_m.todo.update(
                        index as int,
                        with_status(old_m.todo[index as int], Status::Open),
                    ));
                    Ok(())
                } else {
                    Err(CommandError::IndexOutOfRange)
                }
            },
            Command::List => Ok(()),
        }
    }

    /// Runs a command; `Do` records the local date of the day.
    pub fn execute(&mut self, command: Command) -> (r: Result<(), CommandError>)
        ensures
            exists|d: DateData|
                1 <= d.month <= 12 && 1 <= d.day <= 31 && (final(self)@, r) == #[trigger] step(
                    old(self)@,
                    command,
                    d,
                ),
            old(self).well_formed() ==> final(self).well_formed(),
    {
        // Only `Do` reads the date; the others get a fixed one.
        let d = match command {
            Command::Do(_) => today(),
            _ => DateData { year: 1970, month: 1, day: 1 },
        };
        self.apply(command, d)
    }

    /// The todo list as a document.
    pub fn serialize_todo(&self) -> (r: String)
        requires
            self.well_formed(),
        ensures
            r@ == document_text(self@.todo),
    {
        self.todo_data.serialize()
    }

    /// The done list as a document.
    pub fn serialize_done(&self) -> (r: String)
        requires
            self.well_formed(),
        ensures
            r@ == document_text(self@.done),
    {
        self.done_data.serialize()
    }

    /// The todo list as (index, line) pairs, in order.
    pub fn list(&self) -> (r: Vec<(usize, String)>)
        requires
            self.well_formed(),
        ensures
            r@.len() == self@.todo.len(),
            forall|i: int|
                0 <= i < r@.len() ==> (#[trigger] r@[i]).0 == i && r@[i].1@ == entry_text(
                    self@.todo[i],
                ),
    {
        let mut r: Vec<(usize, String)> = Vec::new();
        let mut i: usize = 0;
        while i < self.todo_data.entries.len()
            invariant
                i <= self@.todo.len(),
                self.well_formed(),
                r@.len() == i,
                forall|k: int|
                    0 <= k < i ==> (#[trigger] r@[k]).0 == k && r@[k].1@ == entry_text(
                        self@.todo[k],
                    ),
            decreases self.todo_data.entries.len() - i,
        {
            assert(no_reserved(self@.todo[i as int].parts));
            let line = self.todo_data.entries[i].to_string();
            r.push((i, line));
            i = i + 1;
        }
        r
    }
}

/// `Do(i)` marks task `i` done on the given day; a following `Undo(i)`
/// reopens it, and a task that was open before gets back exactly as it was,
/// so its line is written as before.
pub proof fn lemma_do_undo(m: ModelV, i: u16, today: DateData, later: DateData)
    requires
        i < m.todo.len(),
    ensures
        ({
            let (m1, r1) = step(m, Command::Do(i), today);
            let (m2, r2) = step(m1, Command::Undo(i), later);
            &&& r1 is Ok && r2 is Ok
            &&& m1.todo[i as int].status == Status::Done(Some(today))
            &&& m2.todo[i as int].status == Status::Open
            &&& m2.todo.len() == m.todo.len() && m2.done == m.done
            &&& m.todo[i as int].status == Status::Open ==> m2 == m
            &&& m.todo[i as int].status == Status::Open ==> entry_text(m2.todo[i as int])
                == entry_text(m.todo[i as int])
        }),
{
    let (m1, r1) = step(m, Command::Do(i), today);
    let (m2, r2) = step(m1, Command::Undo(i), later);
    if m.todo[i as int].status == Status::Open {
        assert(with_status(m.todo[i as int], Status::Open) == m.todo[i as int]);
        assert(m2.todo =~= m.todo);
    }
}

/// `Archive`, `Do` and `Undo` with an index past the end of the todo list
/// fail with `IndexOutOfRange` and leave both lists as they were.
pub proof fn lemma_index_bounds(m: ModelV, i: u16, today: DateData)
    requires
        i >= m.todo.len(),
    ensures
        step(m, Command::Archive(i), today) == (m, Err::<(), CommandError>(CommandError::IndexOutOfRange)),
        step(m, Command::Do(i), today) == (m, Err::<(), CommandError>(CommandError::IndexOutOfRange)),
        step(m, Command::Undo(i), today) == (m, Err::<(), CommandError>(CommandError::IndexOutOfRange)),
{
}

/// `Archive(i)` moves task `i` to the end of the done list, unchanged, and
/// keeps the order of the tasks that stay.
pub proof fn lemma_archive(m: ModelV, i: u16, today: DateData)
    requires
        i < m.todo.len(),
    ensures
        ({
            let (m1, r) = step(m, Command::Archive(i), today);
            &&& r is Ok
            &&& m1.done == m.done.push(m.todo[i as int])
            &&& m1.todo.len() + 1 == m.todo.len()
            &&& forall|k: int| 0 <= k < i ==> #[trigger] m1.todo[k] == m.todo[k]
            &&& forall|k: int| i <= k < m1.todo.len() ==> #[trigger] m1.todo[k] == m.todo[k + 1]
        }),
{
}

} // verus!
