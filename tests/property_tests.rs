use todocommander::application::App;
use todocommander::args::Command;
use todocommander::config::Config;
use todocommander::data::TodoData;
use todocommander::date::DateData;
use todocommander::element::{RecurrenceTimeUnit, TodoElement};
use todocommander::entry::TodoEntry;
use todocommander::model::{CommandError, Model};
use todocommander::status::Status;

fn two_tasks() -> Model {
    Model::load("do something +home\ndo something else +work", "")
}

#[test]
fn round_trip_of_a_written_entry() {
    let e = TodoEntry {
        status: Status::Open,
        created_date: None,
        parts: vec![
            TodoElement::text("call"),
            TodoElement::project("Family"),
            TodoElement::text("about the trip"),
            TodoElement::Due(DateData { year: 2021, month: 3, day: 4 }),
            TodoElement::Recurrence { plus: false, count: 12, unit: RecurrenceTimeUnit::M },
        ],
    };
    let line = e.to_string();
    assert_eq!(line, "call +Family about the trip due:2021-03-04 rec:12m");
    assert_eq!(TodoEntry::parse(&line).unwrap(), e);
}

#[test]
fn round_trip_with_status_and_created_date() {
    let line = "x 2020-01-02 2019-12-31 call mom @phone t:2020-01-01";
    let e = TodoEntry::parse(line).unwrap();
    assert_eq!(e.status, Status::Done(Some(DateData { year: 2020, month: 1, day: 2 })));
    assert_eq!(e.created_date, Some(DateData { year: 2019, month: 12, day: 31 }));
    assert_eq!(e.to_string(), line);
}

#[test]
fn malformed_fields_fall_back_to_text() {
    for w in ["due:2020-x-22", "t:2020-07", "due:2020-07-22-1", "rec:5dd", "rec:+d", "rec:", "rec:70000d", "rec:5q", "rec:++1d", "rec:+-1d", "rec:1dd", "rec:d5", "rec:5x", "5d"] {
        assert_eq!(TodoElement::parse(w), TodoElement::text(w));
    }
}

#[test]
fn free_text_merges() {
    let e = TodoEntry::parse("+Project1 @Site1 Foo bar").unwrap();
    assert_eq!(
        e.parts,
        vec![TodoElement::project("Project1"), TodoElement::context("Site1"), TodoElement::text("Foo bar")]
    );
    let e = TodoEntry::parse("  a   b\t+p c  ").unwrap();
    assert_eq!(e.parts, vec![TodoElement::text("a b"), TodoElement::project("p"), TodoElement::text("c")]);
}

#[test]
fn recurrence_matrix() {
    assert_eq!(TodoElement::parse("rec:+1w"), TodoElement::Recurrence { plus: true, count: 1, unit: RecurrenceTimeUnit::W });
    assert_eq!(TodoElement::parse("rec:10d"), TodoElement::Recurrence { plus: false, count: 10, unit: RecurrenceTimeUnit::D });
    assert_eq!(TodoElement::parse("rec:5b"), TodoElement::Recurrence { plus: false, count: 5, unit: RecurrenceTimeUnit::B });
    assert!(TodoElement::try_parse_recurrence("rec:x").is_err());
    assert!(TodoElement::try_parse_recurrence("rec:++1d").is_err());
    assert!(TodoElement::try_parse_recurrence("rec:+d").is_err());
    assert_eq!(TodoElement::try_parse_recurrence("rec:+007d").unwrap(), TodoElement::Recurrence { plus: true, count: 7, unit: RecurrenceTimeUnit::D });
    assert!(TodoElement::try_parse_recurrence("rec:65535y").is_ok());
}

#[test]
fn strict_parsers() {
    assert!(TodoElement::try_parse_context("+a").is_err());
    assert_eq!(TodoElement::try_parse_context("@a").unwrap(), TodoElement::context("a"));
    assert!(TodoElement::try_parse_due("t:2020-01-01").is_err());
    assert_eq!(TodoElement::try_parse_threshold("t:2020-01-01").unwrap(), TodoElement::Threshold(DateData { year: 2020, month: 1, day: 1 }));
    assert_eq!(TodoElement::try_parse_due("due:1-2-3").unwrap(), TodoElement::Due(DateData { year: 1, month: 2, day: 3 }));
}

#[test]
fn token_texts() {
    assert_eq!(TodoElement::project("p").to_string(), "+p");
    assert_eq!(TodoElement::context("c").to_string(), "@c");
    assert_eq!(TodoElement::Threshold(DateData { year: 2020, month: 11, day: 5 }).to_string(), "t:2020-11-05");
    assert_eq!(TodoElement::Recurrence { plus: true, count: 0, unit: RecurrenceTimeUnit::Y }.to_string(), "rec:+0y");
    assert_eq!(TodoElement::merge_texts(TodoElement::text("a"), TodoElement::text("b c")), TodoElement::text("a b c"));
    assert!(TodoElement::text("x").is_text());
    assert!(!TodoElement::project("x").is_text());
}

#[test]
fn dates() {
    assert_eq!(DateData::parse("2020-7-2").unwrap(), DateData { year: 2020, month: 7, day: 2 });
    assert_eq!(DateData::parse("2020-13-45").unwrap(), DateData { year: 2020, month: 13, day: 45 });
    assert!(DateData::parse("2020-07").is_err());
    assert!(DateData::parse("2020-07-22-1").is_err());
    assert!(DateData::parse("70000-01-01").is_err());
    assert!(DateData::parse("2020-1-300").is_err());
    assert!(DateData::parse("2020--1").is_err());
    assert_eq!(DateData { year: 5, month: 1, day: 2 }.to_string(), "5-01-02");
    assert_eq!(DateData { year: 2020, month: 100, day: 10 }.to_string(), "2020-100-10");
}

#[test]
fn entry_edges() {
    let e = TodoEntry::parse("").unwrap();
    assert_eq!(e, TodoEntry { status: Status::Open, created_date: None, parts: vec![] });
    let e = TodoEntry::parse("x").unwrap();
    assert_eq!(e, TodoEntry { status: Status::Done(None), created_date: None, parts: vec![] });
    let e = TodoEntry::parse("x 2020-01-01").unwrap();
    assert_eq!(e.status, Status::Done(Some(DateData { year: 2020, month: 1, day: 1 })));
    assert!(e.parts.is_empty());
    let e = TodoEntry::parse("x call").unwrap();
    assert_eq!(e.status, Status::Done(None));
    assert_eq!(e.parts, vec![TodoElement::text("call")]);
    assert_eq!(e.to_string(), "x call");
    let e = TodoEntry::parse("xylophone lesson").unwrap();
    assert_eq!(e.status, Status::Open);
    assert_eq!(e.parts, vec![TodoElement::text("xylophone lesson")]);
    assert_eq!(Status::Done(None).to_string(), "x ");
    assert_eq!(Status::Open.to_string(), "");
}

#[test]
fn push_merges_only_text() {
    let mut parts = vec![TodoElement::text("a")];
    TodoEntry::push(&mut parts, TodoElement::text("b"));
    TodoEntry::push(&mut parts, TodoElement::project("p"));
    TodoEntry::push(&mut parts, TodoElement::text("c"));
    assert_eq!(parts, vec![TodoElement::text("a b"), TodoElement::project("p"), TodoElement::text("c")]);
}

#[test]
fn documents() {
    let d = TodoData::parse("a +p\r\n\r\nb\n").unwrap();
    assert_eq!(d.entries.len(), 2);
    assert_eq!(d.serialize(), "a +p\nb\n");
    assert_eq!(TodoData::parse("").unwrap().entries.len(), 0);
}

#[test]
fn archive_moves_entry() {
    let mut m = two_tasks();
    m.execute(Command::Archive(0)).unwrap();
    assert_eq!(m.serialize_todo(), "do something else +work\n");
    assert_eq!(m.serialize_done(), "do something +home\n");
}

#[test]
fn do_then_undo_restores_the_line() {
    let mut m = two_tasks();
    let before = m.serialize_todo();
    m.apply(Command::Do(0), DateData { year: 2024, month: 2, day: 29 }).unwrap();
    assert_eq!(m.todo_data.entries[0].status, Status::Done(Some(DateData { year: 2024, month: 2, day: 29 })));
    assert_eq!(m.serialize_todo(), "x 2024-02-29 do something +home\ndo something else +work\n");
    m.apply(Command::Undo(0), DateData { year: 2024, month: 3, day: 1 }).unwrap();
    assert_eq!(m.todo_data.entries[0].status, Status::Open);
    assert_eq!(m.serialize_todo(), before);
}

#[test]
fn do_records_the_local_date() {
    let mut m = two_tasks();
    m.execute(Command::Do(1)).unwrap();
    match m.todo_data.entries[1].status {
        Status::Done(Some(d)) => {
            assert!(d.year >= 2000);
            assert!(1 <= d.month && d.month <= 12);
            assert!(1 <= d.day && d.day <= 31);
        },
        _ => panic!("expected a completion date"),
    }
}

#[test]
fn index_bounds() {
    let mut m = two_tasks();
    let todo = m.serialize_todo();
    let done = m.serialize_done();
    assert_eq!(m.execute(Command::Archive(2)), Err(CommandError::IndexOutOfRange));
    assert_eq!(m.execute(Command::Do(2)), Err(CommandError::IndexOutOfRange));
    assert_eq!(m.execute(Command::Undo(65535)), Err(CommandError::IndexOutOfRange));
    assert_eq!(m.serialize_todo(), todo);
    assert_eq!(m.serialize_done(), done);
    assert_eq!(CommandError::IndexOutOfRange.message(), "index out of range");
}

#[test]
fn list_pairs() {
    let mut m = two_tasks();
    m.execute(Command::List).unwrap();
    let l = m.list();
    assert_eq!(l, vec![(0, "do something +home".to_string()), (1, "do something else +work".to_string())]);
}

#[test]
fn app_reports_errors() {
    let mut app = App::load(Config::new(), "a\nb", "c");
    assert!(app.execute(Command::Archive(1)).is_ok());
    assert_eq!(app.todo_document(), "a\n");
    assert_eq!(app.done_document(), "c\nb\n");
    match app.execute(Command::Undo(4)) {
        Err(e) => assert_eq!(e.message, "index out of range"),
        Ok(_) => panic!("expected an error"),
    }
    assert_eq!(app.list(), vec![(0, "a".to_string())]);
}

#[test]
fn writing_a_parsed_line_gives_it_back() {
    for line in ["+Project1 @Site1 Foo bar due:2020-07-20 t:2020-07-26 rec:+1b", "call +a b c @d rec:3w e"] {
        assert_eq!(TodoEntry::parse(line).unwrap().to_string(), line);
    }
}
