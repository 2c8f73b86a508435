use chrono::{Datelike, NaiveDate};
use todo_list::command::{parse_command, parse_position, run, Command, Reply};
use todo_list::date::{format_date, parse_date, Date, MAX_DAY, MIN_DAY};
use todo_list::store::{sorted_by_due_date, Task, TodoError, TodoList};
use todo_list::text::{is_whitespace, same_text};

fn day(y: i32, m: u32, d: u32) -> Date {
    Date { days: NaiveDate::from_ymd_opt(y, m, d).unwrap().num_days_from_ce() }
}

fn empty_list() -> TodoList {
    TodoList::load("nonexistent_file_path".to_string(), "")
}

fn names(tasks: &[Task]) -> Vec<String> {
    tasks.iter().map(|t| t.name.clone()).collect()
}

fn orders(tasks: &[Task]) -> Vec<usize> {
    tasks.iter().map(|t| t.order).collect()
}

fn args(words: &[&str]) -> Vec<String> {
    words.iter().map(|w| w.to_string()).collect()
}

#[test]
fn load_empty() {
    let list = TodoList::load("nonexistent_file_path".to_string(), "");
    assert!(list.tasks.is_empty());
}

#[test]
fn add_one() {
    let mut list = TodoList::load("nonexistent_file_path".to_string(), "");
    list.add("Task A".to_string(), Date::max());
    assert!(list.tasks.len() == 1);
}

#[test]
fn remove_one() {
    let mut list = TodoList::load("nonexistent_file_path".to_string(), "");
    list.add("Task A".to_string(), Date::max());
    list.remove(0).unwrap();
    assert!(list.tasks.is_empty());
}

#[test]
fn bounds_match_chrono() {
    assert_eq!(MAX_DAY, NaiveDate::MAX.num_days_from_ce());
    assert_eq!(MIN_DAY, NaiveDate::MIN.num_days_from_ce());
    assert_eq!(Date::max().days, MAX_DAY);
    assert!(Date::max().is_max());
    assert_eq!(Date::from_days(MAX_DAY), Some(Date::max()));
    assert_eq!(Date::from_days(MAX_DAY + 1), None);
    assert_eq!(Date::from_days(MIN_DAY - 1), None);
}

#[test]
fn parse_and_format_dates() {
    assert_eq!(parse_date("2024-01-01"), day(2024, 1, 1));
    assert_eq!(parse_date("2024-02-29"), day(2024, 2, 29));
    assert_eq!(parse_date("2023-02-29"), Date::max());
    assert_eq!(parse_date("tomorrow"), Date::max());
    assert_eq!(parse_date(""), Date::max());
    assert_eq!(format_date(&day(2024, 1, 1)), "2024-01-01");
    assert_eq!(format_date(&day(999, 12, 3)), "0999-12-03");
    assert_ne!(format_date(&day(2024, 3, 5)), "");
}

#[test]
fn load_reads_lines() {
    let text = "2024-01-01,Buy milk\n\n   \n,Write report\nno comma here\r\n  2024-03-05,a, b ,c  \n";
    let list = TodoList::load(".todo".to_string(), text);
    assert_eq!(list.path, ".todo");
    assert_eq!(names(&list.tasks), vec!["Buy milk", "Write report", "no comma here", "a, b ,c"]);
    assert_eq!(orders(&list.tasks), vec![1, 2, 3, 4]);
    assert_eq!(list.tasks[0].due_date, day(2024, 1, 1));
    assert_eq!(list.tasks[1].due_date, Date::max());
    assert_eq!(list.tasks[2].due_date, Date::max());
    assert_eq!(list.tasks[3].due_date, day(2024, 3, 5));
}

#[test]
fn load_bad_date_is_undated() {
    let list = TodoList::load(".todo".to_string(), "someday,Paint fence");
    assert_eq!(list.tasks.len(), 1);
    assert_eq!(list.tasks[0].name, "Paint fence");
    assert_eq!(list.tasks[0].due_date, Date::max());
}

#[test]
fn adds_are_numbered_one_to_n() {
    let mut list = empty_list();
    for n in 1..=5usize {
        list.add(format!("Task {n}"), Date::max());
        assert_eq!(list.tasks.len(), n);
        assert_eq!(orders(&list.tasks), (1..=n).collect::<Vec<usize>>());
    }
}

#[test]
fn remove_renumbers() {
    let mut list = empty_list();
    for name in ["A", "B", "C", "D"] {
        list.add(name.to_string(), Date::max());
    }
    list.remove(1).unwrap();
    assert_eq!(names(&list.tasks), vec!["A", "C", "D"]);
    assert_eq!(orders(&list.tasks), vec![1, 2, 3]);
}

#[test]
fn reorder_first_to_last() {
    let mut list = empty_list();
    for name in ["A", "B", "C"] {
        list.add(name.to_string(), Date::max());
    }
    list.reorder(0, 2).unwrap();
    assert_eq!(names(&list.tasks), vec!["B", "C", "A"]);
    assert_eq!(orders(&list.tasks), vec![1, 2, 3]);
}

#[test]
fn reorder_last_to_first() {
    let mut list = empty_list();
    for name in ["A", "B", "C"] {
        list.add(name.to_string(), Date::max());
    }
    list.reorder(2, 0).unwrap();
    assert_eq!(names(&list.tasks), vec!["C", "A", "B"]);
}

#[test]
fn out_of_range_is_refused() {
    let mut list = empty_list();
    list.add("A".to_string(), Date::max());
    list.add("B".to_string(), Date::max());
    assert_eq!(list.remove(2), Err(TodoError::OutOfRange { len: 2 }));
    assert_eq!(list.reorder(0, 2), Err(TodoError::OutOfRange { len: 2 }));
    assert_eq!(list.reorder(5, 0), Err(TodoError::OutOfRange { len: 2 }));
    assert_eq!(names(&list.tasks), vec!["A", "B"]);
    assert_eq!(orders(&list.tasks), vec![1, 2]);
}

#[test]
fn save_writes_lines() {
    let mut list = empty_list();
    list.add("Buy milk".to_string(), day(2024, 1, 1));
    list.add("Write report".to_string(), Date::max());
    assert_eq!(list.save(), "2024-01-01,Buy milk\n,Write report\n");
    assert_eq!(empty_list().save(), "");
}

#[test]
fn save_then_load_round_trips() {
    let mut list = empty_list();
    list.add("Buy milk".to_string(), day(2024, 1, 1));
    list.add("Write report".to_string(), Date::max());
    list.add("call, then email".to_string(), day(1999, 12, 31));
    list.add("".to_string(), Date::max());
    list.add("far off".to_string(), day(12345, 6, 7));
    let text = list.save();
    let back = TodoList::load(list.path.clone(), &text);
    assert_eq!(back.tasks.len(), list.tasks.len());
    for (a, b) in list.tasks.iter().zip(back.tasks.iter()) {
        assert_eq!(a.name, b.name);
        assert_eq!(a.due_date, b.due_date);
        assert_eq!(a.order, b.order);
    }
}

#[test]
fn sort_by_date_is_stable() {
    let mut list = empty_list();
    list.add("late".to_string(), day(2025, 5, 1));
    list.add("none 1".to_string(), Date::max());
    list.add("tie 1".to_string(), day(2024, 1, 1));
    list.add("none 2".to_string(), Date::max());
    list.add("tie 2".to_string(), day(2024, 1, 1));
    let sorted = sorted_by_due_date(&list.tasks);
    assert_eq!(names(&sorted), vec!["tie 1", "tie 2", "late", "none 1", "none 2"]);
    assert_eq!(orders(&sorted), vec![3, 5, 1, 2, 4]);
}

#[test]
fn overdue_classification() {
    let today = day(2024, 6, 15);
    let task = |d: Date| Task { name: "t".to_string(), due_date: d, order: 1 };
    assert!(task(day(2024, 6, 14)).is_overdue(today));
    assert!(task(day(2024, 6, 15)).is_overdue(today));
    assert!(!task(day(2024, 6, 16)).is_overdue(today));
    assert!(!task(Date::max()).is_overdue(today));
    assert!(!task(Date::max()).is_overdue(Date::max()));
}

#[test]
fn rows_show_tasks() {
    let mut list = empty_list();
    list.add("old".to_string(), day(2020, 2, 2));
    list.add("none".to_string(), Date::max());
    let rows = list.print(day(2024, 6, 15));
    assert_eq!(rows.len(), 2);
    assert_eq!(rows[0].order, 1);
    assert_eq!(rows[0].due, "2020-02-02");
    assert_eq!(rows[0].name, "old");
    assert!(rows[0].overdue);
    assert_eq!(rows[1].due, "");
    assert!(!rows[1].overdue);
}

#[test]
fn date_command_puts_dated_first() {
    let list = TodoList::load(".todo".to_string(), "2024-01-01,Buy milk\n,Write report");
    let rows = list.print_by_due_date(day(2023, 1, 1));
    let shown: Vec<&str> = rows.iter().map(|r| r.name.as_str()).collect();
    assert_eq!(shown, vec!["Buy milk", "Write report"]);
}

#[test]
fn date_command_moves_dated_ahead() {
    let list = TodoList::load(".todo".to_string(), ",Write report\n2024-01-01,Buy milk");
    let rows = list.print_by_due_date(day(2023, 1, 1));
    assert_eq!(rows[0].name, "Buy milk");
    assert_eq!(rows[0].order, 2);
    assert_eq!(rows[1].name, "Write report");
    assert_eq!(rows[1].order, 1);
}

#[test]
fn positions_are_decimal() {
    assert_eq!(parse_position("12"), Some(12));
    assert_eq!(parse_position("+3"), Some(3));
    assert_eq!(parse_position("007"), Some(7));
    assert_eq!(parse_position("0"), Some(0));
    assert_eq!(parse_position("+"), None);
    assert_eq!(parse_position(""), None);
    assert_eq!(parse_position("-1"), None);
    assert_eq!(parse_position("1x"), None);
    assert_eq!(parse_position(" 1"), None);
    assert_eq!(parse_position(&usize::MAX.to_string()), Some(usize::MAX));
    assert_eq!(parse_position(&format!("{}0", usize::MAX)), None);
    assert_eq!(parse_position(&format!("{}0x", usize::MAX)), None);
}

#[test]
fn commands_parse() {
    assert!(matches!(parse_command(&args(&["todo"])), Ok(Command::List)));
    assert!(matches!(parse_command(&args(&["todo", "list"])), Ok(Command::List)));
    assert!(matches!(parse_command(&args(&["todo", "date"])), Ok(Command::ByDate)));
    assert!(matches!(parse_command(&args(&["todo", "help"])), Ok(Command::Help)));
    assert!(matches!(parse_command(&args(&["todo", "--help"])), Ok(Command::Help)));
    assert!(matches!(parse_command(&args(&["todo", "-h"])), Ok(Command::Help)));
    match parse_command(&args(&["todo", "add", "Buy milk", "2024-01-01"])) {
        Ok(Command::Add { name, due_date }) => {
            assert_eq!(name, "Buy milk");
            assert_eq!(due_date, day(2024, 1, 1));
        }
        other => panic!("unexpected {other:?}"),
    }
    match parse_command(&args(&["todo", "add", "Read"])) {
        Ok(Command::Add { name, due_date }) => {
            assert_eq!(name, "Read");
            assert_eq!(due_date, Date::max());
        }
        other => panic!("unexpected {other:?}"),
    }
    assert!(matches!(parse_command(&args(&["todo", "remove", "3"])), Ok(Command::Remove { index: 2 })));
    assert!(matches!(
        parse_command(&args(&["todo", "move", "1", "3"])),
        Ok(Command::Move { from: 0, to: 2 })
    ));
}

#[test]
fn command_errors() {
    assert_eq!(parse_command(&args(&["todo", "add"])).unwrap_err(), TodoError::MissingName);
    assert_eq!(parse_command(&args(&["todo", "remove"])).unwrap_err(), TodoError::MissingPosition);
    assert_eq!(parse_command(&args(&["todo", "remove", "x"])).unwrap_err(), TodoError::InvalidPosition);
    assert_eq!(parse_command(&args(&["todo", "remove", "0"])).unwrap_err(), TodoError::ZeroPosition);
    assert_eq!(parse_command(&args(&["todo", "move", "1"])).unwrap_err(), TodoError::MissingPosition);
    assert_eq!(parse_command(&args(&["todo", "move", "a", "1"])).unwrap_err(), TodoError::InvalidPosition);
    assert_eq!(parse_command(&args(&["todo", "move", "0", "1"])).unwrap_err(), TodoError::ZeroPosition);
    assert_eq!(parse_command(&args(&["todo", "move", "2", "0"])).unwrap_err(), TodoError::ZeroPosition);
    assert_eq!(parse_command(&args(&["todo", "lsit"])).unwrap_err(), TodoError::UnknownCommand);
}

#[test]
fn run_dispatches() {
    let mut list = empty_list();
    let today = day(2024, 6, 15);
    let add = Command::Add { name: "A".to_string(), due_date: Date::max() };
    assert!(add.is_mutating());
    assert!(matches!(run(&mut list, add, today), Ok(Reply::Added { position: 1 })));
    let add = Command::Add { name: "B".to_string(), due_date: day(2024, 1, 1) };
    assert!(matches!(run(&mut list, add, today), Ok(Reply::Added { position: 2 })));
    assert!(!Command::List.is_mutating());
    match run(&mut list, Command::ByDate, today) {
        Ok(Reply::Rows(rows)) => assert_eq!(rows[0].name, "B"),
        other => panic!("unexpected {other:?}"),
    }
    match run(&mut list, Command::List, today) {
        Ok(Reply::Rows(rows)) => assert_eq!(rows[0].name, "A"),
        other => panic!("unexpected {other:?}"),
    }
    assert!(matches!(run(&mut list, Command::Help, today), Ok(Reply::Usage)));
    assert!(matches!(run(&mut list, Command::Move { from: 1, to: 0 }, today), Ok(Reply::Moved { from: 2, to: 1 })));
    assert_eq!(names(&list.tasks), vec!["B", "A"]);
    assert_eq!(run(&mut list, Command::Remove { index: 2 }, today).unwrap_err(), TodoError::OutOfRange { len: 2 });
    assert!(matches!(run(&mut list, Command::Remove { index: 0 }, today), Ok(Reply::Removed { position: 1 })));
    assert_eq!(names(&list.tasks), vec!["A"]);
    assert_eq!(orders(&list.tasks), vec![1]);
}

#[test]
fn text_helpers() {
    assert!(same_text("move", "move"));
    assert!(!same_text("move", "mov"));
    assert!(!same_text("move", "mova"));
    for c in [' ', '\t', '\n', '\r', '\u{A0}', '\u{2003}', '\u{3000}'] {
        assert!(is_whitespace(c));
        assert_eq!(is_whitespace(c), c.is_whitespace());
    }
    for c in ['a', ',', '0', '-', '+', '\u{200B}'] {
        assert!(!is_whitespace(c));
        assert_eq!(is_whitespace(c), c.is_whitespace());
    }
}
