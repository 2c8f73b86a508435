//! The command line: which command the words name, and what running it does
//! to a list.

use crate::date::{date_of_text, parse_date, Date, MAX_DAY};
use crate::store::{
    added, moved, renumbered, rows_show, rows_show_by_date, Row, TodoError, TodoList,
};
use crate::text::{chars_of, same_text};
use vstd::prelude::*;

verus! {

/// What the command line asks for. Positions are 0-based here.
#[derive(Debug)]
pub enum Command {
    List,
    ByDate,
    Add { name: String, due_date: Date },
    Remove { index: usize },
    Move { from: usize, to: usize },
    Help,
}

/// A command as a value: the name of a task to add as its characters.
pub enum CommandView {
    List,
    ByDate,
    Add { name: Seq<char>, due_date: Date },
    Remove { index: usize },
    Move { from: usize, to: usize },
    Help,
}

impl View for Command {
    type V = CommandView;

    open spec fn view(&self) -> CommandView {
        match self {
            Command::List => CommandView::List,
            Command::ByDate => CommandView::ByDate,
            Command::Add { name, due_date } => CommandView::Add { name: name@, due_date: *due_date },
            Command::Remove { index } => CommandView::Remove { index: *index },
            Command::Move { from, to } => CommandView::Move { from: *from, to: *to },
            Command::Help => CommandView::Help,
        }
    }
}

impl Command {
    /// Add, remove and move change the list; the others only read it.
    pub open spec fn mutates(&self) -> bool {
        self is Add || self is Remove || self is Move
    }

    /// Whether the list must be saved after running this command.
    pub fn is_mutating(&self) -> (r: bool)
        ensures
            r == self.mutates(),
    {
        match self {
            Command::Add { .. } | Command::Remove { .. } | Command::Move { .. } => true,
            _ => false,
        }
    }
}

/// What running a command gives back.
#[derive(Debug)]
pub enum Reply {
    /// The rows to show.
    Rows(Vec<Row>),
    /// Help was asked for.
    Usage,
    /// A task was added at this 1-based position.
    Added { position: usize },
    /// The task at this 1-based position was removed.
    Removed { position: usize },
    /// The task at 1-based `from` was moved to 1-based `to`.
    Moved { from: usize, to: usize },
}

pub open spec fn is_digit(c: char) -> bool {
    '0' <= c && c <= '9'
}

/// The number that the decimal digits `s` spell.
pub open spec fn digits_value(s: Seq<char>) -> int
    decreases s.len(),
{
    if s.len() == 0 {
        0
    } else {
        digits_value(s.drop_last()) * 10 + (s.last() as int - '0' as int)
    }
}

/// The digits of a position: a leading `+` is allowed before at least one
/// more character.
pub open spec fn position_digits(s: Seq<char>) -> Seq<char> {
    if s.len() > 1 && s[0] == '+' {
        s.drop_first()
    } else {
        s
    }
}

/// The position that `s` spells, as `usize::from_str_radix(s, 10)` reads it.
pub open spec fn position_value(s: Seq<char>) -> Option<usize> {
    let d = position_digits(s);
    if d.len() > 0 && (forall|j: int| 0 <= j < d.len() ==> is_digit(#[trigger] d[j]))
        && digits_value(d) <= usize::MAX {
        Some(digits_value(d) as usize)
    } else {
        None
    }
}

proof fn lemma_digits_value_nonneg(s: Seq<char>)
    requires
        forall|j: int| 0 <= j < s.len() ==> is_digit(#[trigger] s[j]),
    ensures
        digits_value(s) >= 0,
    decreases s.len(),
{
    if s.len() > 0 {
        lemma_digits_value_nonneg(s.drop_last());
    }
}

/// Reads a position written in decimal, with an optional leading `+`; `None`
/// where the text is empty, holds another character, or is too large.
pub fn parse_position(text: &str) -> (r: Option<usize>)
    ensures
        r == position_value(text@),
{
    let cs = chars_of(text);
    let start: usize = if cs.len() > 1 && cs[0] == '+' {
        1
    } else {
        0
    };
    let ghost d = position_digits(cs@);
    assert(d =~= cs@.subrange(start as int, cs@.len() as int));
    if start == cs.len() {
        return None;
    }
    let mut value: usize = 0;
    let mut too_big = false;
    let mut k: usize = start;
    while k < cs.len()
        invariant
            cs@ == text@,
            d == cs@.subrange(start as int, cs@.len() as int),
            d == position_digits(text@),
            start <= k <= cs.len(),
            forall|j: int| start <= j < k ==> is_digit(#[trigger] cs@[j]),
            !too_big ==> value == digits_value(cs@.subrange(start as int, k as int)),
            too_big ==> digits_value(cs@.subrange(start as int, k as int)) > usize::MAX,
        decreases cs.len() - k,
    {
        let c = cs[k];
        if !('0' <= c && c <= '9') {
            assert(!is_digit(d[k - start]));
            return None;
        }
        let digit = (c as u32 - '0' as u32) as usize;
        let ghost prefix = cs@.subrange(start as int, k as int);
        assert(cs@.subrange(start as int, k + 1).drop_last() =~= prefix);
        proof {
            assert forall|j: int| 0 <= j < prefix.len() implies is_digit(#[trigger] prefix[j]) by {
                assert(prefix[j] == cs@[start + j]);
            }
            lemma_digits_value_nonneg(prefix);
        }
        if !too_big {
            if value > (usize::MAX - digit) / 10 {
                too_big = true;
            } else {
                value = value * 10 + digit;
            }
        }
        k = k + 1;
    }
    assert(cs@.subrange(start as int, k as int) =~= d);
    if too_big {
        None
    } else {
        Some(value)
    }
}

pub open spec fn word_list() -> Seq<char> {
    seq!['l', 'i', 's', 't']
}

pub open spec fn word_date() -> Seq<char> {
    seq!['d', 'a', 't', 'e']
}

pub open spec fn word_add() -> Seq<char> {
    seq!['a', 'd', 'd']
}

pub open spec fn word_remove() -> Seq<char> {
    seq!['r', 'e', 'm', 'o', 'v', 'e']
}

pub open spec fn word_move() -> Seq<char> {
    seq!['m', 'o', 'v', 'e']
}

pub open spec fn is_help_word(w: Seq<char>) -> bool {
    w == seq!['h', 'e', 'l', 'p'] || w == seq!['-', '-', 'h', 'e', 'l', 'p'] || w == seq!['-', 'h']
}

/// The position given as word `k`, before it is checked to be at least 1.
pub open spec fn position_arg(words: Seq<Seq<char>>, k: int) -> Result<usize, TodoError> {
    if words.len() <= k {
        Err(TodoError::MissingPosition)
    } else {
        match position_value(words[k]) {
            Some(p) => Ok(p),
            None => Err(TodoError::InvalidPosition),
        }
    }
}

/// The command that the words of a command line name, the program's own name
/// first; no command word means `list`.
pub open spec fn command_of(words: Seq<Seq<char>>) -> Result<CommandView, TodoError> {
    if words.len() <= 1 {
        Ok(CommandView::List)
    } else {
        let c = words[1];
        if c == word_list() {
            Ok(CommandView::List)
        } else if c == word_date() {
            Ok(CommandView::ByDate)
        } else if c == word_add() {
            if words.len() <= 2 {
                Err(TodoError::MissingName)
            } else {
                Ok(
                    CommandView::Add {
                        name: words[2],
                        due_date: if words.len() > 3 {
                            date_of_text(words[3])
                        } else {
                            Date { days: MAX_DAY }
                        },
                    },
                )
            }
        } else if c == word_remove() {
            match position_arg(words, 2) {
                Err(e) => Err(e),
                Ok(p) => if p < 1 {
                    Err(TodoError::ZeroPosition)
                } else {
                    Ok(CommandView::Remove { index: (p - 1) as usize })
                },
            }
        } else if c == word_move() {
            match position_arg(words, 2) {
                Err(e) => Err(e),
                Ok(from) => match position_arg(words, 3) {
                    Err(e) => Err(e),
                    Ok(to) => if from < 1 || to < 1 {
                        Err(TodoError::ZeroPosition)
                    } else {
                        Ok(CommandView::Move { from: (from - 1) as usize, to: (to - 1) as usize })
                    },
                },
            }
        } else if is_help_word(c) {
            Ok(CommandView::Help)
        } else {
            Err(TodoError::UnknownCommand)
        }
    }
}

pub open spec fn words_of(args: Seq<String>) -> Seq<Seq<char>> {
    args.map_values(|a: String| a@)
}

pub open spec fn result_view(r: Result<Command, TodoError>) -> Result<CommandView, TodoError> {
    match r {
        Ok(c) => Ok(c@),
        Err(e) => Err(e),
    }
}

fn read_position(args: &Vec<String>, k: usize) -> (r: Result<usize, TodoError>)
    ensures
        r == position_arg(words_of(args@), k as int),
{
    if args.len() <= k {
        Err(TodoError::MissingPosition)
    } else {
        match parse_position(args[k].as_str()) {
            Some(p) => Ok(p),
            None => Err(TodoError::InvalidPosition),
        }
    }
}

/// The command that `args` names; `args[0]` is the program's name and is
/// skipped. Words after those a command reads are ignored.
pub fn parse_command(args: &Vec<String>) -> (r: Result<Command, TodoError>)
    ensures
        result_view(r) == command_of(words_of(args@)),
        r matches Ok(Command::Add { due_date, .. }) ==> due_date.valid(),
{
    let ghost words = words_of(args@);
    if args.len() <= 1 {
        return Ok(Command::List);
    }
    let c = args[1].as_str();
    proof {
        reveal_strlit("list");
        reveal_strlit("date");
        reveal_strlit("add");
        reveal_strlit("remove");
        reveal_strlit("move");
        reveal_strlit("help");
        reveal_strlit("--help");
        reveal_strlit("-h");
        assert("list"@ =~= word_list());
        assert("date"@ =~= word_date());
        assert("add"@ =~= word_add());
        assert("remove"@ =~= word_remove());
        assert("move"@ =~= word_move());
        assert("help"@ =~= seq!['h', 'e', 'l', 'p']);
        assert("--help"@ =~= seq!['-', '-', 'h', 'e', 'l', 'p']);
        assert("-h"@ =~= seq!['-', 'h']);
    }
    if same_text(c, "list") {
        Ok(Command::List)
    } else if same_text(c, "date") {
        Ok(Command::ByDate)
    } else if same_text(c, "add") {
        if args.len() <= 2 {
            return Err(TodoError::MissingName);
        }
        let name = args[2].clone();
        let due_date = if args.len() > 3 {
            parse_date(args[3].as_str())
        } else {
            Date::max()
        };
        Ok(Command::Add { name, due_date })
    } else if same_text(c, "remove") {
        let p = read_position(args, 2)?;
        if p < 1 {
            return Err(TodoError::ZeroPosition);
        }
        Ok(Command::Remove { index: p - 1 })
    } else if same_text(c, "move") {
        let from = read_position(args, 2)?;
        let to = read_position(args, 3)?;
        if from < 1 || to < 1 {
            return Err(TodoError::ZeroPosition);
        }
        Ok(Command::Move { from: from - 1, to: to - 1 })
    } else if same_text(c, "help") || same_text(c, "--help") || same_text(c, "-h") {
        Ok(Command::Help)
    } else {
        Err(TodoError::UnknownCommand)
    }
}

/// Runs a command on the list, as of `today`. Listing and help leave the list
/// as it is; add, remove and move change it as the list's own operations do,
/// and a refused position leaves it as it is.
pub fn run(list: &mut TodoList, command: Command, today: Date) -> (r: Result<Reply, TodoError>)
    requires
        old(list).wf(),
        old(list).tasks.len() < usize::MAX,
        command matches Command::Add { due_date, .. } ==> due_date.valid(),
    ensures
        final(list).wf(),
        final(list).path == old(list).path,
        !command.mutates() ==> *final(list) == *old(list),
        command is List ==> (r matches Ok(Reply::Rows(rows)) && rows_show(
            rows@,
            old(list).tasks@,
            today,
        )),
        command is ByDate ==> (r matches Ok(Reply::Rows(rows)) && rows_show_by_date(
            rows@,
            old(list).tasks@,
            today,
        )),
        command is Help ==> r matches Ok(Reply::Usage),
        command matches Command::Add { name, due_date } ==> r == Ok::<Reply, TodoError>(
            Reply::Added { position: (old(list).tasks.len() + 1) as usize },
        ) && final(list).tasks@ == added(old(list).tasks@, name, due_date),
        command matches Command::Remove { index } ==> if index < old(list).tasks.len() {
            r == Ok::<Reply, TodoError>(Reply::Removed { position: (index + 1) as usize })
                && final(list).tasks@ == renumbered(old(list).tasks@.remove(index as int))
        } else {
            r == Err::<Reply, TodoError>(TodoError::OutOfRange { len: old(list).tasks.len() })
                && *final(list) == *old(list)
        },
        command matches Command::Move { from, to } ==> if from < old(list).tasks.len() && to
            < old(list).tasks.len() {
            r == Ok::<Reply, TodoError>(
                Reply::Moved { from: (from + 1) as usize, to: (to + 1) as usize },
            ) && final(list).tasks@ == renumbered(moved(old(list).tasks@, from as int, to as int))
        } else {
            r == Err::<Reply, TodoError>(TodoError::OutOfRange { len: old(list).tasks.len() })
                && *final(list) == *old(list)
        },
{
    match command {
        Command::List => Ok(Reply::Rows(list.print(today))),
        Command::ByDate => Ok(Reply::Rows(list.print_by_due_date(today))),
        Command::Help => Ok(Reply::Usage),
        Command::Add { name, due_date } => {
            list.add(name, due_date);
            Ok(Reply::Added { position: list.tasks.len() })
        },
        Command::Remove { index } => match list.remove(index) {
            Ok(()) => Ok(Reply::Removed { position: index + 1 }),
            Err(e) => Err(e),
        },
        Command::Move { from, to } => match list.reorder(from, to) {
            Ok(()) => Ok(Reply::Moved { from: from + 1, to: to + 1 }),
            Err(e) => Err(e),
        },
    }
}

} // verus!
