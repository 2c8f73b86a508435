//! The task list: its tasks in stored order, the file it lives in, and the
//! operations that keep each task's `order` equal to its position.

use crate::date::{date_of_text, day_text, format_date, is_date_char, parse_date, Date, MAX_DAY};
use crate::text::{
    chars_of, find_comma, first_comma, is_white, lemma_first_comma, slice_chars, string_of, trim,
    trimmed_bounds,
};
use vstd::prelude::*;

verus! {

/// One entry of the list.
pub struct Task {
    pub name: String,
    /// The due date; `Date::max()` where the task has none.
    pub due_date: Date,
    /// The 1-based position of the task in its list.
    pub order: usize,
}

impl Clone for Task {
    fn clone(&self) -> (r: Self)
        ensures
            r == *self,
    {
        Task { name: self.name.clone(), due_date: self.due_date, order: self.order }
    }
}

/// What the errors of the list operations and the commands are.
#[derive(Clone, Copy, Debug, PartialEq, Eq, Structural)]
pub enum TodoError {
    /// `add` was given no task name.
    MissingName,
    /// `remove` or `move` was given too few positions.
    MissingPosition,
    /// A position is not a decimal number.
    InvalidPosition,
    /// A position is zero; positions start at 1.
    ZeroPosition,
    /// A position lies past the end of a list of this many tasks.
    OutOfRange { len: usize },
    /// The command word is none of the known ones.
    UnknownCommand,
}

/// The tasks of a list and the file they are kept in.
pub struct TodoList {
    pub path: String,
    pub tasks: Vec<Task>,
}

/// What a task is, apart from its position: its name and due date.
pub open spec fn entry(t: Task) -> (Seq<char>, Date) {
    (t.name@, t.due_date)
}

pub open spec fn entries(s: Seq<Task>) -> Seq<(Seq<char>, Date)> {
    s.map_values(|t: Task| entry(t))
}

/// Each task's `order` is its 1-based position.
pub open spec fn numbered(s: Seq<Task>) -> bool {
    forall|i: int| 0 <= i < s.len() ==> (#[trigger] s[i]).order == i + 1
}

/// `s` with each task's `order` set to its 1-based position.
pub open spec fn renumbered(s: Seq<Task>) -> Seq<Task> {
    Seq::new(
        s.len(),
        |i: int| Task { name: s[i].name, due_date: s[i].due_date, order: (i + 1) as usize },
    )
}

/// `s` with a task appended, numbered by the new length.
pub open spec fn added(s: Seq<Task>, name: String, due_date: Date) -> Seq<Task> {
    s.push(Task { name: name, due_date: due_date, order: (s.len() + 1) as usize })
}

/// The tasks that adding `items` one by one to an empty list gives.
pub open spec fn adds(items: Seq<(String, Date)>) -> Seq<Task>
    decreases items.len(),
{
    if items.len() == 0 {
        Seq::empty()
    } else {
        added(adds(items.drop_last()), items.last().0, items.last().1)
    }
}

/// `s` with the task at `from` taken out and put back at `to` of what is left.
pub open spec fn moved(s: Seq<Task>, from: int, to: int) -> Seq<Task> {
    s.remove(from).insert(to, s[from])
}

/// Every due date is one chrono can represent.
pub open spec fn all_valid(s: Seq<Task>) -> bool {
    forall|i: int| 0 <= i < s.len() ==> (#[trigger] s[i]).due_date.valid()
}

/// The pieces of `s` between its newlines, the last one included even where it
/// is empty.
pub open spec fn split_lines(s: Seq<char>) -> Seq<Seq<char>>
    decreases s.len(),
{
    if s.len() == 0 {
        seq![Seq::<char>::empty()]
    } else {
        let p = split_lines(s.drop_last());
        if s.last() == '\n' {
            p.push(Seq::<char>::empty())
        } else {
            p.update(p.len() - 1, p.last().push(s.last()))
        }
    }
}

pub proof fn lemma_split_lines_len(s: Seq<char>)
    ensures
        split_lines(s).len() >= 1,
    decreases s.len(),
{
    if s.len() > 0 {
        lemma_split_lines_len(s.drop_last());
    }
}

/// The task that a trimmed, non-blank line of the file stands for: before the
/// first comma its due date, after it its name; a line without a comma is all
/// name and has no due date.
pub open spec fn entry_of_line(line: Seq<char>) -> (Seq<char>, Date) {
    let k = first_comma(line);
    if k < line.len() {
        (line.subrange(k + 1, line.len() as int), date_of_text(line.subrange(0, k)))
    } else {
        (line, Date { days: MAX_DAY })
    }
}

/// The tasks of the given lines: one for each line that is not blank once
/// trimmed, in order.
pub open spec fn entries_of_lines(lines: Seq<Seq<char>>) -> Seq<(Seq<char>, Date)>
    decreases lines.len(),
{
    if lines.len() == 0 {
        Seq::empty()
    } else {
        let rest = entries_of_lines(lines.drop_last());
        let line = trim(lines.last());
        if line.len() == 0 {
            rest
        } else {
            rest.push(entry_of_line(line))
        }
    }
}

/// The tasks that the text of a storage file holds.
pub open spec fn entries_of_text(text: Seq<char>) -> Seq<(Seq<char>, Date)> {
    entries_of_lines(split_lines(text))
}

/// The date field of a task's line: empty for the sentinel.
pub open spec fn date_field(d: Date) -> Seq<char> {
    if d.is_undated() {
        Seq::empty()
    } else {
        day_text(d.days)
    }
}

pub open spec fn date_chars_only(s: Seq<char>) -> bool {
    forall|j: int| 0 <= j < s.len() ==> is_date_char(#[trigger] s[j])
}

/// The line that stands for a task in the file, without its newline.
pub open spec fn line_of(e: (Seq<char>, Date)) -> Seq<char> {
    date_field(e.1) + seq![','] + e.0
}

/// The text of a storage file holding the given tasks: one line each.
pub open spec fn file_text(es: Seq<(Seq<char>, Date)>) -> Seq<char>
    decreases es.len(),
{
    if es.len() == 0 {
        Seq::empty()
    } else {
        file_text(es.drop_last()) + line_of(es.last()) + seq!['\n']
    }
}

/// A task that the file keeps as it is: its name has no newline and does not
/// end in whitespace, and its date field is made of date characters.
pub open spec fn saves_cleanly(e: (Seq<char>, Date)) -> bool {
    &&& forall|j: int| 0 <= j < e.0.len() ==> #[trigger] e.0[j] != '\n'
    &&& (e.0.len() == 0 || !is_white(e.0.last()))
    &&& date_chars_only(date_field(e.1))
}

/// What loading gives back for a saved task: the same name; no due date for
/// one without; for a dated one, what chrono reads from the text it wrote.
pub open spec fn reloaded(e: (Seq<char>, Date)) -> (Seq<char>, Date) {
    (e.0, if e.1.is_undated() { e.1 } else { date_of_text(day_text(e.1.days)) })
}

/// Loading an empty text (a missing or empty file) gives no tasks.
pub proof fn lemma_empty_text_has_no_tasks()
    ensures
        entries_of_text(Seq::empty()) == Seq::<(Seq<char>, Date)>::empty(),
{
    let lines = split_lines(Seq::<char>::empty());
    assert(trim(lines.last()) =~= Seq::<char>::empty());
    assert(lines.drop_last() =~= Seq::<Seq<char>>::empty());
    assert(entries_of_lines(lines.drop_last()) =~= Seq::<(Seq<char>, Date)>::empty());
}

/// Adding N tasks one by one to an empty list gives N tasks, numbered 1 to N,
/// with the names and due dates given, in order.
pub proof fn lemma_adds_are_numbered(items: Seq<(String, Date)>)
    requires
        items.len() < usize::MAX,
    ensures
        adds(items).len() == items.len(),
        numbered(adds(items)),
        forall|i: int|
            0 <= i < items.len() ==> (#[trigger] adds(items)[i]).name == items[i].0
                && adds(items)[i].due_date == items[i].1,
    decreases items.len(),
{
    if items.len() > 0 {
        lemma_adds_are_numbered(items.drop_last());
    }
}

/// Removing a task leaves the others numbered 1 to N-1, in their order.
pub proof fn lemma_remove_renumbers(s: Seq<Task>, index: int)
    requires
        0 <= index < s.len() <= usize::MAX,
    ensures
        renumbered(s.remove(index)).len() == s.len() - 1,
        numbered(renumbered(s.remove(index))),
        entries(renumbered(s.remove(index))) == entries(s).remove(index),
{
    assert(entries(renumbered(s.remove(index))) =~= entries(s).remove(index));
}

/// Sorting by due date is stable: of two tasks of a numbered list with the
/// same due date, the earlier one comes first in the sorted tasks.
pub proof fn lemma_by_date_keeps_ties_in_order(s: Seq<Task>, r: Seq<Task>, i: int, j: int)
    requires
        numbered(s),
        is_by_date(r, s),
        0 <= i < j < s.len(),
        s[i].due_date == s[j].due_date,
    ensures
        exists|p: int, q: int| 0 <= p < q < r.len() && r[p] == s[i] && r[q] == s[j],
{
    broadcast use vstd::seq_lib::group_to_multiset_ensures;

    assert(s.to_multiset().count(s[i]) > 0);
    assert(s.to_multiset().count(s[j]) > 0);
    assert(r.contains(s[i]));
    assert(r.contains(s[j]));
    let p = choose|p: int| 0 <= p < r.len() && r[p] == s[i];
    let q = choose|q: int| 0 <= q < r.len() && r[q] == s[j];
    assert(s[i].order == i + 1);
    assert(s[j].order == j + 1);
    if q < p {
        assert(by_date_le(r[q], r[p]));
    }
    assert(p != q);
}

proof fn lemma_split_append(s: Seq<char>, l: Seq<char>)
    requires
        forall|j: int| 0 <= j < l.len() ==> #[trigger] l[j] != '\n',
    ensures
        split_lines(s + l) == split_lines(s).update(
            split_lines(s).len() - 1,
            split_lines(s).last() + l,
        ),
    decreases l.len(),
{
    lemma_split_lines_len(s);
    if l.len() == 0 {
        assert(s + l =~= s);
        assert(split_lines(s).last() + l =~= split_lines(s).last());
        assert(split_lines(s).update(split_lines(s).len() - 1, split_lines(s).last())
            =~= split_lines(s));
    } else {
        let l2 = l.drop_last();
        lemma_split_append(s, l2);
        assert((s + l).drop_last() =~= s + l2);
        assert((split_lines(s).last() + l2).push(l.last()) =~= split_lines(s).last() + l);
        assert(split_lines(s + l) =~= split_lines(s).update(
            split_lines(s).len() - 1,
            split_lines(s).last() + l,
        ));
    }
}

proof fn lemma_line_of_parts(e: (Seq<char>, Date))
    requires
        saves_cleanly(e),
    ensures
        forall|j: int| 0 <= j < line_of(e).len() ==> #[trigger] line_of(e)[j] != '\n',
        trim(line_of(e)) == line_of(e),
        line_of(e).len() > 0,
        entry_of_line(line_of(e)) == reloaded(e),
{
    let d = date_field(e.1);
    let line = line_of(e);
    assert(line[d.len() as int] == ',');
    assert forall|j: int| 0 <= j < line.len() implies #[trigger] line[j] != '\n' by {
        if j < d.len() {
            assert(is_date_char(d[j]));
        } else if j > d.len() {
            assert(line[j] == e.0[j - d.len() - 1]);
        }
    }
    if d.len() > 0 {
        assert(is_date_char(d[0]));
    }
    assert(!is_white(line[0]));
    assert(crate::text::trim_start(line) == line);
    if e.0.len() > 0 {
        assert(line.last() == e.0.last());
    }
    assert(!is_white(line.last()));
    assert forall|j: int| 0 <= j < d.len() implies #[trigger] line[j] != ',' by {
        assert(is_date_char(d[j]));
    }
    lemma_first_comma(line, d.len() as int);
    assert(line.subrange(d.len() as int + 1, line.len() as int) =~= e.0);
    assert(line.subrange(0, d.len() as int) =~= d);
}

proof fn lemma_split_file_text(es: Seq<(Seq<char>, Date)>)
    requires
        forall|i: int| 0 <= i < es.len() ==> saves_cleanly(#[trigger] es[i]),
    ensures
        split_lines(file_text(es)) == es.map_values(|e: (Seq<char>, Date)| line_of(e)).push(
            Seq::<char>::empty(),
        ),
    decreases es.len(),
{
    if es.len() == 0 {
        assert(split_lines(file_text(es)) =~= es.map_values(
            |e: (Seq<char>, Date)| line_of(e),
        ).push(Seq::<char>::empty()));
    } else {
        let rest = es.drop_last();
        lemma_split_file_text(rest);
        lemma_line_of_parts(es.last());
        let f = file_text(rest);
        let line = line_of(es.last());
        lemma_split_append(f, line);
        assert((f + line + seq!['\n']).drop_last() =~= f + line);
        assert(split_lines(f).last() + line =~= line);
        assert(es.map_values(|e: (Seq<char>, Date)| line_of(e)) =~= rest.map_values(
            |e: (Seq<char>, Date)| line_of(e),
        ).push(line));
        assert(split_lines(file_text(es)) =~= es.map_values(
            |e: (Seq<char>, Date)| line_of(e),
        ).push(Seq::<char>::empty()));
    }
}

proof fn lemma_entries_of_saved_lines(es: Seq<(Seq<char>, Date)>)
    requires
        forall|i: int| 0 <= i < es.len() ==> saves_cleanly(#[trigger] es[i]),
    ensures
        entries_of_lines(es.map_values(|e: (Seq<char>, Date)| line_of(e))) == es.map_values(
            |e: (Seq<char>, Date)| reloaded(e),
        ),
    decreases es.len(),
{
    let lines = es.map_values(|e: (Seq<char>, Date)| line_of(e));
    if es.len() == 0 {
        assert(entries_of_lines(lines) =~= es.map_values(|e: (Seq<char>, Date)| reloaded(e)));
    } else {
        let rest = es.drop_last();
        lemma_entries_of_saved_lines(rest);
        lemma_line_of_parts(es.last());
        assert(lines.drop_last() =~= rest.map_values(|e: (Seq<char>, Date)| line_of(e)));
        assert(es.map_values(|e: (Seq<char>, Date)| reloaded(e)) =~= rest.map_values(
            |e: (Seq<char>, Date)| reloaded(e),
        ).push(reloaded(es.last())));
    }
}

/// Saving and then loading gives back each task's name, in order; a task
/// without a due date comes back without one, and a dated one comes back with
/// what chrono reads from the date it wrote. Names must survive the line
/// format: no newline, no trailing whitespace.
pub proof fn lemma_save_then_load(es: Seq<(Seq<char>, Date)>)
    requires
        forall|i: int| 0 <= i < es.len() ==> saves_cleanly(#[trigger] es[i]),
    ensures
        entries_of_text(file_text(es)) == es.map_values(|e: (Seq<char>, Date)| reloaded(e)),
{
    lemma_split_file_text(es);
    lemma_entries_of_saved_lines(es);
    let lines = es.map_values(|e: (Seq<char>, Date)| line_of(e));
    assert(lines.push(Seq::<char>::empty()).drop_last() =~= lines);
    assert(trim(Seq::<char>::empty()) =~= Seq::<char>::empty());
}

/// Appends the task that `cs[lo..hi]` stands for, if that line is not blank.
fn push_line(tasks: &mut Vec<Task>, cs: &Vec<char>, lo: usize, hi: usize)
    requires
        lo <= hi <= cs.len(),
        old(tasks).len() <= lo,
        numbered(old(tasks)@),
        all_valid(old(tasks)@),
    ensures
        numbered(final(tasks)@),
        all_valid(final(tasks)@),
        final(tasks).len() <= hi,
        entries(final(tasks)@) == (if trim(cs@.subrange(lo as int, hi as int)).len() == 0 {
            entries(old(tasks)@)
        } else {
            entries(old(tasks)@).push(entry_of_line(trim(cs@.subrange(lo as int, hi as int))))
        }),
{
    let (a, b) = trimmed_bounds(cs, lo, hi);
    if a == b {
        return;
    }
    let ghost line = cs@.subrange(a as int, b as int);
    let k = find_comma(cs, a, b);
    let name_chars;
    let due_date;
    if k < b {
        let date_chars = slice_chars(cs, a, k);
        if k == a {
            due_date = Date::max();
        } else {
            let date_text = string_of(&date_chars);
            due_date = parse_date(date_text.as_str());
        }
        name_chars = slice_chars(cs, k + 1, b);
        assert(line.subrange(k - a + 1, line.len() as int) =~= name_chars@);
        assert(line.subrange(0, k - a) =~= date_chars@);
    } else {
        name_chars = slice_chars(cs, a, b);
        due_date = Date::max();
    }
    let name = string_of(&name_chars);
    let order = tasks.len() + 1;
    let ghost before = tasks@;
    tasks.push(Task { name, due_date, order });
    assert(entries(tasks@) =~= entries(before).push(entry_of_line(line)));
}

impl Task {
    /// Overdue: dated, and due on `today` or before.
    pub open spec fn overdue_on(self, today: Date) -> bool {
        !self.due_date.is_undated() && self.due_date.days <= today.days
    }

    /// Whether the task is overdue on `today`: it has a due date and that date
    /// is `today` or earlier. A task without a due date never is.
    pub fn is_overdue(&self, today: Date) -> (r: bool)
        ensures
            r == self.overdue_on(today),
    {
        !self.due_date.is_max() && self.due_date.days <= today.days
    }
}

/// `a` comes no later than `b` by due date, then by `order`.
pub open spec fn by_date_le(a: Task, b: Task) -> bool {
    a.due_date.days < b.due_date.days || (a.due_date.days == b.due_date.days && a.order
        <= b.order)
}

pub open spec fn sorted_by_date(s: Seq<Task>) -> bool {
    forall|a: int, b: int| 0 <= a < b < s.len() ==> by_date_le(#[trigger] s[a], #[trigger] s[b])
}

/// `r` holds the tasks of `s`, sorted by due date and then by `order`.
pub open spec fn is_by_date(r: Seq<Task>, s: Seq<Task>) -> bool {
    r.to_multiset() == s.to_multiset() && sorted_by_date(r)
}

fn by_date_before_or_same(a: &Task, b: &Task) -> (r: bool)
    ensures
        r == by_date_le(*a, *b),
{
    a.due_date.days < b.due_date.days || (a.due_date.days == b.due_date.days && a.order
        <= b.order)
}

/// The tasks sorted by due date, ties (and tasks without a due date) kept in
/// `order`.
pub fn sorted_by_due_date(tasks: &Vec<Task>) -> (r: Vec<Task>)
    ensures
        is_by_date(r@, tasks@),
{
    broadcast use vstd::seq_lib::group_to_multiset_ensures;

    let mut out: Vec<Task> = Vec::new();
    let mut i: usize = 0;
    assert(tasks@.subrange(0, 0) =~= Seq::<Task>::empty());
    while i < tasks.len()
        invariant
            0 <= i <= tasks.len(),
            out@.to_multiset() == tasks@.subrange(0, i as int).to_multiset(),
            sorted_by_date(out@),
        decreases tasks.len() - i,
    {
        let t = tasks[i].clone();
        let mut p: usize = out.len();
        while p > 0 && !by_date_before_or_same(&out[p - 1], &t)
            invariant
                0 <= p <= out.len(),
                sorted_by_date(out@),
                forall|j: int| p <= j < out.len() ==> !by_date_le(#[trigger] out@[j], t),
            decreases p,
        {
            p = p - 1;
        }
        let ghost before = out@;
        out.insert(p, t);
        proof {
            assert(tasks@.subrange(0, i + 1) =~= tasks@.subrange(0, i as int).push(tasks@[i as int]));
            vstd::seq_lib::to_multiset_insert(before, p as int, t);
            vstd::seq_lib::to_multiset_build(tasks@.subrange(0, i as int), tasks@[i as int]);
            assert(out@ == before.insert(p as int, t));
            assert forall|a: int, b: int| 0 <= a < b < out@.len() implies by_date_le(
                #[trigger] out@[a],
                #[trigger] out@[b],
            ) by {
                if a < p && b == p {
                    assert(by_date_le(before[a], before[p - 1]) || a == p - 1);
                } else if a < p && b > p {
                    assert(out@[b] == before[b - 1]);
                } else if a == p {
                    assert(out@[b] == before[b - 1]);
                } else if a > p {
                    assert(out@[a] == before[a - 1]);
                    assert(out@[b] == before[b - 1]);
                }
            }
        }
        i = i + 1;
    }
    assert(tasks@.subrange(0, i as int) =~= tasks@);
    out
}

/// What the listing shows of one task.
#[derive(Debug)]
pub struct Row {
    pub order: usize,
    /// The due date as `YYYY-MM-DD`, or empty where the task has none.
    pub due: String,
    pub name: String,
    pub overdue: bool,
}

/// `row` shows `t` as of `today`.
pub open spec fn shows(row: Row, t: Task, today: Date) -> bool {
    &&& row.order == t.order
    &&& row.due@ == date_field(t.due_date)
    &&& row.name@ == t.name@
    &&& row.overdue == t.overdue_on(today)
}

pub open spec fn rows_show(rows: Seq<Row>, s: Seq<Task>, today: Date) -> bool {
    &&& rows.len() == s.len()
    &&& forall|i: int| 0 <= i < s.len() ==> shows(#[trigger] rows[i], s[i], today)
}

/// `rows` show the tasks of `s` sorted by due date and then by `order`.
pub open spec fn rows_show_by_date(rows: Seq<Row>, s: Seq<Task>, today: Date) -> bool {
    exists|sorted: Seq<Task>| is_by_date(sorted, s) && rows_show(rows, sorted, today)
}

/// One row for each task, in the order given.
pub fn rows_of(tasks: &Vec<Task>, today: Date) -> (r: Vec<Row>)
    requires
        all_valid(tasks@),
    ensures
        rows_show(r@, tasks@, today),
{
    let mut rows: Vec<Row> = Vec::new();
    let mut i: usize = 0;
    while i < tasks.len()
        invariant
            0 <= i <= tasks.len(),
            all_valid(tasks@),
            rows_show(rows@, tasks@.subrange(0, i as int), today),
        decreases tasks.len() - i,
    {
        let t = &tasks[i];
        let due = if t.due_date.is_max() {
            String::new()
        } else {
            format_date(&t.due_date)
        };
        rows.push(
            Row { order: t.order, due, name: t.name.clone(), overdue: t.is_overdue(today) },
        );
        i = i + 1;
    }
    assert(tasks@.subrange(0, i as int) =~= tasks@);
    rows
}

impl TodoList {
    /// Every due date is one chrono can represent, and `order` follows the
    /// positions.
    pub open spec fn wf(&self) -> bool {
        &&& numbered(self.tasks@)
        &&& all_valid(self.tasks@)
    }

    /// The list kept at `path`, read from `text`, the content of that file (empty
    /// where there is no such file). Each line that is not blank once trimmed
    /// is a task, numbered by its place among those lines.
    pub fn load(path: String, text: &str) -> (r: TodoList)
        ensures
            r.path == path,
            entries(r.tasks@) == entries_of_text(text@),
            r.wf(),
    {
        let cs = chars_of(text);
        let mut tasks: Vec<Task> = Vec::new();
        let mut start: usize = 0;
        let mut i: usize = 0;
        proof {
            assert(cs@.subrange(0, 0) =~= Seq::<char>::empty());
            assert(entries(tasks@) =~= Seq::empty());
        }
        while i < cs.len()
            invariant
                cs@ == text@,
                start <= i <= cs.len(),
                tasks.len() <= start,
                numbered(tasks@),
                all_valid(tasks@),
                split_lines(cs@.subrange(0, i as int)).last() == cs@.subrange(
                    start as int,
                    i as int,
                ),
                entries(tasks@) == entries_of_lines(
                    split_lines(cs@.subrange(0, i as int)).drop_last(),
                ),
            decreases cs.len() - i,
        {
            let ghost p = split_lines(cs@.subrange(0, i as int));
            proof {
                lemma_split_lines_len(cs@.subrange(0, i as int));
                assert(cs@.subrange(0, i + 1).drop_last() =~= cs@.subrange(0, i as int));
            }
            if cs[i] == '\n' {
                push_line(&mut tasks, &cs, start, i);
                proof {
                    assert(p.push(Seq::<char>::empty()).drop_last() =~= p);
                    assert(p =~= p.drop_last().push(p.last()));
                }
                start = i + 1;
                assert(cs@.subrange(start as int, i + 1) =~= Seq::<char>::empty());
            } else {
                proof {
                    let q = p.update(p.len() - 1, p.last().push(cs@[i as int]));
                    assert(q.drop_last() =~= p.drop_last());
                    assert(cs@.subrange(start as int, i + 1) =~= cs@.subrange(
                        start as int,
                        i as int,
                    ).push(cs@[i as int]));
                }
            }
            i = i + 1;
        }
        let ghost p = split_lines(cs@.subrange(0, i as int));
        push_line(&mut tasks, &cs, start, i);
        proof {
            lemma_split_lines_len(cs@.subrange(0, i as int));
            assert(p =~= p.drop_last().push(p.last()));
            assert(cs@.subrange(0, i as int) =~= cs@);
        }
        TodoList { path, tasks }
    }

    /// The text of the storage file for this list: a line `DATE,NAME` for each
    /// task, with an empty date field for a task without a due date. The
    /// caller writes it to `path`.
    pub fn save(&self) -> (r: String)
        requires
            all_valid(self.tasks@),
        ensures
            r@ == file_text(entries(self.tasks@)),
            forall|i: int|
                0 <= i < self.tasks@.len() && !(#[trigger] self.tasks@[i]).due_date.is_undated()
                    ==> date_chars_only(day_text(self.tasks@[i].due_date.days)),
    {
        let mut out: Vec<char> = Vec::new();
        let mut i: usize = 0;
        assert(entries(self.tasks@.subrange(0, 0)) =~= Seq::empty());
        while i < self.tasks.len()
            invariant
                0 <= i <= self.tasks.len(),
                all_valid(self.tasks@),
                out@ == file_text(entries(self.tasks@.subrange(0, i as int))),
                forall|j: int|
                    0 <= j < i && !(#[trigger] self.tasks@[j]).due_date.is_undated()
                        ==> date_chars_only(day_text(self.tasks@[j].due_date.days)),
            decreases self.tasks.len() - i,
        {
            let task = &self.tasks[i];
            let ghost before = out@;
            if !task.due_date.is_max() {
                let text = format_date(&task.due_date);
                let mut date_chars = chars_of(text.as_str());
                out.append(&mut date_chars);
            }
            out.push(',');
            let mut name_chars = chars_of(task.name.as_str());
            out.append(&mut name_chars);
            out.push('\n');
            proof {
                let es = entries(self.tasks@.subrange(0, i + 1));
                assert(es.drop_last() =~= entries(self.tasks@.subrange(0, i as int)));
                assert(es.last() == entry(self.tasks@[i as int]));
                assert(out@ =~= before + line_of(es.last()) + seq!['\n']);
            }
            i = i + 1;
        }
        assert(self.tasks@.subrange(0, i as int) =~= self.tasks@);
        string_of(&out)
    }

    /// Appends a task; its `order` is the new length.
    pub fn add(&mut self, name: String, due_date: Date)
        requires
            old(self).tasks.len() < usize::MAX,
        ensures
            final(self).path == old(self).path,
            final(self).tasks@ == added(old(self).tasks@, name, due_date),
            old(self).wf() && due_date.valid() ==> final(self).wf(),
    {
        let order = self.tasks.len() + 1;
        self.tasks.push(Task { name, due_date, order });
    }

    /// Removes the task at the 0-based `index`, renumbering the rest; an index
    /// past the end is refused and leaves the list as it was.
    pub fn remove(&mut self, index: usize) -> (r: Result<(), TodoError>)
        ensures
            final(self).path == old(self).path,
            index < old(self).tasks.len() ==> r is Ok && final(self).tasks@ == renumbered(
                old(self).tasks@.remove(index as int),
            ),
            index >= old(self).tasks.len() ==> r == Err::<(), TodoError>(
                TodoError::OutOfRange { len: old(self).tasks.len() },
            ) && *final(self) == *old(self),
            old(self).wf() ==> final(self).wf(),
    {
        if index >= self.tasks.len() {
            return Err(TodoError::OutOfRange { len: self.tasks.len() });
        }
        self.tasks.remove(index);
        self.update_order();
        Ok(())
    }

    /// Moves the task at the 0-based `from` to the 0-based `to`, `to` being read
    /// against the list once the task is taken out; either index past the end
    /// is refused and leaves the list as it was.
    pub fn reorder(&mut self, from: usize, to: usize) -> (r: Result<(), TodoError>)
        ensures
            final(self).path == old(self).path,
            from < old(self).tasks.len() && to < old(self).tasks.len() ==> r is Ok
                && final(self).tasks@ == renumbered(
                moved(old(self).tasks@, from as int, to as int),
            ),
            !(from < old(self).tasks.len() && to < old(self).tasks.len()) ==> r == Err::<
                (),
                TodoError,
            >(TodoError::OutOfRange { len: old(self).tasks.len() }) && *final(self) == *old(
                self,
            ),
            old(self).wf() ==> final(self).wf(),
    {
        if from >= self.tasks.len() || to >= self.tasks.len() {
            return Err(TodoError::OutOfRange { len: self.tasks.len() });
        }
        let ghost before = self.tasks@;
        let task = self.tasks.remove(from);
        self.tasks.insert(to, task);
        assert(self.tasks@ =~= moved(before, from as int, to as int));
        self.update_order();
        Ok(())
    }

    /// The rows that list the tasks in stored order, as of `today`.
    pub fn print(&self, today: Date) -> (r: Vec<Row>)
        requires
            self.wf(),
        ensures
            rows_show(r@, self.tasks@, today),
    {
        rows_of(&self.tasks, today)
    }

    /// The rows that list the tasks by due date, as of `today`: earlier dates
    /// first, tasks without a due date last, ties in stored order.
    pub fn print_by_due_date(&self, today: Date) -> (r: Vec<Row>)
        requires
            self.wf(),
        ensures
            rows_show_by_date(r@, self.tasks@, today),
    {
        let sorted = sorted_by_due_date(&self.tasks);
        proof {
            assert forall|i: int| 0 <= i < sorted@.len() implies (
            #[trigger] sorted@[i]).due_date.valid() by {
                broadcast use vstd::seq_lib::group_to_multiset_ensures;

                assert(sorted@.to_multiset().count(sorted@[i]) > 0);
                assert(self.tasks@.contains(sorted@[i]));
            }
        }
        rows_of(&sorted, today)
    }

    /// Sets each task's `order` to its 1-based position.
    fn update_order(&mut self)
        ensures
            final(self).path == old(self).path,
            final(self).tasks@ == renumbered(old(self).tasks@),
    {
        let ghost before = self.tasks@;
        let mut i: usize = 0;
        while i < self.tasks.len()
            invariant
                self.path == old(self).path,
                self.tasks@.len() == before.len(),
                0 <= i <= before.len(),
                forall|j: int| 0 <= j < i ==> #[trigger] self.tasks@[j] == renumbered(before)[j],
                forall|j: int| i <= j < before.len() ==> #[trigger] self.tasks@[j] == before[j],
            decreases before.len() - i,
        {
            self.tasks[i].order = i + 1;
            i = i + 1;
        }
        assert(self.tasks@ =~= renumbered(before));
    }
}

} // verus!
