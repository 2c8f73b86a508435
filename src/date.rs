//! Calendar dates as day numbers, and the calls into chrono that read and
//! write them.

use chrono::Datelike;
use vstd::prelude::*;

verus! {

/// Day number (days from the common era, 0001-01-01 being day 1) of the
/// earliest date chrono can represent.
pub const MIN_DAY: i32 = -95746129;

/// Day number of the latest date chrono can represent, `NaiveDate::MAX`.
/// It doubles as the sentinel for "no due date".
pub const MAX_DAY: i32 = 95745399;

/// The format of a due date in the storage file and on the command line.
pub open spec fn date_format() -> Seq<char> {
    seq!['%', 'Y', '-', '%', 'm', '-', '%', 'd']
}

fn date_format_text() -> (r: &'static str)
    ensures
        r@ == date_format(),
{
    proof {
        reveal_strlit("%Y-%m-%d");
    }
    let r = "%Y-%m-%d";
    assert(r@ =~= date_format());
    r
}

/// A calendar date, held as its day number from the common era.
#[derive(Clone, Copy, Debug, PartialEq, Eq, Structural)]
pub struct Date {
    pub days: i32,
}

/// What chrono reads from a text in the format `%Y-%m-%d`, as a day number.
pub uninterp spec fn parsed_day(text: Seq<char>) -> Option<i32>;

/// What chrono writes for a day number in the format `%Y-%m-%d`.
pub uninterp spec fn day_text(days: i32) -> Seq<char>;

/// The characters a date written in the format `%Y-%m-%d` is made of.
pub open spec fn is_date_char(c: char) -> bool {
    ('0' <= c && c <= '9') || c == '-' || c == '+'
}

impl Date {
    /// A date that chrono can represent.
    pub open spec fn valid(self) -> bool {
        MIN_DAY <= self.days && self.days <= MAX_DAY
    }

    /// The sentinel that stands for a missing or unreadable due date.
    pub open spec fn is_undated(self) -> bool {
        self.days == MAX_DAY
    }

    /// The sentinel: the latest representable date.
    pub fn max() -> (r: Date)
        ensures
            r.days == MAX_DAY,
            r.valid(),
    {
        Date { days: MAX_DAY }
    }

    /// The date with the given day number, if chrono can represent it.
    pub fn from_days(days: i32) -> (r: Option<Date>)
        ensures
            r == (if MIN_DAY <= days && days <= MAX_DAY {
                Some(Date { days })
            } else {
                None::<Date>
            }),
    {
        if MIN_DAY <= days && days <= MAX_DAY {
            Some(Date { days })
        } else {
            None
        }
    }

    /// Whether this is the sentinel for "no due date".
    pub fn is_max(&self) -> (r: bool)
        ensures
            r == self.is_undated(),
    {
        self.days == MAX_DAY
    }
}

/// Relies on chrono's `NaiveDate::parse_from_str` (and `Datelike::num_days_from_ce`
/// to read the result back as a day number): the date that `text` spells in
/// `format`, if it spells one. chrono's parser reads the year first, so an
/// empty text is refused.
#[verifier::external_body]
fn chrono_parse_day(text: &str, format: &str) -> (r: Option<i32>)
    requires
        format@ == date_format(),
    ensures
        r == parsed_day(text@),
        r matches Some(d) ==> MIN_DAY <= d && d <= MAX_DAY,
        text@.len() == 0 ==> r is None,
{
    match chrono::NaiveDate::parse_from_str(text, format) {
        Ok(date) => Some(date.num_days_from_ce()),
        Err(_) => None,
    }
}

/// Relies on chrono's `NaiveDate::from_num_days_from_ce_opt`, which accepts every
/// day number from `MIN_DAY` to `MAX_DAY`, and on `NaiveDate::format`: the text of
/// that date in `format`, which writes only digits, signs and dashes.
#[verifier::external_body]
fn chrono_format_day(days: i32, format: &str) -> (r: String)
    requires
        MIN_DAY <= days && days <= MAX_DAY,
        format@ == date_format(),
    ensures
        r@ == day_text(days),
        forall|i: int| 0 <= i < r@.len() ==> is_date_char(#[trigger] r@[i]),
{
    chrono::NaiveDate::from_num_days_from_ce_opt(days).unwrap().format(format).to_string()
}

/// The date that `text` spells as `YYYY-MM-DD`, or the sentinel when it spells
/// none (an empty text included).
pub fn parse_date(text: &str) -> (r: Date)
    ensures
        r.valid(),
        r == date_of_text(text@),
{
    match chrono_parse_day(text, date_format_text()) {
        Some(days) => Date { days },
        None => Date::max(),
    }
}

/// The due date read from a date field: the sentinel where the field is empty
/// or chrono reads no date from it, else the date read.
pub open spec fn date_of_text(text: Seq<char>) -> Date {
    if text.len() == 0 {
        Date { days: MAX_DAY }
    } else {
        match parsed_day(text) {
            Some(days) => Date { days },
            None => Date { days: MAX_DAY },
        }
    }
}

/// The text of a valid date as `YYYY-MM-DD`.
pub fn format_date(date: &Date) -> (r: String)
    requires
        date.valid(),
    ensures
        r@ == day_text(date.days),
        forall|i: int| 0 <= i < r@.len() ==> is_date_char(#[trigger] r@[i]),
{
    chrono_format_day(date.days, date_format_text())
}

} // verus!
