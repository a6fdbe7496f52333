//! Calendar dates and clock times, as plain numbers with their validity.

use crate::text::text_view;
use chrono::{Datelike, NaiveDate, NaiveTime, Timelike};
use std::fmt::Write;
use vstd::prelude::*;

verus! {

/// The first year a [`Date`] can lie in.
pub const MIN_YEAR: i32 = -262143;

/// The last year a [`Date`] can lie in.
pub const MAX_YEAR: i32 = 262142;

/// Leap years of the proleptic Gregorian calendar.
pub open spec fn is_leap_year(year: int) -> bool {
    year % 4 == 0 && (year % 100 != 0 || year % 400 == 0)
}

/// Number of days of `month` (1 to 12) in `year`.
pub open spec fn days_in_month(year: int, month: int) -> int {
    if month == 2 {
        if is_leap_year(year) {
            29
        } else {
            28
        }
    } else if month == 4 || month == 6 || month == 9 || month == 11 {
        30
    } else {
        31
    }
}

/// Whether `year`, `month`, `day` name a day of the calendar that a [`Date`] can hold.
pub open spec fn is_calendar_day(year: int, month: int, day: int) -> bool {
    &&& MIN_YEAR <= year <= MAX_YEAR
    &&& 1 <= month <= 12
    &&& 1 <= day <= days_in_month(year, month)
}

/// A day of the proleptic Gregorian calendar.
#[derive(Clone, Copy, Debug, PartialEq, Eq, Structural)]
pub struct Date {
    year: i32,
    month: u32,
    day: u32,
}

impl Date {
    #[verifier::type_invariant]
    spec fn on_calendar(self) -> bool {
        is_calendar_day(self.year as int, self.month as int, self.day as int)
    }

    /// The year of this date.
    pub closed spec fn spec_year(&self) -> i32 {
        self.year
    }

    /// The month of this date, from 1 for January.
    pub closed spec fn spec_month(&self) -> u32 {
        self.month
    }

    /// The day of the month of this date, from 1.
    pub closed spec fn spec_day(&self) -> u32 {
        self.day
    }

    /// The date's year, month and day name a day of the calendar. Every date
    /// that executable code holds is valid.
    pub open spec fn is_valid(self) -> bool {
        is_calendar_day(self.year() as int, self.month() as int, self.day() as int)
    }

    /// The date with the given fields.
    pub closed spec fn of(year: i32, month: u32, day: u32) -> Date {
        Date { year, month, day }
    }

    /// The date of the given year, month and day, if there is such a day.
    pub fn from_ymd_opt(year: i32, month: u32, day: u32) -> (r: Option<Date>)
        ensures
            r is Some <==> is_calendar_day(year as int, month as int, day as int),
            r matches Some(d) ==> d == Date::of(year, month, day) && d.is_valid(),
            r matches Some(d) ==> d.year() == year && d.month() == month && d.day() == day,
    {
        if year < MIN_YEAR || year > MAX_YEAR || month < 1 || month > 12 || day < 1 {
            return None;
        }
        if day > month_length(year, month) {
            return None;
        }
        Some(Date { year, month, day })
    }

    /// The year of this date.
    #[verifier::when_used_as_spec(spec_year)]
    pub fn year(&self) -> (r: i32)
        ensures
            r == self.year(),
            self.is_valid(),
    {
        proof {
            use_type_invariant(self);
        }
        self.year
    }

    /// The month of this date, from 1 for January.
    #[verifier::when_used_as_spec(spec_month)]
    pub fn month(&self) -> (r: u32)
        ensures
            r == self.month(),
            self.is_valid(),
    {
        proof {
            use_type_invariant(self);
        }
        self.month
    }

    /// The day of the month of this date, from 1.
    #[verifier::when_used_as_spec(spec_day)]
    pub fn day(&self) -> (r: u32)
        ensures
            r == self.day(),
            self.is_valid(),
    {
        proof {
            use_type_invariant(self);
        }
        self.day
    }

    /// Whether this date comes strictly before `other`.
    pub open spec fn precedes(self, other: Date) -> bool {
        ||| self.year() < other.year()
        ||| self.year() == other.year() && self.month() < other.month()
        ||| self.year() == other.year() && self.month() == other.month() && self.day()
            < other.day()
    }

    /// The day after this one; `None` after the last day of [`MAX_YEAR`].
    pub open spec fn successor(self) -> Option<Date> {
        if self.day() < days_in_month(self.year() as int, self.month() as int) {
            Some(Date::of(self.year(), self.month(), (self.day() + 1) as u32))
        } else if self.month() < 12 {
            Some(Date::of(self.year(), (self.month() + 1) as u32, 1))
        } else if self.year() < MAX_YEAR {
            Some(Date::of((self.year() + 1) as i32, 1, 1))
        } else {
            None
        }
    }

    /// Whether this date comes strictly before `other`.
    pub fn is_before(&self, other: &Date) -> (r: bool)
        ensures
            r == self.precedes(*other),
    {
        self.year < other.year || (self.year == other.year && (self.month < other.month || (
        self.month == other.month && self.day < other.day)))
    }

    /// The day after this one, if the calendar has one.
    pub fn succ_opt(&self) -> (r: Option<Date>)
        ensures
            r == self.successor(),
            r matches Some(d) ==> d.is_valid(),
    {
        proof {
            use_type_invariant(self);
        }
        let next = next_date(self);
        proof {
            if let Some(d) = next {
                use_type_invariant(&d);
            }
        }
        next
    }
}

/// The fields of [`Date::of`] are the ones it was given.
pub proof fn lemma_date_of(year: i32, month: u32, day: u32)
    ensures
        Date::of(year, month, day).year() == year,
        Date::of(year, month, day).month() == month,
        Date::of(year, month, day).day() == day,
{
}

/// Two dates with the same year, month and day are the same date.
pub proof fn lemma_date_by_fields(a: Date, b: Date)
    requires
        a.year() == b.year(),
        a.month() == b.month(),
        a.day() == b.day(),
    ensures
        a == b,
{
}

/// Calls chrono's `NaiveDate::succ_opt` on the same calendar day: it gives
/// the next calendar date, and `None` for the last date chrono represents,
/// December 31 of [`MAX_YEAR`].
#[verifier::external_body]
fn next_date(date: &Date) -> (r: Option<Date>)
    requires
        date.is_valid(),
    ensures
        r == date.successor(),
{
    let next = NaiveDate::from_ymd_opt(date.year, date.month, date.day)?.succ_opt()?;
    Some(Date { year: next.year(), month: next.month(), day: next.day() })
}

/// The days from `start` up to, but not including, `end`, in calendar order.
/// It is empty unless `start` comes before `end`.
pub open spec fn days_between(start: Date, end: Date) -> Seq<Date>
    decreases end.year() - start.year(), 12 - start.month(), 31 - start.day(),
    when start.is_valid() && end.is_valid()
{
    if start.precedes(end) {
        seq![start] + days_between(start.successor()->0, end)
    } else {
        Seq::empty()
    }
}

/// The day after a valid date that is not the last one is valid, and no
/// date lies strictly between a date and the day after it.
pub proof fn lemma_successor_is_next(date: Date, later: Date)
    requires
        date.is_valid(),
        later.is_valid(),
        date.precedes(later),
    ensures
        date.successor() is Some,
        date.successor()->0.is_valid(),
        date.precedes(date.successor()->0),
        date.successor()->0 == later || date.successor()->0.precedes(later),
{
    let next = date.successor()->0;
    if next.year() == later.year() && next.month() == later.month() && next.day() == later.day() {
        lemma_date_by_fields(next, later);
    }
}

/// Every day of a range lies in it: on or after `start` and before `end`.
pub proof fn lemma_days_between_bounds(start: Date, end: Date, i: int)
    requires
        start.is_valid(),
        end.is_valid(),
        0 <= i < days_between(start, end).len(),
    ensures
        days_between(start, end)[i].is_valid(),
        days_between(start, end)[i] == start || start.precedes(days_between(start, end)[i]),
        days_between(start, end)[i].precedes(end),
    decreases i,
{
    lemma_successor_is_next(start, end);
    if i > 0 {
        lemma_days_between_bounds(start.successor()->0, end, i - 1);
    }
}

/// A range holds every valid date on or after `start` and before `end`.
pub proof fn lemma_days_between_complete(start: Date, end: Date, date: Date)
    requires
        start.is_valid(),
        end.is_valid(),
        date.is_valid(),
        date == start || start.precedes(date),
        date.precedes(end),
    ensures
        days_between(start, end).contains(date),
    decreases end.year() - start.year(), 12 - start.month(), 31 - start.day(),
{
    let days = days_between(start, end);
    if date == start {
        assert(days[0] == date);
    } else {
        lemma_successor_is_next(start, date);
        lemma_successor_is_next(start, end);
        let next = start.successor()->0;
        lemma_days_between_complete(next, end, date);
        let rest = days_between(next, end);
        let i = choose|i: int| 0 <= i < rest.len() && rest[i] == date;
        assert(days[i + 1] == date);
    }
}

/// The days of a range come in calendar order, so none occurs twice.
pub proof fn lemma_days_between_ordered(start: Date, end: Date, i: int, j: int)
    requires
        start.is_valid(),
        end.is_valid(),
        0 <= i < j < days_between(start, end).len(),
    ensures
        days_between(start, end)[i].precedes(days_between(start, end)[j]),
    decreases i,
{
    lemma_successor_is_next(start, end);
    let next = start.successor()->0;
    if i == 0 {
        lemma_days_between_bounds(next, end, j - 1);
    } else {
        lemma_days_between_ordered(next, end, i - 1, j - 1);
    }
}

/// The days from `start` up to, but not including, `end`.
pub fn days_in_range(start: &Date, end: &Date) -> (days: Vec<Date>)
    ensures
        days@ == days_between(*start, *end),
{
    proof {
        use_type_invariant(start);
        use_type_invariant(end);
    }
    let mut days: Vec<Date> = Vec::new();
    let mut day = *start;
    while day.is_before(end)
        invariant
            day.is_valid(),
            end.is_valid(),
            days@ + days_between(day, *end) == days_between(*start, *end),
        decreases end.year() - day.year(), 12 - day.month(), 31 - day.day(),
    {
        proof {
            lemma_successor_is_next(day, *end);
            assert(days@.push(day) + days_between(day.successor()->0, *end) == days@
                + days_between(day, *end));
        }
        days.push(day);
        day = next_date(&day).unwrap();
    }
    days
}

/// Number of days of the given month, computed.
fn month_length(year: i32, month: u32) -> (r: u32)
    requires
        1 <= month <= 12,
    ensures
        r == days_in_month(year as int, month as int),
{
    if month == 2 {
        if year % 4 == 0 && (year % 100 != 0 || year % 400 == 0) {
            29
        } else {
            28
        }
    } else if month == 4 || month == 6 || month == 9 || month == 11 {
        30
    } else {
        31
    }
}

/// A time of day, to the second.
#[derive(Clone, Copy, Debug, PartialEq, Eq, Structural)]
pub struct Time {
    hour: u32,
    minute: u32,
    second: u32,
}

/// Whether `hour`, `minute`, `second` name a second of the day.
pub open spec fn is_clock_time(hour: int, minute: int, second: int) -> bool {
    0 <= hour < 24 && 0 <= minute < 60 && 0 <= second < 60
}

impl Time {
    #[verifier::type_invariant]
    spec fn on_clock(self) -> bool {
        is_clock_time(self.hour as int, self.minute as int, self.second as int)
    }

    /// The hour of this time, from 0 to 23.
    pub closed spec fn spec_hour(&self) -> u32 {
        self.hour
    }

    /// The minute of this time, from 0 to 59.
    pub closed spec fn spec_minute(&self) -> u32 {
        self.minute
    }

    /// The second of this time, from 0 to 59.
    pub closed spec fn spec_second(&self) -> u32 {
        self.second
    }

    /// The time with the given fields.
    pub closed spec fn of(hour: u32, minute: u32, second: u32) -> Time {
        Time { hour, minute, second }
    }

    /// The first second of the day, 00:00:00.
    pub open spec fn start_of_day() -> Time {
        Time::of(0, 0, 0)
    }

    /// The time at the given hour, minute and second, if the day has it.
    pub fn from_hms_opt(hour: u32, minute: u32, second: u32) -> (r: Option<Time>)
        ensures
            r is Some <==> is_clock_time(hour as int, minute as int, second as int),
            r matches Some(t) ==> t == Time::of(hour, minute, second),
            r matches Some(t) ==> t.hour() == hour && t.minute() == minute && t.second() == second,
    {
        if hour < 24 && minute < 60 && second < 60 {
            Some(Time { hour, minute, second })
        } else {
            None
        }
    }

    /// Midnight, the time that stands in where none could be read.
    pub fn midnight() -> (r: Time)
        ensures
            r == Time::start_of_day(),
            r.hour() == 0 && r.minute() == 0 && r.second() == 0,
    {
        Time { hour: 0, minute: 0, second: 0 }
    }

    /// The hour of this time, from 0 to 23.
    #[verifier::when_used_as_spec(spec_hour)]
    pub fn hour(&self) -> (r: u32)
        ensures
            r == self.hour(),
            r < 24,
    {
        proof {
            use_type_invariant(self);
        }
        self.hour
    }

    /// The minute of this time, from 0 to 59.
    #[verifier::when_used_as_spec(spec_minute)]
    pub fn minute(&self) -> (r: u32)
        ensures
            r == self.minute(),
            r < 60,
    {
        proof {
            use_type_invariant(self);
        }
        self.minute
    }

    /// The second of this time, from 0 to 59.
    #[verifier::when_used_as_spec(spec_second)]
    pub fn second(&self) -> (r: u32)
        ensures
            r == self.second(),
            r < 60,
    {
        proof {
            use_type_invariant(self);
        }
        self.second
    }
}

/// A day together with a time of that day.
#[derive(Clone, Copy, Debug, PartialEq, Eq, Structural)]
pub struct DateTime {
    pub date: Date,
    pub time: Time,
}

impl Date {
    /// This day at the given time.
    pub fn and_time(&self, time: Time) -> (r: DateTime)
        ensures
            r == (DateTime { date: *self, time }),
    {
        DateTime { date: *self, time }
    }
}

/// The date that chrono reads out of `text` under the strftime `layout`, if
/// it reads one.
pub uninterp spec fn date_in_text(text: Seq<char>, layout: Seq<char>) -> Option<Date>;

/// The time of day that chrono reads out of `text` under the strftime
/// `layout`, if it reads one.
pub uninterp spec fn time_in_text(text: Seq<char>, layout: Seq<char>) -> Option<Time>;

/// Calls chrono's `NaiveDate::parse_from_str`. The result depends on the two
/// texts alone.
#[verifier::external_body]
pub(crate) fn read_date(text: &str, layout: &str) -> (r: Option<Date>)
    ensures
        r == date_in_text(text@, layout@),
{
    let naive = NaiveDate::parse_from_str(text, layout).ok()?;
    Some(Date { year: naive.year(), month: naive.month(), day: naive.day() })
}

/// Calls chrono's `NaiveTime::parse_from_str` and keeps hour, minute and
/// second. The result depends on the two texts alone.
#[verifier::external_body]
pub(crate) fn read_time(text: &str, layout: &str) -> (r: Option<Time>)
    ensures
        r == time_in_text(text@, layout@),
{
    let naive = NaiveTime::parse_from_str(text, layout).ok()?;
    Some(Time { hour: naive.hour(), minute: naive.minute(), second: naive.second() })
}

/// The text that chrono writes for `date` under the strftime `layout`;
/// `None` where chrono cannot write the date under that layout.
pub uninterp spec fn date_as_text(date: Date, layout: Seq<char>) -> Option<Seq<char>>;

impl Date {
    /// This day written under the strftime `layout`, if it can be.
    pub fn format(&self, layout: &str) -> (r: Option<String>)
        ensures
            text_view(r) == date_as_text(*self, layout@),
    {
        proof {
            use_type_invariant(self);
        }
        write_date(self, layout)
    }
}

/// Calls chrono's `NaiveDate::format` on the same calendar day and writes
/// out what it gives. The result depends on the date and the layout alone.
#[verifier::external_body]
fn write_date(date: &Date, layout: &str) -> (r: Option<String>)
    requires
        date.is_valid(),
    ensures
        text_view(r) == date_as_text(*date, layout@),
{
    let naive = NaiveDate::from_ymd_opt(date.year, date.month, date.day)?;
    let mut text = String::new();
    write!(text, "{}", naive.format(layout)).ok()?;
    Some(text)
}

} // verus!
