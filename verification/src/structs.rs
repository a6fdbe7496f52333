//! The records that a scan produces, and the schedule that gathers them.

use crate::calendar::{Date, DateTime, Time};
use crate::pattern::{pattern_compiles, Matcher, PatternError};
use vstd::prelude::*;
use vstd::string::StringExecFns;

verus! {

/// How a field is written: the regular expression that finds it in a text
/// and the strftime layout that reads its value.
#[derive(Debug, Clone, Copy)]
pub struct Format {
    pub re: &'static str,
    pub fmt: &'static str,
}

/// The pattern of a time of day on the twelve-hour clock, such as `09:30 AM`.
pub const TIME_RE: &'static str = "[0-9]{2}:[0-9]{2} [AP]M";

/// The layout of a time of day on the twelve-hour clock.
pub const TIME_LAYOUT: &'static str = "%I:%M %p";

/// The pattern of a day, such as `2024-06-19`.
pub const DATE_RE: &'static str = "[0-9]{4}-[0-9]{2}-[0-9]{2}";

/// The layout of a day.
pub const DATE_LAYOUT: &'static str = "%Y-%m-%d";

/// The pattern of a day followed by a time of that day.
pub const DATETIME_RE: &'static str = "[0-9]{4}-[0-9]{2}-[0-9]{2} [0-9]{2}:[0-9]{2} [AP]M";

/// The layout of a day followed by a time of that day.
pub const DATETIME_LAYOUT: &'static str = "%Y-%m-%d %I:%M %p";

impl Format {
    /// How a time of day is written.
    pub fn time() -> (r: Format)
        ensures
            r.re@ == TIME_RE@,
            r.fmt@ == TIME_LAYOUT@,
    {
        Format { re: TIME_RE, fmt: TIME_LAYOUT }
    }

    /// How a day is written.
    pub fn date() -> (r: Format)
        ensures
            r.re@ == DATE_RE@,
            r.fmt@ == DATE_LAYOUT@,
    {
        Format { re: DATE_RE, fmt: DATE_LAYOUT }
    }

    /// How a day with a time of that day is written.
    pub fn datetime() -> (r: Format)
        ensures
            r.re@ == DATETIME_RE@,
            r.fmt@ == DATETIME_LAYOUT@,
    {
        Format { re: DATETIME_RE, fmt: DATETIME_LAYOUT }
    }
}

/// The four matchers of the annotation grammar.
pub struct AllRegexes {
    /// Finds the day by which a task is due.
    pub deadline: Matcher,
    /// Finds the time at which something starts or was written.
    pub at_time: Matcher,
    /// Finds the time at which an event ends.
    pub end: Matcher,
    /// Finds the mark of an event that takes the whole day.
    pub all_day: Matcher,
}

/// The patterns of an [`AllRegexes`].
pub ghost struct Grammar {
    pub deadline: Seq<char>,
    pub at_time: Seq<char>,
    pub end: Seq<char>,
    pub all_day: Seq<char>,
}

impl View for AllRegexes {
    type V = Grammar;

    open spec fn view(&self) -> Grammar {
        Grammar {
            deadline: self.deadline@,
            at_time: self.at_time@,
            end: self.end@,
            all_day: self.all_day@,
        }
    }
}

/// The grammar of the journal's annotations: a deadline is `DEADLINE: ` and a
/// day, a start or writing time is `AT: ` and a time, an end is `END: ` and a
/// time, and `ALL DAY` stands alone.
pub open spec fn annotation_grammar() -> Grammar {
    Grammar {
        deadline: "DEADLINE: "@ + DATE_RE@,
        at_time: "AT: "@ + TIME_RE@,
        end: "END: "@ + TIME_RE@,
        all_day: "ALL DAY"@,
    }
}

/// Whether the regex crate compiles all four patterns of `grammar`.
pub open spec fn grammar_compiles(grammar: Grammar) -> bool {
    &&& pattern_compiles(grammar.deadline)
    &&& pattern_compiles(grammar.at_time)
    &&& pattern_compiles(grammar.end)
    &&& pattern_compiles(grammar.all_day)
}

/// The first pattern of `grammar` that the regex crate does not compile, in
/// the order deadline, time, end, whole day; `None` where all four compile.
pub open spec fn first_refused(grammar: Grammar) -> Option<Seq<char>> {
    if !pattern_compiles(grammar.deadline) {
        Some(grammar.deadline)
    } else if !pattern_compiles(grammar.at_time) {
        Some(grammar.at_time)
    } else if !pattern_compiles(grammar.end) {
        Some(grammar.end)
    } else if !pattern_compiles(grammar.all_day) {
        Some(grammar.all_day)
    } else {
        None
    }
}

/// `prefix` followed by `body`, compiled.
fn compile_with_prefix(prefix: &str, body: &str) -> (r: Result<Matcher, PatternError>)
    ensures
        r is Ok <==> pattern_compiles(prefix@ + body@),
        r matches Ok(matcher) ==> matcher@ == prefix@ + body@,
        r matches Err(e) ==> e.pattern@ == prefix@ + body@,
{
    let mut pattern = String::from_str(prefix);
    pattern.append(body);
    Matcher::new(pattern.as_str())
}

/// Compiles the matchers of the annotation grammar. It succeeds exactly
/// where the regex crate compiles all four patterns, and then gives the
/// matchers of the grammar. Else the error names the first pattern that the
/// regex crate refused.
pub fn init_regexes() -> (r: Result<AllRegexes, PatternError>)
    ensures
        r is Ok <==> grammar_compiles(annotation_grammar()),
        r matches Ok(regexes) ==> regexes@ == annotation_grammar(),
        r matches Err(e) ==> first_refused(annotation_grammar()) == Some(e.pattern@),
{
    let deadline = compile_with_prefix("DEADLINE: ", Format::date().re)?;
    let at_time = compile_with_prefix("AT: ", Format::time().re)?;
    let end = compile_with_prefix("END: ", Format::time().re)?;
    let all_day = Matcher::new("ALL DAY")?;
    Ok(AllRegexes { deadline, at_time, end, all_day })
}

/// One end of an event: a day, and a time of that day unless the event
/// takes the whole day.
#[derive(Debug, Clone, Copy, PartialEq, Eq)]
pub struct TimeInterval(pub (Date, Option<Time>));

impl TimeInterval {
    /// The day of this end.
    pub open spec fn spec_date(&self) -> Date {
        (self.0).0
    }

    /// The time of this end, if it has one.
    pub open spec fn spec_time(&self) -> Option<Time> {
        (self.0).1
    }

    #[verifier::when_used_as_spec(spec_date)]
    pub fn date(&self) -> (r: Date)
        ensures
            r == self.date(),
    {
        (self.0).0
    }

    #[verifier::when_used_as_spec(spec_time)]
    pub fn time(&self) -> (r: Option<Time>)
        ensures
            r == self.time(),
    {
        (self.0).1
    }
}

/// A calendar event, from its start to its end.
#[derive(Debug, Clone, Copy, PartialEq, Eq)]
pub struct CalEvent {
    pub start_time: TimeInterval,
    pub end_time: TimeInterval,
}

/// A remark with the moment it was written.
#[derive(Debug, Clone, PartialEq, Eq)]
pub struct Comment {
    pub time_of_write: DateTime,
    pub comment: String,
}

/// A [`Comment`] with its text as a sequence of characters.
pub ghost struct CommentView {
    pub time_of_write: DateTime,
    pub comment: Seq<char>,
}

impl View for Comment {
    type V = CommentView;

    open spec fn view(&self) -> CommentView {
        CommentView { time_of_write: self.time_of_write, comment: self.comment@ }
    }
}

/// A task that is still to be done.
#[derive(Debug, Clone, PartialEq, Eq)]
pub struct ToDo {
    pub date: Date,
    pub time_of_write: Option<Time>,
    pub todo: String,
    pub deadline: Option<Date>,
}

/// A [`ToDo`] with its text as a sequence of characters.
pub ghost struct ToDoView {
    pub date: Date,
    pub time_of_write: Option<Time>,
    pub todo: Seq<char>,
    pub deadline: Option<Date>,
}

impl View for ToDo {
    type V = ToDoView;

    open spec fn view(&self) -> ToDoView {
        ToDoView {
            date: self.date,
            time_of_write: self.time_of_write,
            todo: self.todo@,
            deadline: self.deadline,
        }
    }
}

/// Whether entry `i` of `entries` carries `title`.
spec fn holds(entries: Seq<(String, CalEvent)>, title: Seq<char>, i: int) -> bool {
    0 <= i < entries.len() && entries[i].0@ == title
}

/// The titles that occur in `entries`.
spec fn titles_among(entries: Seq<(String, CalEvent)>) -> Set<Seq<char>> {
    Set::new(|title: Seq<char>| exists|i: int| holds(entries, title, i))
}

/// Entries with different titles have as many titles as there are entries.
proof fn lemma_count(entries: Seq<(String, CalEvent)>)
    requires
        titles_differ(entries),
    ensures
        titles_among(entries).finite(),
        titles_among(entries).len() == entries.len(),
    decreases entries.len(),
{
    if entries.len() == 0 {
        assert(titles_among(entries) =~= Set::<Seq<char>>::empty());
    } else {
        let front = entries.drop_last();
        let last = entries.last().0@;
        lemma_count(front);
        assert forall|title: Seq<char>|
            titles_among(entries).contains(title) <==> titles_among(front).insert(last).contains(
                title,
            ) by {
            if exists|i: int| holds(entries, title, i) {
                let i = choose|i: int| holds(entries, title, i);
                if i < front.len() {
                    assert(holds(front, title, i));
                }
            }
            if exists|i: int| holds(front, title, i) {
                let i = choose|i: int| holds(front, title, i);
                assert(holds(entries, title, i));
            }
            if title == last {
                assert(holds(entries, title, entries.len() - 1));
            }
        }
        assert(titles_among(entries) =~= titles_among(front).insert(last));
        if titles_among(front).contains(last) {
            let i = choose|i: int| holds(front, last, i);
            assert(entries[i].0@ == entries[entries.len() - 1].0@);
        }
    }
}

/// Whether no two of `entries` carry the same title.
spec fn titles_differ(entries: Seq<(String, CalEvent)>) -> bool {
    forall|i: int, j: int| 0 <= i < j < entries.len() ==> entries[i].0@ != entries[j].0@
}

/// The map that `entries` stand for: each title to the event of the entry
/// that carries it.
spec fn as_map(entries: Seq<(String, CalEvent)>) -> Map<Seq<char>, CalEvent> {
    Map::new(
        |title: Seq<char>| exists|i: int| holds(entries, title, i),
        |title: Seq<char>| entries[choose|i: int| holds(entries, title, i)].1,
    )
}

/// Putting an entry at `at` is inserting into the map, where `at` is the
/// place of the entry that carries the title, or the end of the entries if
/// none carries it.
proof fn lemma_put(
    before: Seq<(String, CalEvent)>,
    after: Seq<(String, CalEvent)>,
    at: int,
    key: Seq<char>,
    event: CalEvent,
)
    requires
        titles_differ(before),
        0 <= at <= before.len(),
        at < before.len() ==> after.len() == before.len() && before[at].0@ == key,
        at == before.len() ==> after.len() == before.len() + 1 && forall|k: int|
            !holds(before, key, k),
        forall|k: int| 0 <= k < before.len() && k != at ==> after[k] == before[k],
        after[at].0@ == key,
        after[at].1 == event,
    ensures
        titles_differ(after),
        as_map(after) == as_map(before).insert(key, event),
{
    assert forall|t: Seq<char>, k: int| holds(after, t, k) <==> (k == at && t == key) || (k != at
        && holds(before, t, k)) by {}
    assert forall|k: int| 0 <= k < before.len() && k != at implies before[k].0@ != key by {
        if at == before.len() {
            assert(!holds(before, key, k));
        }
    }
    let target = as_map(before).insert(key, event);
    assert forall|t: Seq<char>| #[trigger] as_map(after).contains_key(t) <==> target.contains_key(
        t,
    ) by {
        if exists|k: int| holds(after, t, k) {
            let k = choose|k: int| holds(after, t, k);
            if k != at {
                assert(holds(before, t, k));
            }
        }
        if exists|k: int| holds(before, t, k) {
            let k = choose|k: int| holds(before, t, k);
            if k != at {
                assert(holds(after, t, k));
            }
        }
        if t == key {
            assert(holds(after, t, at));
        }
    }
    assert forall|t: Seq<char>| #[trigger] as_map(after).contains_key(t) implies as_map(after)[t]
        == target[t] by {
        let k = choose|k: int| holds(after, t, k);
        if t != key {
            assert(holds(before, t, k));
            let k0 = choose|k: int| holds(before, t, k);
            assert(holds(after, t, k0));
        }
    }
    assert(as_map(after) =~= target);
}

/// The events of a schedule, each under its title. No title occurs twice.
/// Its view is the map from titles to events.
///
/// The entries lie in a vector, in the order in which their titles first
/// came: vstd's model of `HashMap` does not reach keys of type `String`, and
/// here looking an event up, putting one in and walking them all are
/// verified.
#[derive(Debug)]
pub struct EventMap {
    entries: Vec<(String, CalEvent)>,
}

impl View for EventMap {
    type V = Map<Seq<char>, CalEvent>;

    closed spec fn view(&self) -> Map<Seq<char>, CalEvent> {
        as_map(self.entries@)
    }
}

impl EventMap {
    #[verifier::type_invariant]
    spec fn no_title_twice(self) -> bool {
        titles_differ(self.entries@)
    }

    /// A map without events.
    pub fn new() -> (r: EventMap)
        ensures
            r@ == Map::<Seq<char>, CalEvent>::empty(),
    {
        let r = EventMap { entries: Vec::new() };
        assert(r@ =~= Map::<Seq<char>, CalEvent>::empty());
        r
    }

    /// The number of events.
    pub fn len(&self) -> (r: usize)
        ensures
            self@.dom().finite(),
            r == self@.len(),
    {
        proof {
            use_type_invariant(self);
            lemma_count(self.entries@);
            assert(self@.dom() =~= titles_among(self.entries@));
        }
        self.entries.len()
    }

    /// The titles of the events, each once, in no order that callers can
    /// count on.
    pub fn titles(&self) -> (r: Vec<String>)
        ensures
            forall|i: int| 0 <= i < r@.len() ==> self@.contains_key(#[trigger] r@[i]@),
            forall|title: Seq<char>|
                self@.contains_key(title) ==> exists|i: int|
                    0 <= i < r@.len() && #[trigger] r@[i]@ == title,
            forall|i: int, j: int| 0 <= i < j < r@.len() ==> r@[i]@ != r@[j]@,
    {
        proof {
            use_type_invariant(self);
        }
        let mut titles: Vec<String> = Vec::new();
        let mut i: usize = 0;
        while i < self.entries.len()
            invariant
                i <= self.entries.len(),
                titles@.len() == i,
                forall|k: int| 0 <= k < i ==> (#[trigger] titles@[k])@ == self.entries@[k].0@,
            decreases self.entries.len() - i,
        {
            titles.push(self.entries[i].0.clone());
            i += 1;
        }
        proof {
            assert forall|k: int| 0 <= k < titles@.len() implies self@.contains_key(
                #[trigger] titles@[k]@,
            ) by {
                assert(holds(self.entries@, titles@[k]@, k));
            }
            assert forall|title: Seq<char>| self@.contains_key(title) implies exists|k: int|
                0 <= k < titles@.len() && #[trigger] titles@[k]@ == title by {
                let k = choose|k: int| holds(self.entries@, title, k);
                assert(titles@[k]@ == title);
            }
        }
        titles
    }

    /// Where `title` stands among the entries.
    fn position(&self, title: &String) -> (r: Option<usize>)
        ensures
            match r {
                Some(i) => holds(self.entries@, title@, i as int),
                None => forall|i: int| !holds(self.entries@, title@, i),
            },
    {
        let mut i: usize = 0;
        while i < self.entries.len()
            invariant
                i <= self.entries.len(),
                forall|k: int| 0 <= k < i ==> !holds(self.entries@, title@, k),
            decreases self.entries.len() - i,
        {
            if self.entries[i].0 == *title {
                return Some(i);
            }
            i += 1;
        }
        None
    }

    /// The event under `title`, if there is one.
    pub fn get(&self, title: &str) -> (r: Option<CalEvent>)
        ensures
            r == (if self@.contains_key(title@) {
                Some(self@[title@])
            } else {
                None
            }),
    {
        proof {
            use_type_invariant(self);
        }
        let owned = title.to_owned();
        match self.position(&owned) {
            Some(i) => {
                assert(holds(self.entries@, title@, i as int));
                Some(self.entries[i].1)
            },
            None => None,
        }
    }

    /// Whether there is an event under `title`.
    pub fn contains_key(&self, title: &str) -> (r: bool)
        ensures
            r == self@.contains_key(title@),
    {
        self.get(title).is_some()
    }

    /// Puts `event` under `title`, in place of the event that was there, if
    /// any.
    pub fn insert(&mut self, title: String, event: CalEvent)
        ensures
            final(self)@ == old(self)@.insert(title@, event),
    {
        proof {
            use_type_invariant(&*self);
        }
        let ghost before = self.entries@;
        let ghost key = title@;
        let place = self.position(&title);
        let mut entries: Vec<(String, CalEvent)> = Vec::new();
        core::mem::swap(&mut self.entries, &mut entries);
        let ghost at = match place {
            Some(i) => i as int,
            None => before.len() as int,
        };
        match place {
            Some(i) => {
                entries.set(i, (title, event));
            },
            None => {
                entries.push((title, event));
            },
        }
        proof {
            lemma_put(before, entries@, at, key, event);
        }
        self.entries = entries;
    }
}

/// The views of `comments`, in order.
pub open spec fn comment_views(comments: Seq<Comment>) -> Seq<CommentView> {
    comments.map_values(|comment: Comment| comment@)
}

/// The views of `todos`, in order.
pub open spec fn todo_views(todos: Seq<ToDo>) -> Seq<ToDoView> {
    todos.map_values(|todo: ToDo| todo@)
}

/// Everything that a scan has gathered.
#[derive(Debug)]
pub struct Schedule {
    /// The events, each under its title.
    pub events: EventMap,
    /// The comments, in the order in which they were read.
    pub comments: Vec<Comment>,
    /// The tasks still to be done, in the order in which they were read.
    pub tbd_todos: Vec<ToDo>,
}

/// A [`Schedule`] as a map and two sequences.
pub ghost struct ScheduleView {
    pub events: Map<Seq<char>, CalEvent>,
    pub comments: Seq<CommentView>,
    pub tbd_todos: Seq<ToDoView>,
}

impl ScheduleView {
    /// The schedule that holds nothing.
    pub open spec fn empty() -> ScheduleView {
        ScheduleView { events: Map::empty(), comments: Seq::empty(), tbd_todos: Seq::empty() }
    }
}

impl View for Schedule {
    type V = ScheduleView;

    open spec fn view(&self) -> ScheduleView {
        ScheduleView {
            events: self.events@,
            comments: comment_views(self.comments@),
            tbd_todos: todo_views(self.tbd_todos@),
        }
    }
}

impl Schedule {
    /// A schedule that holds nothing yet.
    pub fn new() -> (r: Schedule)
        ensures
            r@ == ScheduleView::empty(),
    {
        let r = Schedule { events: EventMap::new(), comments: Vec::new(), tbd_todos: Vec::new() };
        assert(comment_views(r.comments@) =~= Seq::empty());
        assert(todo_views(r.tbd_todos@) =~= Seq::empty());
        r
    }
}

} // verus!
