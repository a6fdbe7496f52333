//! The scanner: from the tokens of a day's page to the records of that day,
//! and from the pages of a range of days to one schedule.

use crate::calendar::{
    date_as_text, date_in_text, days_between, days_in_range, lemma_days_between_ordered,
    read_date, read_time, time_in_text, Date, DateTime, Time,
};
use crate::markdown::{markdown_tokens, tokenize, views, Token, TokenView};
use crate::pattern::{first_match, Matcher};
use crate::reconcile::{
    file_all, file_block, file_blocks, lemma_end_meets_start, lemma_end_without_start,
    lemma_event_stays, lemma_file_both, lemma_filed_so_far, lemma_filing_stays_failed, opens,
    record_all_day, record_end, record_start, EventBlock, EventMark, Failure, ScanError,
};
use crate::structs::{
    annotation_grammar, comment_views, first_refused, grammar_compiles, init_regexes, todo_views, AllRegexes, CalEvent, Comment,
    CommentView, EventMap, Format, Grammar, Schedule, ScheduleView, TimeInterval, ToDo, ToDoView,
    DATE_LAYOUT, TIME_LAYOUT,
};
use crate::text::{
    lemma_without_nothing, lemma_without_single, occurs_at, payload, payload_of, remove_all,
    text_view, without,
};
use vstd::prelude::*;
use vstd::string::StringExecFns;

verus! {

/// The characters that [`trim_in_place`] takes off: space, tab and newline.
pub open spec fn is_blank(c: char) -> bool {
    c == ' ' || c == '\t' || c == '\n'
}

/// `text` up to its last character that is not blank.
pub open spec fn trimmed_end(text: Seq<char>) -> Seq<char>
    decreases text.len(),
{
    if text.len() > 0 && is_blank(text.last()) {
        trimmed_end(text.drop_last())
    } else {
        text
    }
}

/// Takes the spaces, tabs and newlines off the end of `content`.
pub fn trim_in_place(content: &mut String)
    ensures
        final(content)@ == trimmed_end(old(content)@),
{
    loop
        invariant
            trimmed_end(content@) == trimmed_end(old(content)@),
        ensures
            content@ == trimmed_end(old(content)@),
        decreases content@.len(),
    {
        match content.pop() {
            Some(c) => {
                if !(c == ' ' || c == '\t' || c == '\n') {
                    content.push(c);
                    assert(content@ =~= content@.drop_last().push(c));
                    break ;
                }
            },
            None => {
                break ;
            },
        }
    }
}

/// The day that a deadline annotation names, if its value reads as a day.
pub open spec fn date_of(annotation: Seq<char>) -> Option<Date> {
    match payload(annotation) {
        Some(value) => date_in_text(value, DATE_LAYOUT@),
        None => None,
    }
}

/// The time that a time annotation names, if its value reads as a time.
pub open spec fn time_of(annotation: Seq<char>) -> Option<Time> {
    match payload(annotation) {
        Some(value) => time_in_text(value, TIME_LAYOUT@),
        None => None,
    }
}

/// The time that a time annotation names, and midnight where its value
/// does not read as a time.
pub open spec fn time_or_midnight(annotation: Seq<char>) -> Time {
    match time_of(annotation) {
        Some(time) => time,
        None => Time::start_of_day(),
    }
}

/// The day that a deadline annotation names.
pub fn annotated_date(annotation: &str) -> (r: Option<Date>)
    ensures
        r == date_of(annotation@),
{
    match payload_of(annotation) {
        Some(value) => read_date(value.as_str(), Format::date().fmt),
        None => None,
    }
}

/// The time that a time annotation names.
pub fn annotated_time(annotation: &str) -> (r: Option<Time>)
    ensures
        r == time_of(annotation@),
{
    match payload_of(annotation) {
        Some(value) => read_time(value.as_str(), Format::time().fmt),
        None => None,
    }
}

/// The text of an annotation that was found; the empty text where none was.
pub open spec fn annotation_text(hit: Option<Seq<char>>) -> Seq<char> {
    match hit {
        Some(annotation) => annotation,
        None => Seq::empty(),
    }
}

/// What a task line says: the line without the deadline annotation that was
/// found in it and, of what is left, without the time annotation that was
/// found in it.
pub open spec fn task_text(
    line: Seq<char>,
    deadline_hit: Option<Seq<char>>,
    time_hit: Option<Seq<char>>,
) -> Seq<char> {
    without(without(line, annotation_text(deadline_hit)), annotation_text(time_hit))
}

/// A task line loses its two annotations and nothing else.
///
/// Let a line be `head`, a deadline annotation, `middle`, a time annotation
/// and `tail`, where each annotation occurs in the line only there and taking
/// the deadline out does not bring the time annotation about earlier. What
/// the line says is then `head`, `middle` and `tail`.
pub proof fn lemma_task_text_of_annotated_line(
    head: Seq<char>,
    deadline: Seq<char>,
    middle: Seq<char>,
    time: Seq<char>,
    tail: Seq<char>,
)
    requires
        deadline.len() > 0,
        time.len() > 0,
        forall|at: int|
            0 <= at < head.len() ==> !occurs_at(
                head + deadline + middle + time + tail,
                deadline,
                at,
            ),
        forall|at: int| !occurs_at(middle + time + tail, deadline, at),
        forall|at: int|
            0 <= at < head.len() + middle.len() ==> !occurs_at(
                head + middle + time + tail,
                time,
                at,
            ),
        forall|at: int| !occurs_at(tail, time, at),
    ensures
        task_text(head + deadline + middle + time + tail, Some(deadline), Some(time)) == head
            + middle + tail,
{
    let line = head + deadline + middle + time + tail;
    let rest = middle + time + tail;
    assert(line =~= head + deadline + rest);
    lemma_without_single(head, deadline, rest);
    let left = head + rest;
    assert(left =~= head + middle + time + tail);
    assert(left =~= (head + middle) + time + tail);
    lemma_without_single(head + middle, time, tail);
}

/// The task that the line `line` of the page of `date` states, given the
/// deadline and time annotations found in the line. An annotation whose
/// value cannot be read leaves its field empty.
pub open spec fn task(
    date: Date,
    line: Seq<char>,
    deadline_hit: Option<Seq<char>>,
    time_hit: Option<Seq<char>>,
) -> ToDoView {
    ToDoView {
        date,
        time_of_write: match time_hit {
            Some(annotation) => time_of(annotation),
            None => None,
        },
        todo: task_text(line, deadline_hit, time_hit),
        deadline: match deadline_hit {
            Some(annotation) => date_of(annotation),
            None => None,
        },
    }
}

/// The tasks after a box that is not ticked, when the token at `pos` is the
/// one that follows the box: a text there is the line of a new task.
pub open spec fn with_task(
    todos: Seq<ToDoView>,
    date: Date,
    tokens: Seq<TokenView>,
    pos: int,
    deadline: Seq<char>,
    at_time: Seq<char>,
) -> Seq<ToDoView> {
    if 0 <= pos < tokens.len() && tokens[pos] is Text {
        let line = tokens[pos]->Text_0;
        todos.push(task(date, line, first_match(deadline, line), first_match(at_time, line)))
    } else {
        todos
    }
}

/// `line` without the two annotations found in it.
pub fn strip_annotations(
    line: &str,
    deadline_hit: &Option<String>,
    time_hit: &Option<String>,
) -> (r: String)
    ensures
        r@ == task_text(line@, text_view(*deadline_hit), text_view(*time_hit)),
{
    let without_deadline = match deadline_hit {
        Some(annotation) => remove_all(line, annotation.as_str()),
        None => line.to_owned(),
    };
    proof {
        lemma_without_nothing(line@);
        lemma_without_nothing(without_deadline@);
    }
    match time_hit {
        Some(annotation) => remove_all(without_deadline.as_str(), annotation.as_str()),
        None => without_deadline,
    }
}

/// The task that `line` states, given the annotations found in it.
pub fn make_todo(
    date: &Date,
    line: &str,
    deadline_hit: &Option<String>,
    time_hit: &Option<String>,
) -> (r: ToDo)
    ensures
        r@ == task(*date, line@, text_view(*deadline_hit), text_view(*time_hit)),
{
    let todo = strip_annotations(line, deadline_hit, time_hit);
    let deadline = match deadline_hit {
        Some(annotation) => annotated_date(annotation.as_str()),
        None => None,
    };
    let time_of_write = match time_hit {
        Some(annotation) => annotated_time(annotation.as_str()),
        None => None,
    };
    ToDo { date: *date, time_of_write, todo, deadline }
}

/// Reads the task that follows a box that is not ticked. `pos` is the place
/// of the token after the box; unless that token is a text, there is no
/// task.
pub fn parse_tasks(
    tbd: &mut Vec<ToDo>,
    tokens: &Vec<Token>,
    pos: usize,
    deadline_search: &Matcher,
    time_search: &Matcher,
    date: &Date,
)
    ensures
        todo_views(final(tbd)@) == with_task(
            todo_views(old(tbd)@),
            *date,
            views(tokens@),
            pos as int,
            deadline_search@,
            time_search@,
        ),
{
    if pos < tokens.len() {
        if let Token::Text(node) = &tokens[pos] {
            let deadline_hit = deadline_search.find(node.as_str());
            let time_hit = time_search.find(node.as_str());
            let todo = make_todo(date, node.as_str(), &deadline_hit, &time_hit);
            tbd.push(todo);
            assert(todo_views(tbd@) =~= todo_views(old(tbd)@).push(todo@));
        }
    }
}

/// How many tokens stand from `pos` on before the end of the block quote
/// that is open there: the tokens up to the next [`Token::QuoteEnd`], or up
/// to the end of the page where the quote is not closed.
pub open spec fn quote_len(tokens: Seq<TokenView>, pos: int) -> nat
    decreases tokens.len() - pos,
{
    if pos < 0 || pos >= tokens.len() || tokens[pos] is QuoteEnd {
        0
    } else {
        1 + quote_len(tokens, pos + 1)
    }
}

/// A block quote ends on the page, at the latest where the page ends.
pub proof fn lemma_quote_len_bound(tokens: Seq<TokenView>, pos: int)
    requires
        0 <= pos <= tokens.len(),
    ensures
        pos + quote_len(tokens, pos) <= tokens.len(),
    decreases tokens.len() - pos,
{
    if pos < tokens.len() && !(tokens[pos] is QuoteEnd) {
        lemma_quote_len_bound(tokens, pos + 1);
    }
}

/// The body of a note: the texts among the tokens from `from` up to `to`,
/// each followed by a newline.
pub open spec fn note_text(tokens: Seq<TokenView>, from: int, to: int) -> Seq<char>
    decreases to - from,
{
    if to <= from {
        Seq::empty()
    } else {
        let before = note_text(tokens, from, to - 1);
        match tokens[to - 1] {
            TokenView::Text(run) => before + run + seq!['\n'],
            _ => before,
        }
    }
}

/// The lines of an event block: the texts among the tokens from `from` up
/// to `to`, where each text is added, the blanks at the end of what has been
/// gathered are taken off, and a newline follows.
pub open spec fn event_text(tokens: Seq<TokenView>, from: int, to: int) -> Seq<char>
    decreases to - from,
{
    if to <= from {
        Seq::empty()
    } else {
        let before = event_text(tokens, from, to - 1);
        match tokens[to - 1] {
            TokenView::Text(run) => trimmed_end(before + run) + seq!['\n'],
            _ => before,
        }
    }
}

/// The comment that a note with the given body makes: none without a time
/// annotation; else the body without that annotation, written on `date` at
/// the time the annotation names, or at midnight if that cannot be read.
pub open spec fn note(date: Date, body: Seq<char>, time_hit: Option<Seq<char>>) -> Option<
    CommentView,
> {
    match time_hit {
        Some(annotation) => Some(
            CommentView {
                time_of_write: DateTime { date, time: time_or_midnight(annotation) },
                comment: without(body, annotation),
            },
        ),
        None => None,
    }
}

/// The comments after a note with the given body.
pub open spec fn with_note(
    comments: Seq<CommentView>,
    date: Date,
    body: Seq<char>,
    at_time: Seq<char>,
) -> Seq<CommentView> {
    match note(date, body, first_match(at_time, body)) {
        Some(comment) => comments.push(comment),
        None => comments,
    }
}

/// The comment that a note with the given body makes, given the time
/// annotation found in it.
pub fn make_comment(date: &Date, body: &str, time_hit: &Option<String>) -> (r: Option<Comment>)
    ensures
        match r {
            Some(comment) => note(*date, body@, text_view(*time_hit)) == Some(comment@),
            None => note(*date, body@, text_view(*time_hit)) is None,
        },
{
    match time_hit {
        Some(annotation) => {
            let time = match annotated_time(annotation.as_str()) {
                Some(time) => time,
                None => Time::midnight(),
            };
            let comment = remove_all(body, annotation.as_str());
            Some(Comment { time_of_write: date.and_time(time), comment })
        },
        None => None,
    }
}

/// Reads a note: gathers the texts from `pos` to the end of the block
/// quote, and adds the comment they make, if they hold a time annotation.
/// Returns the place where the block quote ends.
pub fn parse_comments(
    date: &Date,
    comments: &mut Vec<Comment>,
    time_search: &Matcher,
    tokens: &Vec<Token>,
    pos: usize,
) -> (next: usize)
    ensures
        next == pos + quote_len(views(tokens@), pos as int),
        comment_views(final(comments)@) == with_note(
            comment_views(old(comments)@),
            *date,
            note_text(views(tokens@), pos as int, next as int),
            time_search@,
        ),
        first_match(time_search@, note_text(views(tokens@), pos as int, next as int)) is None
            ==> final(comments)@ == old(comments)@,
{
    let ghost page = views(tokens@);
    let mut body = String::new();
    let mut i: usize = pos;
    while i < tokens.len() && !is_quote_end(&tokens[i])
        invariant
            pos <= i,
            page == views(tokens@),
            i - pos + quote_len(page, i as int) == quote_len(page, pos as int),
            body@ == note_text(page, pos as int, i as int),
        decreases tokens.len() - i,
    {
        if let Token::Text(node) = &tokens[i] {
            body.append(node.as_str());
            body.push('\n');
        }
        i += 1;
    }
    let time_hit = time_search.find(body.as_str());
    match make_comment(date, body.as_str(), &time_hit) {
        Some(comment) => {
            comments.push(comment);
            assert(comment_views(comments@) =~= comment_views(old(comments)@).push(comment@));
        },
        None => {},
    }
    i
}

/// Whether `token` ends a block quote.
fn is_quote_end(token: &Token) -> (r: bool)
    ensures
        r == (token@ is QuoteEnd),
{
    match token {
        Token::QuoteEnd => true,
        _ => false,
    }
}

/// The title of an event block: its content without the annotation found
/// in it, and without the blanks at the end of what is left.
pub open spec fn title_of(content: Seq<char>, annotation: Seq<char>) -> Seq<char> {
    trimmed_end(without(content, annotation))
}

/// What an event block with the given content says, given the annotations
/// found in it. A start annotation comes first, then the mark of a whole
/// day, then an end annotation; a block with none of them says nothing. A
/// start or an end whose time cannot be read has no time.
pub open spec fn read_block(
    date: Date,
    content: Seq<char>,
    start_hit: Option<Seq<char>>,
    all_day_hit: Option<Seq<char>>,
    end_hit: Option<Seq<char>>,
) -> Option<EventBlock> {
    if let Some(annotation) = start_hit {
        Some(
            EventBlock {
                title: title_of(content, annotation),
                date,
                mark: EventMark::Start(time_of(annotation)),
                content,
            },
        )
    } else if let Some(annotation) = all_day_hit {
        Some(
            EventBlock {
                title: title_of(content, annotation),
                date,
                mark: EventMark::AllDay,
                content,
            },
        )
    } else if let Some(annotation) = end_hit {
        Some(
            EventBlock {
                title: title_of(content, annotation),
                date,
                mark: EventMark::End(time_of(annotation)),
                content,
            },
        )
    } else {
        None
    }
}

/// The events after an event block with the given content, given the
/// annotations found in it. `Err` holds the failure of an end that has no
/// start.
pub open spec fn block_update(
    events: Map<Seq<char>, CalEvent>,
    date: Date,
    content: Seq<char>,
    start_hit: Option<Seq<char>>,
    all_day_hit: Option<Seq<char>>,
    end_hit: Option<Seq<char>>,
) -> Result<Map<Seq<char>, CalEvent>, Failure> {
    match read_block(date, content, start_hit, all_day_hit, end_hit) {
        Some(block) => file_block(events, block),
        None => Ok(events),
    }
}

/// The events after an event block with the given content, under the three
/// patterns that find its annotations.
pub open spec fn with_block(
    events: Map<Seq<char>, CalEvent>,
    date: Date,
    content: Seq<char>,
    start: Seq<char>,
    all_day: Seq<char>,
    end: Seq<char>,
) -> Result<Map<Seq<char>, CalEvent>, Failure> {
    block_update(
        events,
        date,
        content,
        first_match(start, content),
        first_match(all_day, content),
        first_match(end, content),
    )
}

/// The title of an event block.
fn block_title(content: &str, annotation: &str) -> (r: String)
    ensures
        r@ == title_of(content@, annotation@),
{
    let mut name = remove_all(content, annotation);
    trim_in_place(&mut name);
    name
}

/// Files an event block with the given content, given the annotations found
/// in it. Where the block ends an event that was never started, nothing
/// changes and the error holds the title and the content.
pub fn record_block(
    events: &mut EventMap,
    date: &Date,
    content: &str,
    start_hit: &Option<String>,
    all_day_hit: &Option<String>,
    end_hit: &Option<String>,
) -> (r: Result<(), ScanError>)
    ensures
        match block_update(
            old(events)@,
            *date,
            content@,
            text_view(*start_hit),
            text_view(*all_day_hit),
            text_view(*end_hit),
        ) {
            Ok(after) => r is Ok && final(events)@ == after,
            Err(failure) => {
                &&& final(events)@ == old(events)@
                &&& r matches Err(ScanError::EndWithoutStart { title: named, content: quoted })
                &&& named@ == failure.title
                &&& quoted@ == failure.content
            },
        },
{
    if let Some(annotation) = start_hit {
        let time = annotated_time(annotation.as_str());
        record_start(events, block_title(content, annotation.as_str()), date, time);
        Ok(())
    } else if let Some(annotation) = all_day_hit {
        record_all_day(events, block_title(content, annotation.as_str()), date);
        Ok(())
    } else if let Some(annotation) = end_hit {
        let time = annotated_time(annotation.as_str());
        match record_end(events, block_title(content, annotation.as_str()), date, time) {
            Ok(()) => Ok(()),
            Err(title) => Err(ScanError::EndWithoutStart { title, content: content.to_owned() }),
        }
    } else {
        Ok(())
    }
}

/// Reads an event block: gathers the texts from `pos` to the end of the
/// block quote and files the block. Returns the place where the block quote
/// ends.
pub fn parse_schedule(
    events: &mut EventMap,
    start_search: &Matcher,
    end_search: &Matcher,
    all_day_search: &Matcher,
    tokens: &Vec<Token>,
    pos: usize,
    date: &Date,
) -> (r: Result<usize, ScanError>)
    ensures
        match with_block(
            old(events)@,
            *date,
            trimmed_end(
                event_text(
                    views(tokens@),
                    pos as int,
                    pos + quote_len(views(tokens@), pos as int),
                ),
            ),
            start_search@,
            all_day_search@,
            end_search@,
        ) {
            Ok(after) => {
                &&& r matches Ok(next)
                &&& next == pos + quote_len(views(tokens@), pos as int)
                &&& final(events)@ == after
            },
            Err(failure) => {
                &&& final(events)@ == old(events)@
                &&& r matches Err(ScanError::EndWithoutStart { title: named, content: quoted })
                &&& named@ == failure.title
                &&& quoted@ == failure.content
            },
        },
{
    let ghost page = views(tokens@);
    let mut content = String::new();
    let mut i: usize = pos;
    while i < tokens.len() && !is_quote_end(&tokens[i])
        invariant
            pos <= i,
            page == views(tokens@),
            i - pos + quote_len(page, i as int) == quote_len(page, pos as int),
            content@ == event_text(page, pos as int, i as int),
        decreases tokens.len() - i,
    {
        if let Token::Text(node) = &tokens[i] {
            content.append(node.as_str());
            trim_in_place(&mut content);
            content.push('\n');
        }
        i += 1;
    }
    trim_in_place(&mut content);
    let start_hit = start_search.find(content.as_str());
    let all_day_hit = if start_hit.is_none() {
        all_day_search.find(content.as_str())
    } else {
        None
    };
    let end_hit = if start_hit.is_none() && all_day_hit.is_none() {
        end_search.find(content.as_str())
    } else {
        None
    };
    match record_block(events, date, content.as_str(), &start_hit, &all_day_hit, &end_hit) {
        Ok(()) => Ok(i),
        Err(e) => Err(e),
    }
}

/// How a scan ends: the schedule as the scan leaves it, and the end without
/// a start that stopped it, if one did.
pub ghost struct Outcome {
    pub schedule: ScheduleView,
    pub failure: Option<Failure>,
}

/// The scan of a day's page from the token at `pos` on, into `schedule`.
///
/// A box that is not ticked makes a task of the text that follows it. The
/// start of a note makes a comment of the block quote's texts. The start of
/// an important block quote files an event, and stops the scan where the
/// block ends an event that was never started. Every other token is passed
/// over.
pub open spec fn scan_from(
    date: Date,
    tokens: Seq<TokenView>,
    pos: int,
    grammar: Grammar,
    schedule: ScheduleView,
) -> Outcome
    decreases tokens.len() - pos,
    via scan_from_ends
{
    if pos < 0 || pos >= tokens.len() {
        Outcome { schedule, failure: None }
    } else {
        match tokens[pos] {
            TokenView::TaskMarker(false) => scan_from(
                date,
                tokens,
                pos + 1,
                grammar,
                ScheduleView {
                    events: schedule.events,
                    comments: schedule.comments,
                    tbd_todos: with_task(
                        schedule.tbd_todos,
                        date,
                        tokens,
                        pos + 1,
                        grammar.deadline,
                        grammar.at_time,
                    ),
                },
            ),
            TokenView::NoteStart => {
                let end = pos + 1 + quote_len(tokens, pos + 1);
                scan_from(
                    date,
                    tokens,
                    end,
                    grammar,
                    ScheduleView {
                        events: schedule.events,
                        comments: with_note(
                            schedule.comments,
                            date,
                            note_text(tokens, pos + 1, end),
                            grammar.at_time,
                        ),
                        tbd_todos: schedule.tbd_todos,
                    },
                )
            },
            TokenView::ImportantStart => {
                let end = pos + 1 + quote_len(tokens, pos + 1);
                match with_block(
                    schedule.events,
                    date,
                    trimmed_end(event_text(tokens, pos + 1, end)),
                    grammar.at_time,
                    grammar.all_day,
                    grammar.end,
                ) {
                    Ok(events) => scan_from(
                        date,
                        tokens,
                        end,
                        grammar,
                        ScheduleView {
                            events,
                            comments: schedule.comments,
                            tbd_todos: schedule.tbd_todos,
                        },
                    ),
                    Err(failure) => Outcome { schedule, failure: Some(failure) },
                }
            },
            _ => scan_from(date, tokens, pos + 1, grammar, schedule),
        }
    }
}

#[via_fn]
proof fn scan_from_ends(
    date: Date,
    tokens: Seq<TokenView>,
    pos: int,
    grammar: Grammar,
    schedule: ScheduleView,
) {
    if 0 <= pos < tokens.len() {
        lemma_quote_len_bound(tokens, pos + 1);
    }
}

/// The scan of a whole page into `schedule`.
pub open spec fn scan(
    date: Date,
    tokens: Seq<TokenView>,
    grammar: Grammar,
    schedule: ScheduleView,
) -> Outcome {
    scan_from(date, tokens, 0, grammar, schedule)
}

/// Whether `r` and the schedule `after` are what `outcome` says.
pub open spec fn reports(r: Result<(), ScanError>, after: ScheduleView, outcome: Outcome) -> bool {
    &&& after == outcome.schedule
    &&& match outcome.failure {
        None => r is Ok,
        Some(failure) => {
            &&& r matches Err(ScanError::EndWithoutStart { title: named, content: quoted })
            &&& named@ == failure.title
            &&& quoted@ == failure.content
        },
    }
}

/// Scans the tokens of the page of `date` into `sched`.
pub fn scan_tokens(
    date: &Date,
    tokens: &Vec<Token>,
    all_regexes: &AllRegexes,
    sched: &mut Schedule,
) -> (r: Result<(), ScanError>)
    ensures
        reports(r, final(sched)@, scan(*date, views(tokens@), all_regexes@, old(sched)@)),
{
    let ghost page = views(tokens@);
    let ghost whole = scan(*date, page, all_regexes@, sched@);
    let mut i: usize = 0;
    while i < tokens.len()
        invariant
            page == views(tokens@),
            whole == scan(*date, page, all_regexes@, old(sched)@),
            scan_from(*date, page, i as int, all_regexes@, sched@) == whole,
        decreases tokens.len() - i,
    {
        proof {
            lemma_quote_len_bound(page, i + 1);
        }
        match &tokens[i] {
            Token::TaskMarker(done) => {
                if !*done {
                    parse_tasks(
                        &mut sched.tbd_todos,
                        tokens,
                        i + 1,
                        &all_regexes.deadline,
                        &all_regexes.at_time,
                        date,
                    );
                }
                i += 1;
            },
            Token::NoteStart => {
                i =
                parse_comments(date, &mut sched.comments, &all_regexes.at_time, tokens, i + 1);
            },
            Token::ImportantStart => {
                match parse_schedule(
                    &mut sched.events,
                    &all_regexes.at_time,
                    &all_regexes.end,
                    &all_regexes.all_day,
                    tokens,
                    i + 1,
                    date,
                ) {
                    Ok(next) => {
                        i = next;
                    },
                    Err(e) => {
                        return Err(e);
                    },
                }
            },
            _ => {
                i += 1;
            },
        }
    }
    Ok(())
}

/// Scans the page of `date`, whose text is `contents`, into `sched`.
///
/// The scan fails only where a block ends an event that was never started;
/// `sched` then holds what had been read up to that block.
pub fn parse_one_day(
    date: &Date,
    contents: &str,
    all_regexes: &AllRegexes,
    sched: &mut Schedule,
) -> (r: Result<(), ScanError>)
    ensures
        reports(
            r,
            final(sched)@,
            scan(*date, markdown_tokens(contents@, true, true), all_regexes@, old(sched)@),
        ),
{
    let tokens = tokenize(contents);
    scan_tokens(date, &tokens, all_regexes, sched)
}

/// The name of the page of `date`: the date as chrono writes it under
/// [`DATE_LAYOUT`], followed by `.md`.
pub open spec fn page_name(date: Date) -> Option<Seq<char>> {
    match date_as_text(date, DATE_LAYOUT@) {
        Some(day) => Some(day + ".md"@),
        None => None,
    }
}

/// The name of the file that holds the page of `date`.
pub fn document_name(date: &Date) -> (r: Option<String>)
    ensures
        text_view(r) == page_name(*date),
{
    match date.format(Format::date().fmt) {
        Some(mut name) => {
            name.append(".md");
            Some(name)
        },
        None => None,
    }
}

/// The texts of the pages handed to a scan of several days: page `i`
/// belongs to day `i` of the range, and `None` stands for a day without a
/// page.
pub open spec fn page_views(documents: Seq<Option<String>>) -> Seq<Option<Seq<char>>> {
    documents.map_values(|document: Option<String>| text_view(document))
}

/// The page of day `i`; a day beyond the pages that were handed over has
/// none.
pub open spec fn page_of(pages: Seq<Option<Seq<char>>>, i: int) -> Option<Seq<char>> {
    if 0 <= i < pages.len() {
        pages[i]
    } else {
        None
    }
}

/// What the first `count` of `days` add up to, day by day: a day without a
/// page adds nothing, a day with a page adds what the scan of that page
/// gathers, and the first end without a start stops everything, leaving only
/// its failure.
pub open spec fn gather(
    days: Seq<Date>,
    pages: Seq<Option<Seq<char>>>,
    count: int,
    grammar: Grammar,
) -> Result<ScheduleView, Failure>
    decreases count,
{
    if count <= 0 {
        Ok(ScheduleView::empty())
    } else {
        match gather(days, pages, count - 1, grammar) {
            Ok(schedule) => match page_of(pages, count - 1) {
                Some(text) => {
                    let outcome = scan(
                        days[count - 1],
                        markdown_tokens(text, true, true),
                        grammar,
                        schedule,
                    );
                    match outcome.failure {
                        None => Ok(outcome.schedule),
                        Some(failure) => Err(failure),
                    }
                },
                None => Ok(schedule),
            },
            Err(failure) => Err(failure),
        }
    }
}

/// What the days from `start` up to, but not including, `end` add up to.
pub open spec fn gather_range(
    start: Date,
    end: Date,
    pages: Seq<Option<Seq<char>>>,
    grammar: Grammar,
) -> Result<ScheduleView, Failure> {
    gather(days_between(start, end), pages, days_between(start, end).len() as int, grammar)
}

/// Scans the pages of the days from `start_date` up to, but not including,
/// `end_date` into one schedule, with the given matchers. `documents[i]` is
/// the page of day `i` of the range, `None` where that day has no page.
pub fn scan_documents(
    start_date: &Date,
    end_date: &Date,
    documents: &Vec<Option<String>>,
    all_regexes: &AllRegexes,
) -> (r: Result<Schedule, ScanError>)
    ensures
        match gather_range(*start_date, *end_date, page_views(documents@), all_regexes@) {
            Ok(schedule) => r matches Ok(sched) && sched@ == schedule,
            Err(failure) => {
                &&& r matches Err(ScanError::EndWithoutStart { title: named, content: quoted })
                &&& named@ == failure.title
                &&& quoted@ == failure.content
            },
        },
{
    let days = days_in_range(start_date, end_date);
    let ghost pages = page_views(documents@);
    let mut sched = Schedule::new();
    let mut i: usize = 0;
    while i < days.len()
        invariant
            i <= days.len(),
            days@ == days_between(*start_date, *end_date),
            pages == page_views(documents@),
            gather(days@, pages, i as int, all_regexes@) == Ok::<ScheduleView, Failure>(sched@),
        decreases days.len() - i,
    {
        if i < documents.len() {
            if let Some(contents) = &documents[i] {
                match parse_one_day(&days[i], contents.as_str(), all_regexes, &mut sched) {
                    Ok(()) => {},
                    Err(e) => {
                        proof {
                            lemma_gather_stays_failed(
                                days@,
                                pages,
                                i + 1,
                                days@.len() as int,
                                all_regexes@,
                            );
                        }
                        return Err(e);
                    },
                }
            }
        }
        i += 1;
    }
    Ok(sched)
}

/// Once the days have failed, more days do not mend it.
pub proof fn lemma_gather_stays_failed(
    days: Seq<Date>,
    pages: Seq<Option<Seq<char>>>,
    count: int,
    more: int,
    grammar: Grammar,
)
    requires
        count <= more,
        gather(days, pages, count, grammar) is Err,
    ensures
        gather(days, pages, more, grammar) == gather(days, pages, count, grammar),
    decreases more - count,
{
    if count < more {
        lemma_gather_stays_failed(days, pages, count, more - 1, grammar);
    }
}

/// Scans the pages of the days from `start_date` up to, but not including,
/// `end_date` into one schedule. `documents[i]` is the page of day `i` of
/// the range, `None` where that day has no page: such a day is passed over.
///
/// The matchers of the annotation grammar are compiled first. The scan
/// fails with a pattern exactly where the regex crate does not compile all
/// four patterns of the grammar, and the error then names the first one it
/// refused. Where it compiles them, the result is the schedule that the days
/// add up to, or the error of the first end without a start.
pub fn parse_sequence(start_date: &Date, end_date: &Date, documents: &Vec<Option<String>>) -> (r:
    Result<Schedule, ScanError>)
    ensures
        r matches Err(ScanError::BadPattern { .. }) <==> !grammar_compiles(annotation_grammar()),
        match r {
            Ok(sched) => gather_range(
                *start_date,
                *end_date,
                page_views(documents@),
                annotation_grammar(),
            ) == Ok::<ScheduleView, Failure>(sched@),
            Err(ScanError::EndWithoutStart { title, content }) => gather_range(
                *start_date,
                *end_date,
                page_views(documents@),
                annotation_grammar(),
            ) == Err::<ScheduleView, Failure>(Failure { title: title@, content: content@ }),
            Err(ScanError::BadPattern { pattern }) => first_refused(annotation_grammar()) == Some(
                pattern@,
            ),
        },
{
    match init_regexes() {
        Ok(all_regexes) => scan_documents(start_date, end_date, documents, &all_regexes),
        Err(e) => Err(ScanError::BadPattern { pattern: e.pattern }),
    }
}

/// Whether every record of `schedule` lies on one of `days`: each task by
/// its day, each comment by the day it was written, each event by the days
/// of its start and of its end.
pub open spec fn dated_within(schedule: ScheduleView, days: Set<Date>) -> bool {
    &&& forall|i: int|
        0 <= i < schedule.tbd_todos.len() ==> days.contains(#[trigger] schedule.tbd_todos[i].date)
    &&& forall|i: int|
        0 <= i < schedule.comments.len() ==> days.contains(
            #[trigger] schedule.comments[i].time_of_write.date,
        )
    &&& forall|title: Seq<char>| #[trigger]
        schedule.events.contains_key(title) ==> days.contains(
            schedule.events[title].start_time.date(),
        ) && days.contains(schedule.events[title].end_time.date())
}

/// The scan of the page of `date` adds only records that lie on `date`.
pub proof fn lemma_scan_dates(
    date: Date,
    tokens: Seq<TokenView>,
    pos: int,
    grammar: Grammar,
    schedule: ScheduleView,
    days: Set<Date>,
)
    requires
        days.contains(date),
        dated_within(schedule, days),
    ensures
        dated_within(scan_from(date, tokens, pos, grammar, schedule).schedule, days),
    decreases tokens.len() - pos,
{
    if 0 <= pos < tokens.len() {
        lemma_quote_len_bound(tokens, pos + 1);
        let end = pos + 1 + quote_len(tokens, pos + 1);
        match tokens[pos] {
            TokenView::TaskMarker(false) => {
                let next = ScheduleView {
                    events: schedule.events,
                    comments: schedule.comments,
                    tbd_todos: with_task(
                        schedule.tbd_todos,
                        date,
                        tokens,
                        pos + 1,
                        grammar.deadline,
                        grammar.at_time,
                    ),
                };
                assert(dated_within(next, days));
                lemma_scan_dates(date, tokens, pos + 1, grammar, next, days);
            },
            TokenView::NoteStart => {
                let next = ScheduleView {
                    events: schedule.events,
                    comments: with_note(
                        schedule.comments,
                        date,
                        note_text(tokens, pos + 1, end),
                        grammar.at_time,
                    ),
                    tbd_todos: schedule.tbd_todos,
                };
                assert(dated_within(next, days));
                lemma_scan_dates(date, tokens, end, grammar, next, days);
            },
            TokenView::ImportantStart => {
                match with_block(
                    schedule.events,
                    date,
                    trimmed_end(event_text(tokens, pos + 1, end)),
                    grammar.at_time,
                    grammar.all_day,
                    grammar.end,
                ) {
                    Ok(events) => {
                        let next = ScheduleView {
                            events,
                            comments: schedule.comments,
                            tbd_todos: schedule.tbd_todos,
                        };
                        assert(dated_within(next, days));
                        lemma_scan_dates(date, tokens, end, grammar, next, days);
                    },
                    Err(_) => {},
                }
            },
            _ => {
                lemma_scan_dates(date, tokens, pos + 1, grammar, schedule, days);
            },
        }
    }
}

/// Whether day `i` of `days` is `day` and has a page.
pub open spec fn is_paged_day(
    days: Seq<Date>,
    pages: Seq<Option<Seq<char>>>,
    i: int,
    day: Date,
) -> bool {
    0 <= i < days.len() && days[i] == day && page_of(pages, i) is Some
}

/// Among the first `count` of `days`, those that have a page.
pub open spec fn days_with_pages(days: Seq<Date>, pages: Seq<Option<Seq<char>>>, count: int) -> Set<
    Date,
> {
    Set::new(|day: Date| exists|i: int| i < count && is_paged_day(days, pages, i, day))
}

/// A day without a page adds nothing and stops nothing.
pub proof fn lemma_day_without_page(
    days: Seq<Date>,
    pages: Seq<Option<Seq<char>>>,
    count: int,
    grammar: Grammar,
)
    requires
        count > 0,
        page_of(pages, count - 1) is None,
    ensures
        gather(days, pages, count, grammar) == gather(days, pages, count - 1, grammar),
{
}

/// Days without pages alone add up to the empty schedule.
pub proof fn lemma_no_pages_no_records(
    days: Seq<Date>,
    pages: Seq<Option<Seq<char>>>,
    count: int,
    grammar: Grammar,
)
    requires
        forall|i: int| 0 <= i < count ==> page_of(pages, i) is None,
    ensures
        gather(days, pages, count, grammar) == Ok::<ScheduleView, Failure>(ScheduleView::empty()),
    decreases count,
{
    if count > 0 {
        lemma_no_pages_no_records(days, pages, count - 1, grammar);
    }
}

/// Every record that the days add up to lies on a day that has a page.
pub proof fn lemma_gather_dates(
    days: Seq<Date>,
    pages: Seq<Option<Seq<char>>>,
    count: int,
    grammar: Grammar,
)
    requires
        count <= days.len(),
        gather(days, pages, count, grammar) is Ok,
    ensures
        dated_within(
            gather(days, pages, count, grammar)->Ok_0,
            days_with_pages(days, pages, count),
        ),
    decreases count,
{
    if count > 0 {
        let before = gather(days, pages, count - 1, grammar)->Ok_0;
        lemma_gather_dates(days, pages, count - 1, grammar);
        let fewer = days_with_pages(days, pages, count - 1);
        let all = days_with_pages(days, pages, count);
        assert forall|day: Date| fewer.contains(day) implies all.contains(day) by {
            let i = choose|i: int| i < count - 1 && is_paged_day(days, pages, i, day);
            assert(i < count && is_paged_day(days, pages, i, day));
        }
        assert(dated_within(before, all));
        if let Some(text) = page_of(pages, count - 1) {
            assert(is_paged_day(days, pages, count - 1, days[count - 1]));
            lemma_scan_dates(
                days[count - 1],
                markdown_tokens(text, true, true),
                0,
                grammar,
                before,
                all,
            );
        }
    }
}

/// A day without a page leaves no trace.
///
/// Where day `i` of the range from `start` up to `end` has no page, the
/// schedule that the range adds up to holds no task of that day, no comment
/// written on it, and no event that starts or ends on it.
pub proof fn lemma_missing_day_leaves_no_trace(
    start: Date,
    end: Date,
    pages: Seq<Option<Seq<char>>>,
    grammar: Grammar,
    i: int,
)
    requires
        start.is_valid(),
        end.is_valid(),
        0 <= i < days_between(start, end).len(),
        page_of(pages, i) is None,
        gather_range(start, end, pages, grammar) is Ok,
    ensures
        ({
            let day = days_between(start, end)[i];
            let schedule = gather_range(start, end, pages, grammar)->Ok_0;
            &&& forall|k: int|
                0 <= k < schedule.tbd_todos.len() ==> (#[trigger] schedule.tbd_todos[k]).date != day
            &&& forall|k: int|
                0 <= k < schedule.comments.len() ==> (
                #[trigger] schedule.comments[k]).time_of_write.date != day
            &&& forall|title: Seq<char>| #[trigger]
                schedule.events.contains_key(title) ==> schedule.events[title].start_time.date()
                    != day && schedule.events[title].end_time.date() != day
        }),
{
    let days = days_between(start, end);
    let count = days.len() as int;
    lemma_gather_dates(days, pages, count, grammar);
    let with_pages = days_with_pages(days, pages, count);
    if with_pages.contains(days[i]) {
        let k = choose|k: int| k < count && is_paged_day(days, pages, k, days[i]);
        if k < i {
            lemma_days_between_ordered(start, end, k, i);
        } else {
            lemma_days_between_ordered(start, end, i, k);
        }
    }
}

/// What the important block quote that starts at `pos` says of its event,
/// if it says anything.
pub open spec fn block_at(date: Date, tokens: Seq<TokenView>, pos: int, grammar: Grammar) -> Option<
    EventBlock,
> {
    let content = trimmed_end(
        event_text(tokens, pos + 1, pos + 1 + quote_len(tokens, pos + 1)),
    );
    read_block(
        date,
        content,
        first_match(grammar.at_time, content),
        first_match(grammar.all_day, content),
        first_match(grammar.end, content),
    )
}

/// The event blocks of the page of `date` from the token at `pos` on, in
/// the order in which the scan meets them.
pub open spec fn blocks_from(date: Date, tokens: Seq<TokenView>, pos: int, grammar: Grammar) -> Seq<
    EventBlock,
>
    decreases tokens.len() - pos,
    via blocks_from_ends
{
    if pos < 0 || pos >= tokens.len() {
        Seq::empty()
    } else {
        match tokens[pos] {
            TokenView::NoteStart => blocks_from(
                date,
                tokens,
                pos + 1 + quote_len(tokens, pos + 1),
                grammar,
            ),
            TokenView::ImportantStart => {
                let rest = blocks_from(
                    date,
                    tokens,
                    pos + 1 + quote_len(tokens, pos + 1),
                    grammar,
                );
                match block_at(date, tokens, pos, grammar) {
                    Some(block) => seq![block] + rest,
                    None => rest,
                }
            },
            _ => blocks_from(date, tokens, pos + 1, grammar),
        }
    }
}

#[via_fn]
proof fn blocks_from_ends(date: Date, tokens: Seq<TokenView>, pos: int, grammar: Grammar) {
    if 0 <= pos < tokens.len() {
        lemma_quote_len_bound(tokens, pos + 1);
    }
}

/// The events of a scan are the event blocks of the page, filed in order.
///
/// Where all the blocks from `pos` on can be filed, the scan does not fail
/// and leaves the events that filing them gives. Where filing them fails,
/// the scan fails with the same title.
pub proof fn lemma_scan_files_blocks(
    date: Date,
    tokens: Seq<TokenView>,
    pos: int,
    grammar: Grammar,
    schedule: ScheduleView,
)
    ensures
        match file_all(schedule.events, blocks_from(date, tokens, pos, grammar)) {
            Ok(events) => {
                let outcome = scan_from(date, tokens, pos, grammar, schedule);
                outcome.failure is None && outcome.schedule.events == events
            },
            Err(failure) => scan_from(date, tokens, pos, grammar, schedule).failure == Some(
                failure,
            ),
        },
    decreases tokens.len() - pos,
{
    if 0 <= pos < tokens.len() {
        lemma_quote_len_bound(tokens, pos + 1);
        let end = pos + 1 + quote_len(tokens, pos + 1);
        match tokens[pos] {
            TokenView::TaskMarker(false) => {
                lemma_scan_files_blocks(
                    date,
                    tokens,
                    pos + 1,
                    grammar,
                    ScheduleView {
                        events: schedule.events,
                        comments: schedule.comments,
                        tbd_todos: with_task(
                            schedule.tbd_todos,
                            date,
                            tokens,
                            pos + 1,
                            grammar.deadline,
                            grammar.at_time,
                        ),
                    },
                );
            },
            TokenView::NoteStart => {
                lemma_scan_files_blocks(
                    date,
                    tokens,
                    end,
                    grammar,
                    ScheduleView {
                        events: schedule.events,
                        comments: with_note(
                            schedule.comments,
                            date,
                            note_text(tokens, pos + 1, end),
                            grammar.at_time,
                        ),
                        tbd_todos: schedule.tbd_todos,
                    },
                );
            },
            TokenView::ImportantStart => {
                let rest = blocks_from(date, tokens, end, grammar);
                match block_at(date, tokens, pos, grammar) {
                    Some(block) => {
                        lemma_file_both(schedule.events, seq![block], rest, rest.len() as int);
                        assert(seq![block][0] == block);
                        assert(file_blocks(schedule.events, seq![block], 0) == Ok::<
                            Map<Seq<char>, CalEvent>,
                            Failure,
                        >(schedule.events));
                        assert(file_all(schedule.events, seq![block]) == file_block(
                            schedule.events,
                            block,
                        ));
                        match file_block(schedule.events, block) {
                            Ok(events) => {
                                lemma_scan_files_blocks(
                                    date,
                                    tokens,
                                    end,
                                    grammar,
                                    ScheduleView {
                                        events,
                                        comments: schedule.comments,
                                        tbd_todos: schedule.tbd_todos,
                                    },
                                );
                            },
                            Err(_) => {},
                        }
                    },
                    None => {
                        lemma_scan_files_blocks(date, tokens, end, grammar, schedule);
                    },
                }
            },
            _ => {
                lemma_scan_files_blocks(date, tokens, pos + 1, grammar, schedule);
            },
        }
    }
}

/// The event blocks of the first `count` of `days`, day by day.
pub open spec fn blocks_of_days(
    days: Seq<Date>,
    pages: Seq<Option<Seq<char>>>,
    count: int,
    grammar: Grammar,
) -> Seq<EventBlock>
    decreases count,
{
    if count <= 0 {
        Seq::empty()
    } else {
        blocks_of_days(days, pages, count - 1, grammar) + match page_of(pages, count - 1) {
            Some(text) => blocks_from(
                days[count - 1],
                markdown_tokens(text, true, true),
                0,
                grammar,
            ),
            None => Seq::empty(),
        }
    }
}

/// The events that the days add up to are the event blocks of all their
/// pages, filed in order from an empty schedule; and the days fail exactly
/// where filing those blocks fails, with the same title.
pub proof fn lemma_gather_files_blocks(
    days: Seq<Date>,
    pages: Seq<Option<Seq<char>>>,
    count: int,
    grammar: Grammar,
)
    ensures
        match file_all(Map::empty(), blocks_of_days(days, pages, count, grammar)) {
            Ok(events) => {
                &&& gather(days, pages, count, grammar) matches Ok(schedule)
                &&& schedule.events == events
            },
            Err(failure) => gather(days, pages, count, grammar) == Err::<ScheduleView, Failure>(
                failure,
            ),
        },
    decreases count,
{
    if count > 0 {
        lemma_gather_files_blocks(days, pages, count - 1, grammar);
        let before = blocks_of_days(days, pages, count - 1, grammar);
        let today = match page_of(pages, count - 1) {
            Some(text) => blocks_from(
                days[count - 1],
                markdown_tokens(text, true, true),
                0,
                grammar,
            ),
            None => Seq::empty(),
        };
        lemma_file_both(Map::empty(), before, today, today.len() as int);
        if let Ok(schedule) = gather(days, pages, count - 1, grammar) {
            if let Some(text) = page_of(pages, count - 1) {
                lemma_scan_files_blocks(
                    days[count - 1],
                    markdown_tokens(text, true, true),
                    0,
                    grammar,
                    schedule,
                );
            }
        }
    }
}

/// Over a range of days, a start and the end that follows it meet in one
/// event.
///
/// Among the event blocks of the days, let block `i` open the event
/// `title`, let block `j` after it end that event, and let no other block
/// after `i` stand under that title. Where the days add up to a schedule,
/// its event under the title starts on the day of block `i`, at its time, or
/// at midnight where it gave none, and ends on the day and at the time of
/// block `j`.
pub proof fn lemma_range_joins_start_and_end(
    days: Seq<Date>,
    pages: Seq<Option<Seq<char>>>,
    count: int,
    grammar: Grammar,
    i: int,
    j: int,
)
    requires
        0 <= i < j < blocks_of_days(days, pages, count, grammar).len(),
        opens(blocks_of_days(days, pages, count, grammar)[i]),
        blocks_of_days(days, pages, count, grammar)[j].mark is End,
        blocks_of_days(days, pages, count, grammar)[j].title == blocks_of_days(
            days,
            pages,
            count,
            grammar,
        )[i].title,
        forall|k: int|
            i < k < blocks_of_days(days, pages, count, grammar).len() && k != j ==> (
            #[trigger] blocks_of_days(days, pages, count, grammar)[k]).title != blocks_of_days(
                days,
                pages,
                count,
                grammar,
            )[i].title,
        gather(days, pages, count, grammar) is Ok,
    ensures
        ({
            let blocks = blocks_of_days(days, pages, count, grammar);
            let events = gather(days, pages, count, grammar)->Ok_0.events;
            &&& events.contains_key(blocks[i].title)
            &&& events[blocks[i].title] == (CalEvent {
                start_time: TimeInterval(
                    (
                        blocks[i].date,
                        Some(
                            match blocks[i].mark {
                                EventMark::Start(Some(time)) => time,
                                _ => Time::start_of_day(),
                            },
                        ),
                    ),
                ),
                end_time: TimeInterval((blocks[j].date, blocks[j].mark->End_0)),
            })
        }),
{
    let blocks = blocks_of_days(days, pages, count, grammar);
    let none = Map::<Seq<char>, CalEvent>::empty();
    lemma_gather_files_blocks(days, pages, count, grammar);
    lemma_filed_so_far(none, blocks, j, blocks.len() as int);
    lemma_end_meets_start(none, blocks, i, j);
    lemma_event_stays(none, blocks, j + 1, blocks.len() as int, blocks[i].title);
}

/// Over a range of days, an end without a start is fatal.
///
/// Among the event blocks of the days, let block `j` end the event `title`
/// where no earlier block has opened an event under that title. Then the
/// days add up to no schedule.
pub proof fn lemma_range_fails_on_end_without_start(
    days: Seq<Date>,
    pages: Seq<Option<Seq<char>>>,
    count: int,
    grammar: Grammar,
    j: int,
)
    requires
        0 <= j < blocks_of_days(days, pages, count, grammar).len(),
        blocks_of_days(days, pages, count, grammar)[j].mark is End,
        forall|k: int|
            0 <= k < j && (#[trigger] blocks_of_days(days, pages, count, grammar)[k]).title
                == blocks_of_days(days, pages, count, grammar)[j].title ==> !opens(
                blocks_of_days(days, pages, count, grammar)[k],
            ),
    ensures
        gather(days, pages, count, grammar) is Err,
{
    let blocks = blocks_of_days(days, pages, count, grammar);
    let none = Map::<Seq<char>, CalEvent>::empty();
    lemma_end_without_start(none, blocks, j);
    lemma_filing_stays_failed(none, blocks, j + 1, blocks.len() as int);
    lemma_gather_files_blocks(days, pages, count, grammar);
}

} // verus!
