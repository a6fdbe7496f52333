//! The events of a schedule as blocks file them: a block starts an event,
//! marks it as taking the whole day, or ends it, and start and end meet under
//! the event's title.

use crate::calendar::{Date, Time};
use crate::structs::{CalEvent, EventMap, TimeInterval};
use vstd::prelude::*;

verus! {

/// Why a scan stopped.
#[derive(Debug, Clone, PartialEq, Eq)]
pub enum ScanError {
    /// A pattern of the annotation grammar did not compile.
    BadPattern { pattern: String },
    /// A block gives the end of an event that no earlier block has started.
    /// `title` is the title of that event, `content` the text of the block.
    EndWithoutStart { title: String, content: String },
}

/// An end without a start: the title it gives and the text of its block.
pub ghost struct Failure {
    pub title: Seq<char>,
    pub content: Seq<char>,
}

/// An event that starts on `date` and has no end yet. `time` is the time at
/// which it starts, `None` where that could not be read.
pub open spec fn started_event(date: Date, time: Option<Time>) -> CalEvent {
    CalEvent { start_time: TimeInterval((date, time)), end_time: TimeInterval((date, None)) }
}

/// An event that takes the whole of `date`.
pub open spec fn all_day_event(date: Date) -> CalEvent {
    CalEvent { start_time: TimeInterval((date, None)), end_time: TimeInterval((date, None)) }
}

/// `event` with its end set to `date` and `time`, the time at which it
/// ends, `None` where that could not be read. A start that had no time gets
/// midnight.
pub open spec fn ended_event(event: CalEvent, date: Date, time: Option<Time>) -> CalEvent {
    CalEvent {
        start_time: TimeInterval(
            (
                event.start_time.date(),
                Some(
                    match event.start_time.time() {
                        Some(start) => start,
                        None => Time::start_of_day(),
                    },
                ),
            ),
        ),
        end_time: TimeInterval((date, time)),
    }
}

/// The events after a block that ends the event `title` on `date` at
/// `time`; `None` if there is no event `title` to end.
pub open spec fn with_end(
    events: Map<Seq<char>, CalEvent>,
    title: Seq<char>,
    date: Date,
    time: Option<Time>,
) -> Option<Map<Seq<char>, CalEvent>> {
    if events.contains_key(title) {
        Some(events.insert(title, ended_event(events[title], date, time)))
    } else {
        None
    }
}

/// Records that the event `title` starts on `date` at `time`, `None` where
/// the time could not be read. An event that was there under this title is
/// replaced.
pub fn record_start(events: &mut EventMap, title: String, date: &Date, time: Option<Time>)
    ensures
        final(events)@ == old(events)@.insert(title@, started_event(*date, time)),
{
    let event = CalEvent {
        start_time: TimeInterval((*date, time)),
        end_time: TimeInterval((*date, None)),
    };
    events.insert(title, event);
}

/// Records that the event `title` takes the whole of `date`. An event that
/// was there under this title is replaced.
pub fn record_all_day(events: &mut EventMap, title: String, date: &Date)
    ensures
        final(events)@ == old(events)@.insert(title@, all_day_event(*date)),
{
    let event = CalEvent {
        start_time: TimeInterval((*date, None)),
        end_time: TimeInterval((*date, None)),
    };
    events.insert(title, event);
}

/// Records that the event `title` ends on `date` at `time`, `None` where
/// the time could not be read. The event must have been recorded before: if
/// it was not, nothing changes and the title is handed back.
pub fn record_end(events: &mut EventMap, title: String, date: &Date, time: Option<Time>) -> (r:
    Result<(), String>)
    ensures
        match with_end(old(events)@, title@, *date, time) {
            Some(after) => r is Ok && final(events)@ == after,
            None => {
                &&& final(events)@ == old(events)@
                &&& r matches Err(unknown)
                &&& unknown@ == title@
            },
        },
{
    match events.get(title.as_str()) {
        Some(event) => {
            let start = match event.start_time.time() {
                Some(start) => start,
                None => Time::midnight(),
            };
            let ended = CalEvent {
                start_time: TimeInterval((event.start_time.date(), Some(start))),
                end_time: TimeInterval((*date, time)),
            };
            events.insert(title, ended);
            Ok(())
        },
        None => Err(title),
    }
}

/// What a block says of its event.
pub ghost enum EventMark {
    /// The event starts, at this time if one could be read.
    Start(Option<Time>),
    /// The event takes the whole day.
    AllDay,
    /// The event ends, at this time if one could be read.
    End(Option<Time>),
}

/// An event block as the schedule files it: the title of its event, the
/// day of its page, what it says of the event, and its whole text.
pub ghost struct EventBlock {
    pub title: Seq<char>,
    pub date: Date,
    pub mark: EventMark,
    pub content: Seq<char>,
}

/// The failure of `block`, where it ends an event that was never started.
pub open spec fn failure_of(block: EventBlock) -> Failure {
    Failure { title: block.title, content: block.content }
}

/// The events after `block` is filed. A start or a whole day puts a new
/// event under the title, in place of one that was there. An end completes
/// the event under the title; `Err` holds the failure of the block where
/// there is none.
pub open spec fn file_block(events: Map<Seq<char>, CalEvent>, block: EventBlock) -> Result<
    Map<Seq<char>, CalEvent>,
    Failure,
> {
    match block.mark {
        EventMark::Start(time) => Ok(events.insert(block.title, started_event(block.date, time))),
        EventMark::AllDay => Ok(events.insert(block.title, all_day_event(block.date))),
        EventMark::End(time) => match with_end(events, block.title, block.date, time) {
            Some(after) => Ok(after),
            None => Err(failure_of(block)),
        },
    }
}

/// The events after the first `count` of `blocks` are filed in order,
/// stopping at the first end without a start.
pub open spec fn file_blocks(
    events: Map<Seq<char>, CalEvent>,
    blocks: Seq<EventBlock>,
    count: int,
) -> Result<Map<Seq<char>, CalEvent>, Failure>
    decreases count,
{
    if count <= 0 {
        Ok(events)
    } else {
        match file_blocks(events, blocks, count - 1) {
            Ok(before) => file_block(before, blocks[count - 1]),
            Err(failure) => Err(failure),
        }
    }
}

/// All of `blocks`, filed in order.
pub open spec fn file_all(events: Map<Seq<char>, CalEvent>, blocks: Seq<EventBlock>) -> Result<
    Map<Seq<char>, CalEvent>,
    Failure,
> {
    file_blocks(events, blocks, blocks.len() as int)
}

/// Filing one run of blocks and then another is filing the two runs as
/// one.
pub proof fn lemma_file_both(
    events: Map<Seq<char>, CalEvent>,
    first: Seq<EventBlock>,
    second: Seq<EventBlock>,
    count: int,
)
    requires
        0 <= count <= second.len(),
    ensures
        file_blocks(events, first + second, first.len() + count) == match file_all(events, first) {
            Ok(after) => file_blocks(after, second, count),
            Err(failure) => Err(failure),
        },
    decreases count,
{
    if count == 0 {
        lemma_file_prefix(events, first, second, first.len() as int);
    } else {
        lemma_file_both(events, first, second, count - 1);
        assert((first + second)[first.len() + count - 1] == second[count - 1]);
    }
}

/// The blocks that follow do not change how the first ones are filed.
pub proof fn lemma_file_prefix(
    events: Map<Seq<char>, CalEvent>,
    first: Seq<EventBlock>,
    second: Seq<EventBlock>,
    count: int,
)
    requires
        0 <= count <= first.len(),
    ensures
        file_blocks(events, first + second, count) == file_blocks(events, first, count),
    decreases count,
{
    if count > 0 {
        lemma_file_prefix(events, first, second, count - 1);
        assert((first + second)[count - 1] == first[count - 1]);
    }
}

/// Whether `block` opens an event: it gives a start or a whole day.
pub open spec fn opens(block: EventBlock) -> bool {
    !(block.mark is End)
}

/// The event that `block` opens.
pub open spec fn opened_event(block: EventBlock) -> CalEvent {
    match block.mark {
        EventMark::Start(time) => started_event(block.date, time),
        _ => all_day_event(block.date),
    }
}

/// Filing a block leaves the events under every other title as they were.
pub proof fn lemma_other_titles_stay(
    events: Map<Seq<char>, CalEvent>,
    block: EventBlock,
    title: Seq<char>,
)
    requires
        title != block.title,
        file_block(events, block) is Ok,
    ensures
        file_block(events, block)->Ok_0.contains_key(title) == events.contains_key(title),
        file_block(events, block)->Ok_0[title] == events[title],
{
}

/// Where the first `count` blocks can be filed, so can fewer of them.
pub proof fn lemma_filed_so_far(
    events: Map<Seq<char>, CalEvent>,
    blocks: Seq<EventBlock>,
    fewer: int,
    count: int,
)
    requires
        fewer <= count,
        file_blocks(events, blocks, count) is Ok,
    ensures
        file_blocks(events, blocks, fewer) is Ok,
    decreases count - fewer,
{
    if fewer < count {
        lemma_filed_so_far(events, blocks, fewer, count - 1);
    }
}

/// Once the filing has failed, more blocks do not mend it.
pub proof fn lemma_filing_stays_failed(
    events: Map<Seq<char>, CalEvent>,
    blocks: Seq<EventBlock>,
    count: int,
    more: int,
)
    requires
        count <= more,
        file_blocks(events, blocks, count) is Err,
    ensures
        file_blocks(events, blocks, more) == file_blocks(events, blocks, count),
    decreases more - count,
{
    if count < more {
        lemma_filing_stays_failed(events, blocks, count, more - 1);
    }
}

/// The event under a title stays as it is while blocks under other titles
/// are filed.
pub proof fn lemma_event_stays(
    events: Map<Seq<char>, CalEvent>,
    blocks: Seq<EventBlock>,
    from: int,
    count: int,
    title: Seq<char>,
)
    requires
        0 <= from <= count <= blocks.len(),
        forall|k: int| from <= k < count ==> blocks[k].title != title,
        file_blocks(events, blocks, count) is Ok,
    ensures
        file_blocks(events, blocks, from) is Ok,
        file_blocks(events, blocks, count)->Ok_0.contains_key(title) == file_blocks(
            events,
            blocks,
            from,
        )->Ok_0.contains_key(title),
        file_blocks(events, blocks, count)->Ok_0[title] == file_blocks(
            events,
            blocks,
            from,
        )->Ok_0[title],
    decreases count - from,
{
    if from < count {
        lemma_filed_so_far(events, blocks, count - 1, count);
        lemma_event_stays(events, blocks, from, count - 1, title);
        lemma_other_titles_stay(
            file_blocks(events, blocks, count - 1)->Ok_0,
            blocks[count - 1],
            title,
        );
    }
}

/// An event that block `i` opens stays as it is while blocks under other
/// titles are filed.
pub proof fn lemma_opened_event_stays(
    events: Map<Seq<char>, CalEvent>,
    blocks: Seq<EventBlock>,
    i: int,
    count: int,
)
    requires
        0 <= i < count <= blocks.len(),
        opens(blocks[i]),
        forall|k: int| i < k < count ==> blocks[k].title != blocks[i].title,
        file_blocks(events, blocks, count) is Ok,
    ensures
        file_blocks(events, blocks, count)->Ok_0.contains_key(blocks[i].title),
        file_blocks(events, blocks, count)->Ok_0[blocks[i].title] == opened_event(blocks[i]),
    decreases count,
{
    if count > i + 1 {
        lemma_filed_so_far(events, blocks, count - 1, count);
        lemma_opened_event_stays(events, blocks, i, count - 1);
        lemma_other_titles_stay(
            file_blocks(events, blocks, count - 1)->Ok_0,
            blocks[count - 1],
            blocks[i].title,
        );
    }
}

/// A start and the end that follows it meet in one event.
///
/// Let block `i` open the event `title`, on a day and at a time or for the
/// whole day, and let block `j` be the next block under that title and end
/// it. Once block `j` is filed, the event under the title starts on the day
/// of block `i`, at its time, or at midnight where it took the whole day,
/// and ends on the day and at the time of block `j`.
pub proof fn lemma_end_meets_start(
    events: Map<Seq<char>, CalEvent>,
    blocks: Seq<EventBlock>,
    i: int,
    j: int,
)
    requires
        0 <= i < j < blocks.len(),
        opens(blocks[i]),
        blocks[j].mark is End,
        blocks[j].title == blocks[i].title,
        forall|k: int| i < k < j ==> blocks[k].title != blocks[i].title,
        file_blocks(events, blocks, j) is Ok,
    ensures
        file_blocks(events, blocks, j + 1) is Ok,
        file_blocks(events, blocks, j + 1)->Ok_0.contains_key(blocks[i].title),
        file_blocks(events, blocks, j + 1)->Ok_0[blocks[i].title] == (CalEvent {
            start_time: TimeInterval(
                (
                    blocks[i].date,
                    Some(
                        match blocks[i].mark {
                            EventMark::Start(Some(time)) => time,
                            _ => Time::start_of_day(),
                        },
                    ),
                ),
            ),
            end_time: TimeInterval((blocks[j].date, blocks[j].mark->End_0)),
        }),
{
    lemma_opened_event_stays(events, blocks, i, j);
}

/// An event is only there if it was there before or a block opened it.
pub proof fn lemma_events_were_opened(
    events: Map<Seq<char>, CalEvent>,
    blocks: Seq<EventBlock>,
    count: int,
    title: Seq<char>,
)
    requires
        0 <= count <= blocks.len(),
        file_blocks(events, blocks, count) is Ok,
        file_blocks(events, blocks, count)->Ok_0.contains_key(title),
    ensures
        events.contains_key(title) || exists|k: int|
            0 <= k < count && blocks[k].title == title && opens(#[trigger] blocks[k]),
    decreases count,
{
    if count > 0 {
        lemma_filed_so_far(events, blocks, count - 1, count);
        let before = file_blocks(events, blocks, count - 1)->Ok_0;
        let last = blocks[count - 1];
        if last.title == title && opens(last) {
        } else {
            assert(before.contains_key(title));
            lemma_events_were_opened(events, blocks, count - 1, title);
        }
    }
}

/// An end without a start stops the filing.
///
/// Let block `j` end the event `title`, where no event of that title was
/// there at the outset and no earlier block has opened one. Then the blocks
/// up to and including `j` cannot all be filed; and if those before `j` can,
/// the failure is that of block `j`.
pub proof fn lemma_end_without_start(
    events: Map<Seq<char>, CalEvent>,
    blocks: Seq<EventBlock>,
    j: int,
)
    requires
        0 <= j < blocks.len(),
        blocks[j].mark is End,
        !events.contains_key(blocks[j].title),
        forall|k: int| 0 <= k < j && blocks[k].title == blocks[j].title ==> !opens(blocks[k]),
    ensures
        file_blocks(events, blocks, j + 1) is Err,
        file_blocks(events, blocks, j) is Ok ==> file_blocks(events, blocks, j + 1) == Err::<
            Map<Seq<char>, CalEvent>,
            Failure,
        >(failure_of(blocks[j])),
{
    if file_blocks(events, blocks, j) is Ok {
        let before = file_blocks(events, blocks, j)->Ok_0;
        if before.contains_key(blocks[j].title) {
            lemma_events_were_opened(events, blocks, j, blocks[j].title);
        }
    }
}

} // verus!
