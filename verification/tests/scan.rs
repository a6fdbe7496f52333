use calcu_rs::calendar::{Date, DateTime, Time};
use calcu_rs::markdown::{tokenize, Token};
use calcu_rs::parse::{
    annotated_date, annotated_time, document_name, make_comment, make_todo, parse_comments, parse_one_day,
    parse_schedule, parse_sequence, parse_tasks, record_block, scan_documents, scan_tokens,
    strip_annotations,
};
use calcu_rs::pattern::Matcher;
use calcu_rs::reconcile::{record_all_day, record_end, record_start, ScanError};
use calcu_rs::structs::{
    init_regexes, AllRegexes, CalEvent, Comment, EventMap, Format, Schedule, TimeInterval, ToDo,
    DATETIME_LAYOUT, DATETIME_RE, DATE_LAYOUT, DATE_RE, TIME_LAYOUT, TIME_RE,
};

fn day(year: i32, month: u32, day: u32) -> Date {
    Date::from_ymd_opt(year, month, day).unwrap()
}

fn at(hour: u32, minute: u32) -> Time {
    Time::from_hms_opt(hour, minute, 0).unwrap()
}

fn grammar() -> AllRegexes {
    init_regexes().unwrap()
}

fn scan_page(date: Date, page: &str) -> (Result<(), ScanError>, Schedule) {
    let mut sched = Schedule::new();
    let r = parse_one_day(&date, page, &grammar(), &mut sched);
    (r, sched)
}

fn text(s: &str) -> Token {
    Token::Text(String::from(s))
}

const PAGE: &str = "# Wednesday\n\n- [ ] Buy milk DEADLINE: 2024-06-30 AT: 09:30 AM\n- [x] Water the plants\n- [ ] Call home\n\n> [!NOTE]\n> Felt fine AT: 08:15 PM\n> second line\n\n> [!NOTE]\n> No time given here\n\n> [!IMPORTANT]\n> Dentist ALL DAY\n\n> [!IMPORTANT]\n> Meeting AT: 10:00 AM\n\n> [!IMPORTANT]\n> Meeting END: 11:30 AM\n\n> A plain quote AT: 01:00 PM\n";

#[test]
fn check_file_parser_single() {
    let date = day(2024, 6, 19);
    let all_regexes = init_regexes().unwrap();
    let mut sched = Schedule::new();

    assert!(parse_one_day(&date, PAGE, &all_regexes, &mut sched).is_ok());
    println!("{:#?}", sched);
}

#[test]
fn check_file_parser_range() {
    let start_date = day(2024, 6, 1);
    let end_date = day(2024, 6, 30);
    let mut documents: Vec<Option<String>> = Vec::new();
    for i in 0..29 {
        documents.push(if i % 3 == 0 { Some(String::from(PAGE)) } else { None });
    }

    let sched = parse_sequence(&start_date, &end_date, &documents);
    println!("{:#?}", sched);
}

#[test]
fn page_yields_its_todos() {
    let (r, sched) = scan_page(day(2024, 6, 19), PAGE);
    assert_eq!(r, Ok(()));
    assert_eq!(
        sched.tbd_todos,
        vec![
            ToDo {
                date: day(2024, 6, 19),
                time_of_write: Some(at(9, 30)),
                todo: String::from("Buy milk  "),
                deadline: Some(day(2024, 6, 30)),
            },
            ToDo {
                date: day(2024, 6, 19),
                time_of_write: None,
                todo: String::from("Call home"),
                deadline: None,
            },
        ]
    );
}

#[test]
fn page_yields_its_comments() {
    let (_, sched) = scan_page(day(2024, 6, 19), PAGE);
    assert_eq!(
        sched.comments,
        vec![Comment {
            time_of_write: DateTime { date: day(2024, 6, 19), time: at(20, 15) },
            comment: String::from("Felt fine \nsecond line\n"),
        }]
    );
}

#[test]
fn page_yields_its_events() {
    let (_, sched) = scan_page(day(2024, 6, 19), PAGE);
    let d = day(2024, 6, 19);
    assert_eq!(sched.events.len(), 2);
    assert_eq!(
        sched.events.get("Dentist"),
        Some(CalEvent { start_time: TimeInterval((d, None)), end_time: TimeInterval((d, None)) })
    );
    assert_eq!(
        sched.events.get("Meeting"),
        Some(CalEvent {
            start_time: TimeInterval((d, Some(at(10, 0)))),
            end_time: TimeInterval((d, Some(at(11, 30)))),
        })
    );
    assert_eq!(sched.events.get("A plain quote"), None);
}

#[test]
fn all_day_event_has_one_date_and_no_time() {
    let (r, sched) = scan_page(day(2024, 3, 7), "> [!IMPORTANT]\n> Dentist ALL DAY\n");
    assert_eq!(r, Ok(()));
    let event = sched.events.get("Dentist").unwrap();
    assert_eq!(event.start_time, TimeInterval((day(2024, 3, 7), None)));
    assert_eq!(event.end_time, TimeInterval((day(2024, 3, 7), None)));
    assert_eq!(event.start_time.date(), event.end_time.date());
    assert_eq!(event.start_time.time(), None);
    assert_eq!(event.end_time.time(), None);
    assert_eq!(sched.events.len(), 1);
    assert!(sched.comments.is_empty());
    assert!(sched.tbd_todos.is_empty());
}

#[test]
fn start_without_end_has_no_end_time() {
    let (_, sched) = scan_page(day(2024, 3, 7), "> [!IMPORTANT]\n> Standup AT: 09:00 AM\n");
    assert_eq!(
        sched.events.get("Standup"),
        Some(CalEvent {
            start_time: TimeInterval((day(2024, 3, 7), Some(at(9, 0)))),
            end_time: TimeInterval((day(2024, 3, 7), None)),
        })
    );
}

#[test]
fn start_comes_before_all_day_and_end() {
    let (_, sched) =
        scan_page(day(2024, 3, 7), "> [!IMPORTANT]\n> Fair ALL DAY AT: 09:00 AM END: 05:00 PM\n");
    assert_eq!(
        sched.events.get("Fair ALL DAY  END: 05:00 PM"),
        Some(CalEvent {
            start_time: TimeInterval((day(2024, 3, 7), Some(at(9, 0)))),
            end_time: TimeInterval((day(2024, 3, 7), None)),
        })
    );
    assert_eq!(sched.events.len(), 1);
}

#[test]
fn all_day_comes_before_end() {
    let (r, sched) = scan_page(day(2024, 3, 7), "> [!IMPORTANT]\n> Fair END: 05:00 PM ALL DAY\n");
    assert_eq!(r, Ok(()));
    assert_eq!(
        sched.events.get("Fair END: 05:00 PM"),
        Some(CalEvent {
            start_time: TimeInterval((day(2024, 3, 7), None)),
            end_time: TimeInterval((day(2024, 3, 7), None)),
        })
    );
}

#[test]
fn important_block_without_annotation_changes_nothing() {
    let (r, sched) = scan_page(day(2024, 3, 7), "> [!IMPORTANT]\n> Just a remark\n");
    assert_eq!(r, Ok(()));
    assert_eq!(sched.events.len(), 0);
}

#[test]
fn end_on_a_later_day_completes_the_event() {
    let documents = vec![
        Some(String::from("> [!IMPORTANT]\n> Trip AT: 07:45 AM\n")),
        None,
        Some(String::from("> [!IMPORTANT]\n> Trip END: 06:20 PM\n")),
    ];
    let sched = parse_sequence(&day(2024, 6, 1), &day(2024, 6, 4), &documents).unwrap();
    assert_eq!(
        sched.events.get("Trip"),
        Some(CalEvent {
            start_time: TimeInterval((day(2024, 6, 1), Some(at(7, 45)))),
            end_time: TimeInterval((day(2024, 6, 3), Some(at(18, 20)))),
        })
    );
    assert_eq!(sched.events.len(), 1);
}

#[test]
fn end_of_an_all_day_event_sets_its_start_to_midnight() {
    let documents = vec![
        Some(String::from("> [!IMPORTANT]\n> Fair ALL DAY\n")),
        Some(String::from("> [!IMPORTANT]\n> Fair END: 04:00 PM\n")),
    ];
    let sched = parse_sequence(&day(2024, 6, 1), &day(2024, 6, 3), &documents).unwrap();
    assert_eq!(
        sched.events.get("Fair"),
        Some(CalEvent {
            start_time: TimeInterval((day(2024, 6, 1), Some(Time::midnight()))),
            end_time: TimeInterval((day(2024, 6, 2), Some(at(16, 0)))),
        })
    );
}

#[test]
fn end_without_start_is_fatal() {
    let (r, sched) = scan_page(day(2024, 6, 19), "- [ ] First\n\n> [!IMPORTANT]\n> Meeting END: 11:30 AM\n\n- [ ] Never read\n");
    assert_eq!(
        r,
        Err(ScanError::EndWithoutStart {
            title: String::from("Meeting"),
            content: String::from("Meeting END: 11:30 AM"),
        })
    );
    assert_eq!(sched.events.len(), 0);
    assert_eq!(sched.tbd_todos.len(), 1);
}

#[test]
fn end_without_start_returns_no_schedule() {
    let documents = vec![
        Some(String::from("- [ ] Fine\n")),
        Some(String::from("> [!IMPORTANT]\n> Meeting END: 11:30 AM\n")),
        Some(String::from("- [ ] Later\n")),
    ];
    let r = parse_sequence(&day(2024, 6, 1), &day(2024, 6, 4), &documents);
    assert_eq!(
        r.err(),
        Some(ScanError::EndWithoutStart {
            title: String::from("Meeting"),
            content: String::from("Meeting END: 11:30 AM"),
        })
    );
}

#[test]
fn end_under_another_title_is_fatal() {
    let (r, _) = scan_page(
        day(2024, 6, 19),
        "> [!IMPORTANT]\n> Meeting AT: 10:00 AM\n\n> [!IMPORTANT]\n> Meeting  END: 11:30 AM\n",
    );
    assert_eq!(r, Ok(()));
    let (r, _) = scan_page(
        day(2024, 6, 19),
        "> [!IMPORTANT]\n> Meeting AT: 10:00 AM\n\n> [!IMPORTANT]\n> meeting END: 11:30 AM\n",
    );
    assert_eq!(
        r,
        Err(ScanError::EndWithoutStart {
            title: String::from("meeting"),
            content: String::from("meeting END: 11:30 AM"),
        })
    );
}

#[test]
fn second_start_replaces_the_event() {
    let (_, sched) = scan_page(
        day(2024, 6, 19),
        "> [!IMPORTANT]\n> Meeting AT: 10:00 AM\n\n> [!IMPORTANT]\n> Meeting AT: 02:00 PM\n",
    );
    assert_eq!(sched.events.len(), 1);
    assert_eq!(sched.events.get("Meeting").unwrap().start_time.time(), Some(at(14, 0)));
}

#[test]
fn note_without_time_is_dropped() {
    let (r, sched) = scan_page(day(2024, 6, 19), "> [!NOTE]\n> Nothing to date this\n");
    assert_eq!(r, Ok(()));
    assert_eq!(sched.comments.len(), 0);
}

#[test]
fn only_notes_with_a_time_are_counted() {
    let (_, sched) = scan_page(
        day(2024, 6, 19),
        "> [!NOTE]\n> One AT: 01:00 PM\n\n> [!NOTE]\n> Two\n\n> [!NOTE]\n> Three AT: 03:00 PM\n",
    );
    assert_eq!(sched.comments.len(), 2);
    assert_eq!(sched.comments[0].comment, "One \n");
    assert_eq!(sched.comments[1].comment, "Three \n");
}

#[test]
fn note_with_unreadable_time_is_written_at_midnight() {
    let (_, sched) = scan_page(day(2024, 6, 19), "> [!NOTE]\n> Odd AT: 99:99 AM\n");
    assert_eq!(
        sched.comments,
        vec![Comment {
            time_of_write: DateTime { date: day(2024, 6, 19), time: Time::midnight() },
            comment: String::from("Odd \n"),
        }]
    );
}

#[test]
fn other_quotes_are_passed_over() {
    let (r, sched) = scan_page(
        day(2024, 6, 19),
        "> [!TIP]\n> Tip AT: 01:00 PM\n\n> [!WARNING]\n> Careful ALL DAY\n\n> Plain END: 01:00 PM\n",
    );
    assert_eq!(r, Ok(()));
    assert_eq!(sched.comments.len(), 0);
    assert_eq!(sched.events.len(), 0);
}

#[test]
fn ticked_tasks_are_not_collected() {
    let (_, sched) = scan_page(day(2024, 6, 19), "- [x] Done DEADLINE: 2024-06-30\n- [X] Also done\n");
    assert!(sched.tbd_todos.is_empty());
}

#[test]
fn todo_text_is_the_line_without_its_annotations() {
    let (_, sched) = scan_page(
        day(2024, 6, 19),
        "- [ ] AT: 07:00 AM Pay rent DEADLINE: 2024-07-01 today\n",
    );
    assert_eq!(sched.tbd_todos.len(), 1);
    assert_eq!(sched.tbd_todos[0].todo, " Pay rent  today");
    assert_eq!(sched.tbd_todos[0].deadline, Some(day(2024, 7, 1)));
    assert_eq!(sched.tbd_todos[0].time_of_write, Some(at(7, 0)));
}

#[test]
fn todo_with_unreadable_deadline_has_none() {
    let (r, sched) = scan_page(day(2024, 6, 19), "- [ ] Call DEADLINE: 2024-13-45\n");
    assert_eq!(r, Ok(()));
    assert_eq!(
        sched.tbd_todos,
        vec![ToDo {
            date: day(2024, 6, 19),
            time_of_write: None,
            todo: String::from("Call "),
            deadline: None,
        }]
    );
}

#[test]
fn todo_with_unreadable_time_has_none() {
    let (_, sched) = scan_page(day(2024, 6, 19), "- [ ] Call AT: 00:30 AM\n");
    assert_eq!(sched.tbd_todos[0].time_of_write, None);
    assert_eq!(sched.tbd_todos[0].todo, "Call ");
}

#[test]
fn missing_day_is_passed_over() {
    let documents = vec![Some(String::from("- [ ] One\n")), None, Some(String::from("- [ ] Three\n"))];
    let sched = parse_sequence(&day(2024, 6, 1), &day(2024, 6, 4), &documents).unwrap();
    assert_eq!(sched.tbd_todos.len(), 2);
    assert_eq!(sched.tbd_todos[0].date, day(2024, 6, 1));
    assert_eq!(sched.tbd_todos[1].date, day(2024, 6, 3));
}

#[test]
fn range_without_pages_is_empty() {
    let sched = parse_sequence(&day(2024, 6, 1), &day(2024, 6, 4), &vec![None, None, None]).unwrap();
    assert_eq!(sched.events.len(), 0);
    assert!(sched.comments.is_empty());
    assert!(sched.tbd_todos.is_empty());
    let sched = parse_sequence(&day(2024, 6, 1), &day(2024, 6, 4), &Vec::new()).unwrap();
    assert!(sched.tbd_todos.is_empty());
}

#[test]
fn range_stops_before_its_end_date() {
    let documents = vec![
        Some(String::from("- [ ] First\n")),
        Some(String::from("- [ ] Second\n")),
        Some(String::from("- [ ] Third\n")),
    ];
    let sched = parse_sequence(&day(2024, 6, 1), &day(2024, 6, 3), &documents).unwrap();
    let dates: Vec<Date> = sched.tbd_todos.iter().map(|todo| todo.date).collect();
    assert_eq!(dates, vec![day(2024, 6, 1), day(2024, 6, 2)]);
    assert_eq!(sched.tbd_todos[1].todo, "Second");
}

#[test]
fn scan_documents_uses_the_matchers_it_is_given() {
    let regexes = AllRegexes {
        deadline: Matcher::new("BY: [0-9]{4}-[0-9]{2}-[0-9]{2}").unwrap(),
        at_time: Matcher::new("ON: [0-9]{2}:[0-9]{2} [AP]M").unwrap(),
        end: Matcher::new("TILL: [0-9]{2}:[0-9]{2} [AP]M").unwrap(),
        all_day: Matcher::new("WHOLE DAY").unwrap(),
    };
    let documents = vec![Some(String::from("- [ ] Pay BY: 2024-07-01 AT: 09:00 AM\n"))];
    let sched = scan_documents(&day(2024, 6, 1), &day(2024, 6, 2), &documents, &regexes).unwrap();
    assert_eq!(sched.tbd_todos[0].todo, "Pay  AT: 09:00 AM");
    assert_eq!(sched.tbd_todos[0].deadline, Some(day(2024, 7, 1)));
    assert_eq!(sched.tbd_todos[0].time_of_write, None);
}

#[test]
fn tokens_of_a_page() {
    let tokens = tokenize("- [ ] Buy milk\n\n> [!NOTE]\n> Hello\n");
    let kept: Vec<Token> = tokens.into_iter().filter(|token| *token != Token::Other).collect();
    assert_eq!(
        kept,
        vec![
            Token::TaskMarker(false),
            text("Buy milk"),
            Token::NoteStart,
            text("Hello"),
            Token::QuoteEnd,
        ]
    );
}

#[test]
fn tokens_tell_ticked_boxes_and_kinds_of_quotes() {
    let tokens = tokenize("- [x] Done\n\n> [!IMPORTANT]\n> A\n\n> B\n");
    let kept: Vec<Token> = tokens.into_iter().filter(|token| *token != Token::Other).collect();
    assert_eq!(
        kept,
        vec![
            Token::TaskMarker(true),
            text("Done"),
            Token::ImportantStart,
            text("A"),
            Token::QuoteEnd,
            text("B"),
            Token::QuoteEnd,
        ]
    );
}

#[test]
fn scan_tokens_reads_a_quote_that_is_not_closed() {
    let tokens = vec![Token::NoteStart, text("Open AT: 01:00 PM"), Token::Other, text("more")];
    let mut sched = Schedule::new();
    let r = scan_tokens(&day(2024, 6, 19), &tokens, &grammar(), &mut sched);
    assert_eq!(r, Ok(()));
    assert_eq!(sched.comments.len(), 1);
    assert_eq!(sched.comments[0].comment, "Open \nmore\n");
    assert_eq!(sched.comments[0].time_of_write.time, at(13, 0));
}

#[test]
fn scan_tokens_takes_a_task_only_from_a_text() {
    let tokens = vec![Token::TaskMarker(false), Token::Other, text("Not a task"), Token::TaskMarker(false)];
    let mut sched = Schedule::new();
    assert_eq!(scan_tokens(&day(2024, 6, 19), &tokens, &grammar(), &mut sched), Ok(()));
    assert!(sched.tbd_todos.is_empty());
}

#[test]
fn parse_tasks_reads_the_token_at_its_place() {
    let g = grammar();
    let tokens = vec![Token::TaskMarker(false), text("Post letter DEADLINE: 2024-06-21")];
    let mut tbd = Vec::new();
    parse_tasks(&mut tbd, &tokens, 1, &g.deadline, &g.at_time, &day(2024, 6, 19));
    parse_tasks(&mut tbd, &tokens, 0, &g.deadline, &g.at_time, &day(2024, 6, 19));
    parse_tasks(&mut tbd, &tokens, 2, &g.deadline, &g.at_time, &day(2024, 6, 19));
    assert_eq!(
        tbd,
        vec![ToDo {
            date: day(2024, 6, 19),
            time_of_write: None,
            todo: String::from("Post letter "),
            deadline: Some(day(2024, 6, 21)),
        }]
    );
}

#[test]
fn parse_comments_stops_at_the_end_of_the_quote() {
    let g = grammar();
    let tokens = vec![Token::NoteStart, text("a"), Token::Other, text("b AT: 12:05 AM"), Token::QuoteEnd, text("c")];
    let mut comments = Vec::new();
    let next = parse_comments(&day(2024, 6, 19), &mut comments, &g.at_time, &tokens, 1);
    assert_eq!(next, 4);
    assert_eq!(
        comments,
        vec![Comment {
            time_of_write: DateTime { date: day(2024, 6, 19), time: at(0, 5) },
            comment: String::from("a\nb \n"),
        }]
    );
    assert_eq!(parse_comments(&day(2024, 6, 19), &mut comments, &g.at_time, &tokens, 7), 7);
    assert_eq!(comments.len(), 1);
}

#[test]
fn parse_schedule_trims_each_line_and_the_title() {
    let g = grammar();
    let tokens = vec![text("Team  \t"), Token::Other, text("lunch AT: 12:30 PM  "), Token::QuoteEnd];
    let mut events = EventMap::new();
    let r = parse_schedule(&mut events, &g.at_time, &g.end, &g.all_day, &tokens, 0, &day(2024, 6, 19));
    assert_eq!(r, Ok(3));
    assert_eq!(events.titles(), vec![String::from("Team\nlunch")]);
    assert_eq!(events.get("Team\nlunch").unwrap().start_time.time(), Some(at(12, 30)));
}

#[test]
fn record_block_follows_the_annotation_it_is_given() {
    let mut events = EventMap::new();
    let d = day(2024, 6, 19);
    let none: Option<String> = None;
    let start = Some(String::from("AT: 10:00 AM"));
    let end = Some(String::from("END: 11:00 AM"));
    let whole = Some(String::from("ALL DAY"));
    assert_eq!(
        record_block(&mut events, &d, "Lunch END: 11:00 AM \n", &none, &none, &end),
        Err(ScanError::EndWithoutStart {
            title: String::from("Lunch"),
            content: String::from("Lunch END: 11:00 AM \n"),
        })
    );
    assert_eq!(events.len(), 0);
    assert_eq!(record_block(&mut events, &d, "Lunch AT: 10:00 AM", &start, &none, &none), Ok(()));
    assert_eq!(record_block(&mut events, &d, "Lunch END: 11:00 AM", &none, &none, &end), Ok(()));
    assert_eq!(record_block(&mut events, &d, "Fair ALL DAY", &none, &whole, &none), Ok(()));
    assert_eq!(record_block(&mut events, &d, "Nothing", &none, &none, &none), Ok(()));
    assert_eq!(events.len(), 2);
    assert_eq!(
        events.get("Lunch"),
        Some(CalEvent {
            start_time: TimeInterval((d, Some(at(10, 0)))),
            end_time: TimeInterval((d, Some(at(11, 0)))),
        })
    );
    assert!(events.contains_key("Fair"));
}

#[test]
fn record_start_all_day_and_end() {
    let mut events = EventMap::new();
    let d1 = day(2024, 6, 1);
    let d2 = day(2024, 6, 2);
    record_start(&mut events, String::from("A"), &d1, Some(at(9, 0)));
    record_all_day(&mut events, String::from("B"), &d1);
    assert_eq!(record_end(&mut events, String::from("A"), &d2, Some(at(10, 0))), Ok(()));
    assert_eq!(record_end(&mut events, String::from("B"), &d2, None), Ok(()));
    assert_eq!(
        record_end(&mut events, String::from("C"), &d2, Some(at(12, 0))),
        Err(String::from("C"))
    );
    assert_eq!(
        events.get("A"),
        Some(CalEvent {
            start_time: TimeInterval((d1, Some(at(9, 0)))),
            end_time: TimeInterval((d2, Some(at(10, 0)))),
        })
    );
    assert_eq!(
        events.get("B"),
        Some(CalEvent {
            start_time: TimeInterval((d1, Some(at(0, 0)))),
            end_time: TimeInterval((d2, None)),
        })
    );
    assert_eq!(events.get("C"), None);
    assert_eq!(events.len(), 2);
}

#[test]
fn event_map_keeps_one_event_per_title() {
    let mut events = EventMap::new();
    let d = day(2024, 6, 1);
    let first = CalEvent { start_time: TimeInterval((d, None)), end_time: TimeInterval((d, None)) };
    let second = CalEvent { start_time: TimeInterval((d, Some(at(1, 0)))), end_time: TimeInterval((d, None)) };
    assert_eq!(events.len(), 0);
    assert!(!events.contains_key("x"));
    events.insert(String::from("x"), first);
    events.insert(String::from("y"), first);
    events.insert(String::from("x"), second);
    assert_eq!(events.len(), 2);
    assert_eq!(events.get("x"), Some(second));
    assert_eq!(events.get("y"), Some(first));
    let mut titles = events.titles();
    titles.sort();
    assert_eq!(titles, vec![String::from("x"), String::from("y")]);
}

#[test]
fn strip_annotations_removes_what_was_found() {
    let deadline = Some(String::from("DEADLINE: 2024-06-30"));
    let time = Some(String::from("AT: 09:30 AM"));
    let none: Option<String> = None;
    let line = "Buy milk DEADLINE: 2024-06-30 AT: 09:30 AM";
    assert_eq!(strip_annotations(line, &deadline, &time), "Buy milk  ");
    assert_eq!(strip_annotations(line, &deadline, &none), "Buy milk  AT: 09:30 AM");
    assert_eq!(strip_annotations(line, &none, &time), "Buy milk DEADLINE: 2024-06-30 ");
    assert_eq!(strip_annotations(line, &none, &none), line);
}

#[test]
fn strip_annotations_can_leave_an_annotation_behind() {
    let time = Some(String::from("AT: 09:30 AM"));
    let none: Option<String> = None;
    assert_eq!(strip_annotations("AT: 0AT: 09:30 AM9:30 AM", &none, &time), "AT: 09:30 AM");
    let (_, sched) = scan_page(day(2024, 6, 19), "- [ ] AT: 0AT: 09:30 AM9:30 AM\n");
    assert_eq!(sched.tbd_todos[0].todo, "AT: 09:30 AM");
}

#[test]
fn make_todo_reads_the_values_of_its_annotations() {
    let deadline = Some(String::from("DEADLINE: 2024-02-29"));
    let time = Some(String::from("AT: 12:00 PM"));
    let todo = make_todo(&day(2024, 1, 1), "x DEADLINE: 2024-02-29 AT: 12:00 PM", &deadline, &time);
    assert_eq!(
        todo,
        ToDo {
            date: day(2024, 1, 1),
            time_of_write: Some(at(12, 0)),
            todo: String::from("x  "),
            deadline: Some(day(2024, 2, 29)),
        }
    );
}

#[test]
fn make_comment_needs_a_time_annotation() {
    let none: Option<String> = None;
    assert_eq!(make_comment(&day(2024, 1, 1), "body\n", &none), None);
    let time = Some(String::from("AT: 11:59 PM"));
    assert_eq!(
        make_comment(&day(2024, 1, 1), "body AT: 11:59 PM\n", &time),
        Some(Comment {
            time_of_write: DateTime { date: day(2024, 1, 1), time: at(23, 59) },
            comment: String::from("body \n"),
        })
    );
}

#[test]
fn annotated_date_reads_year_month_day() {
    assert_eq!(annotated_date("DEADLINE: 2024-06-30"), Some(day(2024, 6, 30)));
    assert_eq!(annotated_date("DEADLINE: 2023-02-29"), None);
    assert_eq!(annotated_date("DEADLINE: 2024-00-10"), None);
    assert_eq!(annotated_date("DEADLINE 2024-06-30"), None);
    assert_eq!(annotated_date("DEADLINE: soon"), None);
}

#[test]
fn annotated_time_reads_the_twelve_hour_clock() {
    assert_eq!(annotated_time("AT: 09:30 AM"), Some(at(9, 30)));
    assert_eq!(annotated_time("AT: 09:30 PM"), Some(at(21, 30)));
    assert_eq!(annotated_time("END: 12:00 AM"), Some(at(0, 0)));
    assert_eq!(annotated_time("END: 12:00 PM"), Some(at(12, 0)));
    assert_eq!(annotated_time("AT: 13:00 PM"), None);
    assert_eq!(annotated_time("AT: 09:60 AM"), None);
    assert_eq!(annotated_time("ALL DAY"), None);
}

#[test]
fn matcher_finds_the_first_match() {
    let m = Matcher::new(TIME_RE).unwrap();
    assert_eq!(m.find("from 09:30 AM to 10:45 PM"), Some(String::from("09:30 AM")));
    assert_eq!(m.find("09:30 AM"), Some(String::from("09:30 AM")));
    assert_eq!(m.find("9:30 AM"), None);
    assert_eq!(m.find(""), None);
}

#[test]
fn matcher_refuses_a_pattern_that_does_not_compile() {
    let r = Matcher::new("[0-9");
    assert_eq!(r.err().map(|e| e.pattern), Some(String::from("[0-9")));
}

#[test]
fn grammar_finds_each_annotation() {
    let g = grammar();
    let line = "x DEADLINE: 2024-06-30 AT: 09:30 AM END: 10:00 PM ALL DAY";
    assert_eq!(g.deadline.find(line), Some(String::from("DEADLINE: 2024-06-30")));
    assert_eq!(g.at_time.find(line), Some(String::from("AT: 09:30 AM")));
    assert_eq!(g.end.find(line), Some(String::from("END: 10:00 PM")));
    assert_eq!(g.all_day.find(line), Some(String::from("ALL DAY")));
    assert_eq!(g.deadline.find("DEADLINE: 24-06-30"), None);
    assert_eq!(g.at_time.find("AT: 9:30 AM"), None);
    assert_eq!(g.end.find("END: 10:00 pm"), None);
    assert_eq!(g.all_day.find("all day"), None);
}

#[test]
fn formats_pair_pattern_and_layout() {
    assert_eq!(Format::time().re, "[0-9]{2}:[0-9]{2} [AP]M");
    assert_eq!(Format::time().fmt, "%I:%M %p");
    assert_eq!(Format::date().re, "[0-9]{4}-[0-9]{2}-[0-9]{2}");
    assert_eq!(Format::date().fmt, "%Y-%m-%d");
    assert_eq!(Format::datetime().re, "[0-9]{4}-[0-9]{2}-[0-9]{2} [0-9]{2}:[0-9]{2} [AP]M");
    assert_eq!(Format::datetime().fmt, "%Y-%m-%d %I:%M %p");
    assert_eq!((TIME_RE, TIME_LAYOUT), (Format::time().re, Format::time().fmt));
    assert_eq!((DATE_RE, DATE_LAYOUT), (Format::date().re, Format::date().fmt));
    assert_eq!((DATETIME_RE, DATETIME_LAYOUT), (Format::datetime().re, Format::datetime().fmt));
}

#[test]
fn document_name_is_the_day_and_md() {
    assert_eq!(document_name(&day(2024, 6, 1)), Some(String::from("2024-06-01.md")));
    assert_eq!(document_name(&day(987, 12, 31)), Some(String::from("0987-12-31.md")));
    assert_eq!(document_name(&day(12345, 1, 2)), Some(String::from("+12345-01-02.md")));
    assert_eq!(document_name(&day(-44, 3, 15)), Some(String::from("-0044-03-15.md")));
}

#[test]
fn event_with_unreadable_start_time_has_none() {
    let (r, sched) = scan_page(day(2024, 3, 7), "> [!IMPORTANT]\n> Odd AT: 99:99 AM\n");
    assert_eq!(r, Ok(()));
    assert_eq!(
        sched.events.get("Odd"),
        Some(CalEvent {
            start_time: TimeInterval((day(2024, 3, 7), None)),
            end_time: TimeInterval((day(2024, 3, 7), None)),
        })
    );
}

#[test]
fn event_with_unreadable_end_time_has_none() {
    let (r, sched) = scan_page(
        day(2024, 3, 7),
        "> [!IMPORTANT]\n> Odd AT: 10:00 AM\n\n> [!IMPORTANT]\n> Odd END: 00:00 PM\n",
    );
    assert_eq!(r, Ok(()));
    assert_eq!(
        sched.events.get("Odd"),
        Some(CalEvent {
            start_time: TimeInterval((day(2024, 3, 7), Some(at(10, 0)))),
            end_time: TimeInterval((day(2024, 3, 7), None)),
        })
    );
}

#[test]
fn end_after_an_unreadable_start_sets_the_start_to_midnight() {
    let (_, sched) = scan_page(
        day(2024, 3, 7),
        "> [!IMPORTANT]\n> Odd AT: 99:99 AM\n\n> [!IMPORTANT]\n> Odd END: 05:00 PM\n",
    );
    assert_eq!(
        sched.events.get("Odd"),
        Some(CalEvent {
            start_time: TimeInterval((day(2024, 3, 7), Some(Time::midnight()))),
            end_time: TimeInterval((day(2024, 3, 7), Some(at(17, 0)))),
        })
    );
}

#[test]
fn grammar_compiles() {
    assert!(init_regexes().is_ok());
    assert!(Matcher::new("DEADLINE: [0-9]{4}-[0-9]{2}-[0-9]{2}").is_ok());
    assert!(Matcher::new("AT: [0-9]{2}:[0-9]{2} [AP]M").is_ok());
    assert!(Matcher::new("END: [0-9]{2}:[0-9]{2} [AP]M").is_ok());
    assert!(Matcher::new("ALL DAY").is_ok());
}

#[test]
fn matcher_compiles_what_the_regex_crate_compiles() {
    for pattern in ["", "a", "[0-9]{2}", "(a|b)*c", "(", "[0-9", "a{2,1}", "\\", "\\d+", "*"] {
        assert_eq!(Matcher::new(pattern).is_ok(), regex::Regex::new(pattern).is_ok(), "{pattern:?}");
    }
}
