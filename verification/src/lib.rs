//! Turns a journal of daily markdown pages into to-dos, calendar events and
//! timestamped comments.
//!
//! A page is read as markdown. A task-list item whose box is not ticked is a
//! to-do; a block quote marked as a note is a comment, if it says when it was
//! written; a block quote marked as important tells of an event: that it
//! starts, takes the whole day, or ends. Start and end of an event may stand
//! on different pages and meet under the event's title.
//!
//! - [`calendar`]: days and times of day.
//! - [`text`]: the operations on text that the scanner needs.
//! - [`pattern`]: compiled search patterns.
//! - [`markdown`]: a page as a run of tokens.
//! - [`structs`]: the records, the schedule, and the annotation grammar.
//! - [`reconcile`]: how event blocks are filed and meet under a title.
//! - [`parse`]: the scan of a day and of a range of days.
//! - [`config`]: the settings of the program around the scanner.

pub mod calendar;
pub mod config;
pub mod markdown;
pub mod parse;
pub mod pattern;
pub mod reconcile;
pub mod structs;
pub mod text;
