//! What the user can set: where the journal lies, from which day on it is
//! read, and how each table is drawn.

use crate::calendar::{lemma_date_of, Date};
use vstd::prelude::*;
use vstd::string::StringExecFns;

verus! {

/// The frame a table is drawn with.
#[derive(Debug, Clone, Copy, PartialEq, Eq, Structural)]
pub enum TableStyle {
    Empty,
    Extended,
    Blank,
    Ascii,
    Psql,
    MarkDown,
    Modern,
    Sharp,
    Rounded,
    ModernRounded,
    Rst,
    Dots,
    AsciiRounded,
}

/// Where the text of a cell stands in its column.
#[derive(Debug, Clone, Copy, PartialEq, Eq, Structural)]
pub enum Alignment {
    Center,
    Left,
    Right,
}

/// How the table of tasks is drawn.
#[derive(Debug, Clone, Copy)]
pub struct TodoConfig {
    pub table_style: TableStyle,
    pub margins: (usize, usize, usize, usize),
    pub alignment: Alignment,
}

/// How the table of events is drawn.
#[derive(Debug, Clone, Copy)]
pub struct ScheduleConfig {
    pub table_style: TableStyle,
    pub margins: (usize, usize, usize, usize),
    pub alignment: Alignment,
}

/// How the table of comments is drawn.
#[derive(Debug, Clone, Copy)]
pub struct CommentConfig {
    pub table_style: TableStyle,
    pub margins: (usize, usize, usize, usize),
    pub alignment: Alignment,
}

impl Default for TodoConfig {
    /// A table without a frame and without margins, its cells centred.
    fn default() -> (r: TodoConfig)
        ensures
            r.table_style == TableStyle::Empty,
            r.margins == (0usize, 0usize, 0usize, 0usize),
            r.alignment == Alignment::Center,
    {
        TodoConfig {
            table_style: TableStyle::Empty,
            margins: (0, 0, 0, 0),
            alignment: Alignment::Center,
        }
    }
}

impl Default for ScheduleConfig {
    /// A table without a frame and without margins, its cells centred.
    fn default() -> (r: ScheduleConfig)
        ensures
            r.table_style == TableStyle::Empty,
            r.margins == (0usize, 0usize, 0usize, 0usize),
            r.alignment == Alignment::Center,
    {
        ScheduleConfig {
            table_style: TableStyle::Empty,
            margins: (0, 0, 0, 0),
            alignment: Alignment::Center,
        }
    }
}

impl Default for CommentConfig {
    /// A table without a frame and without margins, its cells centred.
    fn default() -> (r: CommentConfig)
        ensures
            r.table_style == TableStyle::Empty,
            r.margins == (0usize, 0usize, 0usize, 0usize),
            r.alignment == Alignment::Center,
    {
        CommentConfig {
            table_style: TableStyle::Empty,
            margins: (0, 0, 0, 0),
            alignment: Alignment::Center,
        }
    }
}

/// The whole configuration.
#[derive(Debug, Clone)]
pub struct UpperConfig {
    /// The folder that holds the journal's pages.
    pub notes_folder: String,
    /// The first day that is read where the caller names none.
    pub start_date: Date,
    pub todos: TodoConfig,
    pub schedule: ScheduleConfig,
    pub comments: CommentConfig,
}

impl UpperConfig {
    /// The configuration with the given tables, the journal in `~/notes`,
    /// read from 14 January 2001 on.
    pub fn with_tables(todos: TodoConfig, schedule: ScheduleConfig, comments: CommentConfig) -> (r:
        UpperConfig)
        ensures
            r.notes_folder@ == "~/notes"@,
            r.start_date == Date::of(2001, 1, 14),
            r.start_date.year() == 2001 && r.start_date.month() == 1 && r.start_date.day() == 14,
            r.todos == todos,
            r.schedule == schedule,
            r.comments == comments,
    {
        let start_date = Date::from_ymd_opt(2001, 1, 14).unwrap();
        proof {
            lemma_date_of(2001, 1, 14);
        }
        UpperConfig {
            notes_folder: String::from_str("~/notes"),
            start_date,
            todos,
            schedule,
            comments,
        }
    }
}

/// The folder of configuration files, chosen from what the environment
/// gives: the program's own home if it is set, else the user's configuration
/// folder, else `.config` under the user's home, else `.config` under
/// `/home` and the user's name. `None` where none of the four is set.
pub open spec fn config_dir(
    own_home: Option<Seq<char>>,
    xdg_config: Option<Seq<char>>,
    home: Option<Seq<char>>,
    user: Option<Seq<char>>,
) -> Option<Seq<char>> {
    if let Some(dir) = own_home {
        Some(dir)
    } else if let Some(dir) = xdg_config {
        Some(dir)
    } else if let Some(dir) = home {
        Some(dir + "/.config"@)
    } else if let Some(name) = user {
        Some("/home/"@ + name + "/.config"@)
    } else {
        None
    }
}

/// The view of an optional text slice.
pub open spec fn slice_view(text: Option<&str>) -> Option<Seq<char>> {
    match text {
        Some(t) => Some(t@),
        None => None,
    }
}

/// The path of the configuration file: `calcurs/config.toml` under the
/// folder of configuration files. The four arguments are the values of
/// `CALCU_RS_HOME`, `XDG_CONFIG`, `HOME` and `USER`, each `None` where it is
/// not set.
pub fn get_config_path(
    own_home: Option<&str>,
    xdg_config: Option<&str>,
    home: Option<&str>,
    user: Option<&str>,
) -> (r: Option<String>)
    ensures
        match config_dir(
            slice_view(own_home),
            slice_view(xdg_config),
            slice_view(home),
            slice_view(user),
        ) {
            Some(dir) => r matches Some(path) && path@ == dir + "/calcurs/config.toml"@,
            None => r is None,
        },
{
    let mut path = if let Some(dir) = own_home {
        String::from_str(dir)
    } else if let Some(dir) = xdg_config {
        String::from_str(dir)
    } else if let Some(dir) = home {
        let mut under_home = String::from_str(dir);
        under_home.append("/.config");
        under_home
    } else if let Some(name) = user {
        let mut under_home = String::from_str("/home/");
        under_home.append(name);
        under_home.append("/.config");
        under_home
    } else {
        return None;
    };
    path.append("/calcurs/config.toml");
    Some(path)
}

} // verus!
