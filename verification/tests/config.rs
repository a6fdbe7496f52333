use calcu_rs::calendar::Date;
use calcu_rs::config::{
    get_config_path, Alignment, CommentConfig, ScheduleConfig, TableStyle, TodoConfig, UpperConfig,
};

#[test]
fn table_defaults() {
    let todos = TodoConfig::default();
    assert_eq!(todos.table_style, TableStyle::Empty);
    assert_eq!(todos.margins, (0, 0, 0, 0));
    assert_eq!(todos.alignment, Alignment::Center);
    let schedule = ScheduleConfig::default();
    assert_eq!(schedule.table_style, TableStyle::Empty);
    assert_eq!(schedule.margins, (0, 0, 0, 0));
    assert_eq!(schedule.alignment, Alignment::Center);
    let comments = CommentConfig::default();
    assert_eq!(comments.table_style, TableStyle::Empty);
    assert_eq!(comments.margins, (0, 0, 0, 0));
    assert_eq!(comments.alignment, Alignment::Center);
}

#[test]
fn upper_config_defaults() {
    let mut schedule = ScheduleConfig::default();
    schedule.table_style = TableStyle::Rounded;
    let config = UpperConfig::with_tables(TodoConfig::default(), schedule, CommentConfig::default());
    assert_eq!(config.notes_folder, "~/notes");
    assert_eq!(config.start_date, Date::from_ymd_opt(2001, 1, 14).unwrap());
    assert_eq!(config.schedule.table_style, TableStyle::Rounded);
    assert_eq!(config.todos.table_style, TableStyle::Empty);
}

#[test]
fn config_path_prefers_the_programs_own_home() {
    assert_eq!(
        get_config_path(Some("/own"), Some("/xdg"), Some("/home/ann"), Some("ann")),
        Some(String::from("/own/calcurs/config.toml"))
    );
}

#[test]
fn config_path_falls_back_step_by_step() {
    assert_eq!(
        get_config_path(None, Some("/xdg"), Some("/home/ann"), Some("ann")),
        Some(String::from("/xdg/calcurs/config.toml"))
    );
    assert_eq!(
        get_config_path(None, None, Some("/home/ann"), Some("bob")),
        Some(String::from("/home/ann/.config/calcurs/config.toml"))
    );
    assert_eq!(
        get_config_path(None, None, None, Some("bob")),
        Some(String::from("/home/bob/.config/calcurs/config.toml"))
    );
}

#[test]
fn config_path_needs_one_of_the_four() {
    assert_eq!(get_config_path(None, None, None, None), None);
}
