use workdays::{
    config_is_braced, parse_date, parse_weekday, Date, Weekday, WorkCalendar, WorkCalendarConfig,
};

fn ymd(y: i32, m: u32, d: u32) -> Date {
    Date::from_ymd(y, m, d).unwrap()
}

const ALL_DAYS: [Weekday; 7] = [
    Weekday::Mon,
    Weekday::Tue,
    Weekday::Wed,
    Weekday::Thu,
    Weekday::Fri,
    Weekday::Sat,
    Weekday::Sun,
];

#[test]
fn test_parse_weekday_names() {
    assert_eq!(parse_weekday("Monday"), Some(Weekday::Mon));
    assert_eq!(parse_weekday("tue"), Some(Weekday::Tue));
    assert_eq!(parse_weekday("WEDNESDAY"), Some(Weekday::Wed));
    assert_eq!(parse_weekday("thu"), Some(Weekday::Thu));
    assert_eq!(parse_weekday("friday"), Some(Weekday::Fri));
    assert_eq!(parse_weekday("SAT"), Some(Weekday::Sat));
    assert_eq!(parse_weekday("sunday"), Some(Weekday::Sun));
    assert_eq!(parse_weekday("Invalid"), None);
}

#[test]
fn test_parse_weekday_case_insensitive_and_total() {
    assert_eq!(parse_weekday("MONDAY"), parse_weekday("mon"));
    assert_eq!(parse_weekday("MONDAY"), Some(Weekday::Mon));
    assert_eq!(parse_weekday(""), None);
    assert_eq!(parse_weekday("42"), None);
    assert_eq!(parse_weekday("lundi"), None);
    assert_eq!(parse_weekday("mon "), None); // parse_weekday itself does not trim
}

#[test]
fn test_parse_date_strict_format() {
    assert_eq!(parse_date("2023-12-25"), Some(ymd(2023, 12, 25)));
    assert_eq!(parse_date("2024-02-29"), Some(ymd(2024, 2, 29))); // leap day
    assert_eq!(parse_date("2023-02-29"), None); // not a leap year
    assert_eq!(parse_date("2023-13-01"), None); // month 13
    assert_eq!(parse_date("2023-04-31"), None); // day 32 of a 30-day month
    assert_eq!(parse_date("2023-1-2"), None); // not zero-padded
    assert_eq!(parse_date("2023-12-25x"), None); // trailing text
    assert_eq!(parse_date(""), None);
}

#[test]
fn test_date_from_ymd_validity() {
    assert!(Date::from_ymd(2023, 2, 28).is_some());
    assert!(Date::from_ymd(2023, 2, 29).is_none());
    assert!(Date::from_ymd(2000, 2, 29).is_some()); // divisible by 400: leap
    assert!(Date::from_ymd(1900, 2, 29).is_none()); // divisible by 100: not leap
    assert!(Date::from_ymd(2023, 0, 1).is_none());
    assert!(Date::from_ymd(2023, 12, 32).is_none());
    assert_eq!(Date::from_ymd(2023, 8, 21), Date::from_ymd(2023, 8, 21));
}

#[test]
fn test_from_config_lists() {
    let config = WorkCalendarConfig {
        work_days: Some(vec![
            "Monday".to_string(),
            "Wednesday".to_string(),
            "Friday".to_string(),
        ]),
        holidays: Some(vec!["2023-12-25".to_string()]),
    };
    let calendar = WorkCalendar::from_config(config);
    assert!(calendar.is_work_day(&Weekday::Mon));
    assert!(calendar.is_work_day(&Weekday::Wed));
    assert!(calendar.is_work_day(&Weekday::Fri));
    assert!(!calendar.is_work_day(&Weekday::Tue));
    assert!(calendar.is_holiday(&ymd(2023, 12, 25)));
}

#[test]
fn test_from_config_missing_fields_keep_defaults() {
    let calendar = WorkCalendar::from_config(WorkCalendarConfig {
        work_days: None,
        holidays: None,
    });
    assert!(calendar.is_work_day(&Weekday::Mon));
    assert!(calendar.is_work_day(&Weekday::Fri));
    assert!(!calendar.is_work_day(&Weekday::Sat));
    assert!(!calendar.is_holiday(&ymd(2023, 12, 25)));
}

#[test]
fn test_from_config_wholly_invalid_work_days_yield_empty_set() {
    // unlike set_work_days, configuration loading leaves an empty work-day
    // set when no listed name parses
    let calendar = WorkCalendar::from_config(WorkCalendarConfig {
        work_days: Some(vec!["Funday".to_string()]),
        holidays: None,
    });
    for day in ALL_DAYS {
        assert!(!calendar.is_work_day(&day));
    }
    let r = calendar.compute_end_date(ymd(2023, 8, 21), 5);
    assert_eq!(r, Err(workdays::CalendarError::EmptyConfiguration));
}

#[test]
fn test_from_config_bad_dates_dropped() {
    let calendar = WorkCalendar::from_config(WorkCalendarConfig {
        work_days: None,
        holidays: Some(vec![
            "2023-12-25".to_string(),
            "2023-13-40".to_string(),
            "garbage".to_string(),
        ]),
    });
    assert!(calendar.is_holiday(&ymd(2023, 12, 25)));
    assert!(!calendar.is_holiday(&ymd(2023, 12, 26)));
}

#[test]
fn test_to_config_contents() {
    let mut calendar = WorkCalendar::new();
    calendar.add_holiday(ymd(2023, 12, 25));
    let config = calendar.to_config();
    assert_eq!(
        config.work_days,
        Some(vec![
            "Monday".to_string(),
            "Tuesday".to_string(),
            "Wednesday".to_string(),
            "Thursday".to_string(),
            "Friday".to_string(),
        ])
    );
    assert_eq!(config.holidays, Some(vec!["2023-12-25".to_string()]));
}

#[test]
fn test_config_round_trip() {
    let mut calendar = WorkCalendar::new();
    calendar.set_work_days("Tue,Thu,Sat").unwrap();
    calendar.add_holiday(ymd(2023, 12, 25));
    calendar.add_holiday(ymd(2024, 1, 1));
    let restored = WorkCalendar::from_config(calendar.to_config());
    for day in ALL_DAYS {
        assert_eq!(restored.is_work_day(&day), calendar.is_work_day(&day));
    }
    for date in [ymd(2023, 12, 25), ymd(2024, 1, 1), ymd(2024, 7, 4)] {
        assert_eq!(restored.is_holiday(&date), calendar.is_holiday(&date));
    }
}

#[test]
fn test_config_is_braced_probe() {
    assert!(config_is_braced("{\"work_days\": []}"));
    assert!(config_is_braced("  \n\t{\"holidays\": []}"));
    assert!(!config_is_braced("work_days:\n  - Monday\n"));
    assert!(!config_is_braced(""));
    assert!(!config_is_braced("   "));
}

#[test]
fn test_weekday_title_strings() {
    assert_eq!(workdays::weekday_title_string(&Weekday::Mon), "Monday");
    assert_eq!(workdays::weekday_title_string(&Weekday::Sun), "Sunday");
    assert_eq!(
        parse_weekday(&workdays::weekday_title_string(&Weekday::Sat)),
        Some(Weekday::Sat)
    );
}
