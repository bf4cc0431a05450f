use workdays::{CalendarError, Date, Weekday, WorkCalendar};

fn ymd(y: i32, m: u32, d: u32) -> Date {
    Date::from_ymd(y, m, d).unwrap()
}

#[test]
fn test_compute_end_date_standard_week() {
    let calendar = WorkCalendar::new();
    let start_date = ymd(2023, 8, 21); // Monday
    let (end_date, duration) = calendar.compute_end_date(start_date, 5).unwrap();

    assert_eq!(end_date, ymd(2023, 8, 25)); // Friday
    assert_eq!(duration, 4);
}

#[test]
fn test_compute_end_date_with_weekend() {
    let calendar = WorkCalendar::new();
    let start_date = ymd(2023, 8, 18); // Friday
    let (end_date, duration) = calendar.compute_end_date(start_date, 5).unwrap();

    assert_eq!(end_date, ymd(2023, 8, 24)); // Next Thursday
    assert_eq!(duration, 6);
}

#[test]
fn test_compute_end_date_with_holiday() {
    let mut calendar = WorkCalendar::new();
    calendar.add_holiday(ymd(2023, 8, 23)); // Wednesday
    let start_date = ymd(2023, 8, 21); // Monday
    let (end_date, duration) = calendar.compute_end_date(start_date, 5).unwrap();

    assert_eq!(end_date, ymd(2023, 8, 28)); // Next Monday
    assert_eq!(duration, 7);
}

#[test]
fn test_compute_end_date_custom_work_days() {
    let mut calendar = WorkCalendar::new();
    calendar.set_work_days("Monday,Wednesday,Friday").unwrap();
    let start_date = ymd(2023, 8, 21); // Monday
    let (end_date, duration) = calendar.compute_end_date(start_date, 5).unwrap();

    assert_eq!(end_date, ymd(2023, 8, 30)); // Wednesday
    assert_eq!(duration, 9);
}

#[test]
fn test_compute_end_date_zero_days() {
    let calendar = WorkCalendar::new();
    let start_date = ymd(2023, 8, 21); // Monday
    let (end_date, duration) = calendar.compute_end_date(start_date, 0).unwrap();

    assert_eq!(end_date, start_date);
    assert_eq!(duration, 0);
}

#[test]
fn test_compute_end_date_negative_days() {
    let calendar = WorkCalendar::new();
    let start_date = ymd(2023, 8, 21); // Monday
    assert!(calendar.compute_end_date(start_date, -1).is_err());
}

#[test]
fn test_set_work_days() {
    let mut calendar = WorkCalendar::new();
    assert!(calendar.set_work_days("Mon,Wed,Fri").is_ok());
    assert!(calendar.is_work_day(&Weekday::Mon));
    assert!(calendar.is_work_day(&Weekday::Wed));
    assert!(calendar.is_work_day(&Weekday::Fri));
    assert!(!calendar.is_work_day(&Weekday::Tue));
    assert!(!calendar.is_work_day(&Weekday::Thu));
    assert!(!calendar.is_work_day(&Weekday::Sat));
    assert!(!calendar.is_work_day(&Weekday::Sun));
}

#[test]
fn test_add_and_remove_holiday() {
    let mut calendar = WorkCalendar::new();
    let holiday = ymd(2023, 12, 25);
    calendar.add_holiday(holiday);
    assert!(calendar.is_holiday(&holiday));
    calendar.remove_holiday(&holiday);
    assert!(!calendar.is_holiday(&holiday));
}

#[test]
fn test_work_days_between() {
    let calendar = WorkCalendar::new();
    let start_date = ymd(2023, 8, 21); // Monday
    let end_date = ymd(2023, 8, 25); // Friday
    assert_eq!(calendar.work_days_between(start_date, end_date), 5);

    let end_date = ymd(2023, 8, 27); // Sunday
    assert_eq!(calendar.work_days_between(start_date, end_date), 5);

    let mut calendar = WorkCalendar::new();
    calendar.add_holiday(ymd(2023, 8, 23)); // Wednesday
    assert_eq!(calendar.work_days_between(start_date, end_date), 4);
}

#[test]
fn test_compute_end_date_error_kinds() {
    let mut calendar = WorkCalendar::new();
    let start = ymd(2023, 8, 21);
    assert_eq!(
        calendar.compute_end_date(start, -1),
        Err(CalendarError::InvalidArgument)
    );
    for day in [
        Weekday::Mon,
        Weekday::Tue,
        Weekday::Wed,
        Weekday::Thu,
        Weekday::Fri,
        Weekday::Sat,
        Weekday::Sun,
    ] {
        calendar.remove_work_day(&day);
    }
    assert_eq!(
        calendar.compute_end_date(start, 5),
        Err(CalendarError::EmptyConfiguration)
    );
    // a negative count is rejected before the empty work-day set is noticed
    assert_eq!(
        calendar.compute_end_date(start, -3),
        Err(CalendarError::InvalidArgument)
    );
}

#[test]
fn test_compute_end_date_single_day() {
    let calendar = WorkCalendar::new();
    // one work day starting on a work day is the start date itself
    let (end, span) = calendar.compute_end_date(ymd(2023, 8, 21), 1).unwrap();
    assert_eq!(end, ymd(2023, 8, 21));
    assert_eq!(span, 0);
    // one work day starting on a Saturday lands on the following Monday
    let (end, span) = calendar.compute_end_date(ymd(2023, 8, 19), 1).unwrap();
    assert_eq!(end, ymd(2023, 8, 21));
    assert_eq!(span, 2);
}

#[test]
fn test_work_days_between_single_day() {
    let mut calendar = WorkCalendar::new();
    let monday = ymd(2023, 8, 21);
    let saturday = ymd(2023, 8, 19);
    assert_eq!(calendar.work_days_between(monday, monday), 1);
    assert_eq!(calendar.work_days_between(saturday, saturday), 0);
    calendar.add_holiday(monday);
    assert_eq!(calendar.work_days_between(monday, monday), 0);
}

#[test]
fn test_work_days_between_reversed_range() {
    let calendar = WorkCalendar::new();
    assert_eq!(
        calendar.work_days_between(ymd(2023, 8, 25), ymd(2023, 8, 21)),
        0
    );
    assert_eq!(
        calendar.work_days_between(ymd(2023, 8, 22), ymd(2023, 8, 21)),
        0
    );
}

#[test]
fn test_add_holiday_twice_is_single_holiday() {
    let mut calendar = WorkCalendar::new();
    let holiday = ymd(2023, 12, 25);
    calendar.add_holiday(holiday);
    calendar.add_holiday(holiday);
    assert!(calendar.is_holiday(&holiday));
    calendar.remove_holiday(&holiday);
    assert!(!calendar.is_holiday(&holiday));
}

#[test]
fn test_set_work_days_all_invalid_leaves_calendar_unchanged() {
    let mut calendar = WorkCalendar::new();
    assert_eq!(
        calendar.set_work_days("Funday, Blursday"),
        Err(CalendarError::NoValidWorkDays)
    );
    assert!(calendar.is_work_day(&Weekday::Mon));
    assert!(calendar.is_work_day(&Weekday::Fri));
    assert!(!calendar.is_work_day(&Weekday::Sat));
}

#[test]
fn test_set_work_days_drops_bad_items() {
    let mut calendar = WorkCalendar::new();
    assert!(calendar.set_work_days(" saturday , nonsense, SUN ").is_ok());
    assert!(calendar.is_work_day(&Weekday::Sat));
    assert!(calendar.is_work_day(&Weekday::Sun));
    assert!(!calendar.is_work_day(&Weekday::Mon));
}

#[test]
fn test_add_and_remove_work_day() {
    let mut calendar = WorkCalendar::new();
    calendar.add_work_day(Weekday::Sat);
    assert!(calendar.is_work_day(&Weekday::Sat));
    calendar.add_work_day(Weekday::Sat);
    assert!(calendar.is_work_day(&Weekday::Sat));
    calendar.remove_work_day(&Weekday::Sat);
    assert!(!calendar.is_work_day(&Weekday::Sat));
    calendar.remove_work_day(&Weekday::Sat);
    assert!(!calendar.is_work_day(&Weekday::Sat));
}
