//! Business-day arithmetic over a configurable work calendar.
//!
//! A [`WorkCalendar`] holds the set of weekdays that count as work days and a
//! set of holiday dates. It can walk forward from a start date until a given
//! number of work days has been consumed, and count the work days inside an
//! inclusive date range. Calendars can also be built from a configuration
//! value carrying weekday names and `YYYY-MM-DD` date strings.

pub mod calendar;
pub mod config;
pub mod date;
pub mod text;

pub mod weekday;

pub use calendar::{CalendarError, WorkCalendar};
pub use config::{config_is_braced, WorkCalendarConfig};
pub use date::{Date, parse_date};
pub use weekday::{parse_weekday, weekday_title_string, Weekday};
