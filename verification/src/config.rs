//! Configuration values for building calendars, and the notation probe used
//! to tell the two supported textual notations apart.

use vstd::prelude::*;
use crate::calendar::WorkCalendar;
use crate::date::{date_of_string, parse_date};
use crate::text::{chars_vec, is_space_char_exec, lemma_deep_view_strings, trim_start_spec};
use crate::weekday::{parse_weekday, weekday_of_name, Weekday};

verus! {

/// The logical content of a configuration document: an optional list of
/// weekday names and an optional list of `YYYY-MM-DD` holiday strings.
pub struct WorkCalendarConfig {
    pub work_days: Option<Vec<String>>,
    pub holidays: Option<Vec<String>>,
}

/// What a calendar built from a configuration value looks like: a named
/// work-day list replaces the default Monday-to-Friday work week with
/// whatever subset of its items parses; a holiday list replaces the empty
/// holiday set with whatever subset of its items parses as dates.
pub open spec fn built_from_config(conf: WorkCalendarConfig, c: WorkCalendar) -> bool {
    &&& match conf.work_days {
        None => forall|w: Weekday|
            c.is_work_weekday(w) <==> (w != Weekday::Sat && w != Weekday::Sun),
        Some(l) => forall|w: Weekday|
            c.is_work_weekday(w) <==> (exists|i: int|
                0 <= i < l.deep_view().len() && weekday_of_name(l.deep_view()[i]) == Some(w)),
    }
    &&& match conf.holidays {
        None => c.holiday_set() == Set::<int>::empty(),
        Some(h) => forall|dn: int|
            c.is_holiday_dn(dn) <==> (exists|i: int|
                0 <= i < h.deep_view().len() && date_of_string(h.deep_view()[i]) == Some(dn)),
    }
}

/// What a configuration value written out for a calendar holds: its
/// work-day list names exactly the calendar's work days and its holiday
/// list renders exactly the calendar's holidays.
pub open spec fn describes_calendar(conf: WorkCalendarConfig, c: WorkCalendar) -> bool {
    &&& match conf.work_days {
        None => false,
        Some(l) => forall|w: Weekday|
            (exists|i: int|
                0 <= i < l.deep_view().len() && weekday_of_name(l.deep_view()[i]) == Some(w))
                <==> c.is_work_weekday(w),
    }
    &&& match conf.holidays {
        None => false,
        Some(h) => {
            &&& h.deep_view().len() == c.holiday_count()
            &&& forall|i: int|
                0 <= i < h.deep_view().len() ==> date_of_string(h.deep_view()[i]) == Some(
                    c.holidays_view()[i],
                )
        },
    }
}

fn list_has_name(l: &Vec<String>, w: Weekday) -> (r: bool)
    ensures
        r == exists|i: int|
            0 <= i < l.deep_view().len() && weekday_of_name(l.deep_view()[i]) == Some(w),
{
    let mut i: usize = 0;
    while i < l.len()
        invariant
            0 <= i <= l@.len(),
            forall|j: int| 0 <= j < i ==> weekday_of_name(l.deep_view()[j]) != Some(w),
        decreases l@.len() - i,
    {
        proof {
            lemma_deep_view_strings(*l);
        }
        match parse_weekday(l[i].as_str()) {
            Some(got) => {
                if got == w {
                    proof {
                        assert(weekday_of_name(l.deep_view()[i as int]) == Some(w));
                    }
                    return true;
                }
            },
            None => {},
        }
        i = i + 1;
    }
    proof {
        lemma_deep_view_strings(*l);
    }
    false
}

impl WorkCalendar {
    /// Builds a calendar from a configuration value, starting from the
    /// default calendar: a present work-day list replaces the work days with
    /// whatever subset of its items parses as weekday names (possibly none);
    /// a present holiday list replaces the holidays with whatever subset of
    /// its items parses as `YYYY-MM-DD` dates. Unparseable items are
    /// silently dropped.
    pub fn from_config(config: WorkCalendarConfig) -> (c: WorkCalendar)
        ensures
            c.wf(),
            built_from_config(config, c),
    {
        let ghost conf = config;
        let mut c = WorkCalendar::new();
        let WorkCalendarConfig { work_days, holidays } = config;
        match &work_days {
            Some(l) => {
                let mo = list_has_name(l, Weekday::Mon);
                let tu = list_has_name(l, Weekday::Tue);
                let we = list_has_name(l, Weekday::Wed);
                let th = list_has_name(l, Weekday::Thu);
                let fr = list_has_name(l, Weekday::Fri);
                let sa = list_has_name(l, Weekday::Sat);
                let su = list_has_name(l, Weekday::Sun);
                c.set_work_flags(mo, tu, we, th, fr, sa, su);
                proof {
                    assert forall|w: Weekday|
                        c.is_work_weekday(w) <==> (exists|i: int|
                            0 <= i < l.deep_view().len() && weekday_of_name(l.deep_view()[i])
                                == Some(w)) by {
                        if w == Weekday::Mon {
                        } else if w == Weekday::Tue {
                        } else if w == Weekday::Wed {
                        } else if w == Weekday::Thu {
                        } else if w == Weekday::Fri {
                        } else if w == Weekday::Sat {
                        } else {
                            assert(w == Weekday::Sun);
                        }
                    }
                }
            },
            None => {},
        }
        match &holidays {
            Some(h) => {
                let mut i: usize = 0;
                while i < h.len()
                    invariant
                        0 <= i <= h@.len(),
                        c.wf(),
                        forall|w: Weekday|
                            c.is_work_weekday(w) <==> (match conf.work_days {
                                None => w != Weekday::Sat && w != Weekday::Sun,
                                Some(l) => exists|i2: int|
                                    0 <= i2 < l.deep_view().len() && weekday_of_name(
                                        l.deep_view()[i2],
                                    ) == Some(w),
                            }),
                        conf.holidays == Some(*h),
                        forall|dn: int|
                            c.is_holiday_dn(dn) <==> (exists|j: int|
                                0 <= j < i && date_of_string(h.deep_view()[j]) == Some(dn)),
                    decreases h@.len() - i,
                {
                    proof {
                        lemma_deep_view_strings(*h);
                    }
                    let ghost cpre = c;
                    match parse_date(h[i].as_str()) {
                        Some(d) => {
                            c.add_holiday(d);
                            proof {
                                assert(date_of_string(h.deep_view()[i as int]) == Some(
                                    d.day_index(),
                                ));
                                assert forall|dn: int|
                                    c.is_holiday_dn(dn) <==> (exists|j: int|
                                        0 <= j < i + 1 && date_of_string(h.deep_view()[j])
                                            == Some(dn)) by {
                                    if c.is_holiday_dn(dn) {
                                        if dn == d.day_index() {
                                            assert(date_of_string(h.deep_view()[i as int])
                                                == Some(dn));
                                        } else {
                                            assert(cpre.is_holiday_dn(dn));
                                        }
                                    }
                                    if exists|j: int|
                                        0 <= j < i + 1 && date_of_string(h.deep_view()[j])
                                            == Some(dn) {
                                        let j = choose|j: int|
                                            0 <= j < i + 1 && date_of_string(h.deep_view()[j])
                                                == Some(dn);
                                        if j < i {
                                            assert(cpre.is_holiday_dn(dn));
                                        } else {
                                            assert(dn == d.day_index());
                                        }
                                        assert(c.holiday_set() == cpre.holiday_set().insert(
                                            d.day_index(),
                                        ));
                                    }
                                }
                            }
                        },
                        None => {
                            proof {
                                assert(date_of_string(h.deep_view()[i as int]) is None);
                                assert forall|dn: int|
                                    c.is_holiday_dn(dn) <==> (exists|j: int|
                                        0 <= j < i + 1 && date_of_string(h.deep_view()[j])
                                            == Some(dn)) by {
                                    if exists|j: int|
                                        0 <= j < i + 1 && date_of_string(h.deep_view()[j])
                                            == Some(dn) {
                                        let j = choose|j: int|
                                            0 <= j < i + 1 && date_of_string(h.deep_view()[j])
                                                == Some(dn);
                                        assert(j < i);
                                    }
                                }
                            }
                        },
                    }
                    i = i + 1;
                }
            },
            None => {},
        }
        c
    }
}

/// The two notations round-trip through the configuration schema: building
/// a calendar back from a configuration that describes a calendar restores
/// the same work days and the same holiday set.
pub proof fn lemma_config_round_trip(
    cal: WorkCalendar,
    conf: WorkCalendarConfig,
    cal2: WorkCalendar,
)
    requires
        describes_calendar(conf, cal),
        built_from_config(conf, cal2),
    ensures
        forall|w: Weekday| cal2.is_work_weekday(w) == cal.is_work_weekday(w),
        cal2.holiday_set() == cal.holiday_set(),
{
    let h = conf.holidays->Some_0;
    cal.lemma_holidays_view_len();
    assert(h.deep_view().len() == cal.holiday_count());
    assert forall|dn: int| cal2.holiday_set().contains(dn) == cal.holiday_set().contains(dn) by {
        if cal2.is_holiday_dn(dn) {
            let i = choose|i: int|
                0 <= i < h.deep_view().len() && date_of_string(h.deep_view()[i]) == Some(dn);
            assert(date_of_string(h.deep_view()[i]) == Some(cal.holidays_view()[i]));
            assert(cal.holidays_view()[i] == dn);
            assert(cal.holidays_view().contains(dn));
            assert(cal.is_holiday_dn(dn));
        }
        if cal.is_holiday_dn(dn) {
            assert(cal.holidays_view().contains(dn));
            let i = choose|i: int|
                0 <= i < cal.holidays_view().len() && cal.holidays_view()[i] == dn;
            assert(date_of_string(h.deep_view()[i]) == Some(dn));
            assert(cal2.is_holiday_dn(dn));
        }
    }
    assert(cal2.holiday_set() =~= cal.holiday_set());
}

/// Whether the first character of `s` past leading whitespace is an opening
/// brace: the probe that selects between the two configuration notations.
pub open spec fn braced_config(s: Seq<char>) -> bool {
    trim_start_spec(s).len() > 0 && trim_start_spec(s)[0] == '{'
}

/// Reports whether configuration text starts (past leading whitespace) with
/// an opening brace.
pub fn config_is_braced(s: &str) -> (r: bool)
    ensures
        r == braced_config(s@),
{
    let v = chars_vec(s);
    let vs = v.as_slice();
    let len = vs.len();
    proof {
        assert(vs@.subrange(0, vs@.len() as int) =~= vs@);
    }
    let mut lo: usize = 0;
    while lo < len && is_space_char_exec(vs[lo])
        invariant
            0 <= lo <= vs@.len(),
            len == vs@.len(),
            vs@ == s@,
            trim_start_spec(s@) == trim_start_spec(vs@.subrange(lo as int, vs@.len() as int)),
        decreases vs@.len() - lo,
    {
        proof {
            let t = vs@.subrange(lo as int, vs@.len() as int);
            assert(t[0] == vs@[lo as int]);
            assert(t.drop_first() =~= vs@.subrange(lo as int + 1, vs@.len() as int));
        }
        lo = lo + 1;
    }
    proof {
        let t = vs@.subrange(lo as int, vs@.len() as int);
        assert(trim_start_spec(t) == t);
    }
    if lo < len {
        vs[lo] == '{'
    } else {
        false
    }
}

} // verus!
