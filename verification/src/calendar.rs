//! The work calendar and its two date-walking algorithms.

use vstd::prelude::*;
use vstd::arithmetic::div_mod::{
    lemma_fundamental_div_mod, lemma_fundamental_div_mod_converse, lemma_mod_bound,
};
use vstd::set_lib::lemma_len_subset;
use crate::config::WorkCalendarConfig;
use crate::date::{date_of_string, Date, MAX_DAY_NUMBER, weekday_index_of};
use crate::text::{
    chars_vec, lemma_deep_view_index, lemma_deep_view_strings, split_commas, split_commas_slice,
    string_from_chars, trim_slice, trim_spec,
};
use crate::weekday::{
    lemma_title_name_parses, parse_weekday_chars, weekday_of_name, weekday_title_name,
    weekday_title_string, Weekday,
};

verus! {

/// Whether some comma-separated item of `s`, once surrounding whitespace is
/// removed, names the weekday `w`.
pub open spec fn names_in_list(s: Seq<char>, w: Weekday) -> bool {
    exists|i: int|
        0 <= i < split_commas(s).len() && weekday_of_name(trim_spec(split_commas(s)[i])) == Some(
            w,
        )
}

/// The failure cases of calendar operations.
#[derive(Clone, Copy, PartialEq, Eq, Structural, Debug)]
pub enum CalendarError {
    /// A negative work-day count was passed to the end-date computation.
    InvalidArgument,
    /// The work-day set was empty when computing an end date.
    EmptyConfiguration,
    /// Every entry supplied to the bulk work-day setter failed to parse.
    NoValidWorkDays,
    /// Configuration text matched neither supported notation.
    MalformedConfiguration,
}

/// A work calendar: the weekdays that count as work days, and the holiday
/// dates excluded from work regardless of their weekday.
pub struct WorkCalendar {
    mon: bool,
    tue: bool,
    wed: bool,
    thu: bool,
    fri: bool,
    sat: bool,
    sun: bool,
    holidays: Vec<Date>,
}

/// Weekday index reached from index `r` after `k` further days, for
/// `0 <= r < 7` and `0 <= k <= 7`.
pub open spec fn shift_index(r: int, k: int) -> int {
    if r + k < 7 {
        r + k
    } else {
        r + k - 7
    }
}

/// Stepping `k` days forward shifts the weekday index cyclically.
pub proof fn lemma_weekday_step(dn: int, k: int)
    requires
        0 <= k <= 7,
    ensures
        weekday_index_of(dn + k) == shift_index(weekday_index_of(dn), k),
{
    lemma_fundamental_div_mod(dn + 5, 7);
    lemma_mod_bound(dn + 5, 7);
    let q = (dn + 5) / 7;
    let r = (dn + 5) % 7;
    if r + k < 7 {
        lemma_fundamental_div_mod_converse(dn + 5 + k, 7, q, r + k);
    } else {
        lemma_fundamental_div_mod_converse(dn + 5 + k, 7, q + 1, r + k - 7);
    }
}

impl WorkCalendar {
    /// Whether the weekday with index `r` (0 is Monday) is a work day.
    pub closed spec fn works_index(self, r: int) -> bool {
        if r == 0 {
            self.mon
        } else if r == 1 {
            self.tue
        } else if r == 2 {
            self.wed
        } else if r == 3 {
            self.thu
        } else if r == 4 {
            self.fri
        } else if r == 5 {
            self.sat
        } else if r == 6 {
            self.sun
        } else {
            false
        }
    }

    /// Whether `w` is one of the calendar's work days.
    pub open spec fn is_work_weekday(self, w: Weekday) -> bool {
        self.works_index(w.index_spec())
    }

    /// Whether at least one weekday is a work day.
    pub open spec fn has_work_days(self) -> bool {
        exists|r: int| 0 <= r < 7 && self.works_index(r)
    }

    /// The day numbers of the holiday list, in order.
    pub closed spec fn holidays_view(self) -> Seq<int> {
        self.holidays@.map_values(|d: Date| d.day_index())
    }

    /// The set of holiday day numbers.
    pub open spec fn holiday_set(self) -> Set<int> {
        self.holidays_view().to_set()
    }

    /// Whether day number `dn` is a holiday.
    pub open spec fn is_holiday_dn(self, dn: int) -> bool {
        self.holiday_set().contains(dn)
    }

    /// Well-formedness: every stored holiday is a valid date and the holiday
    /// list holds no duplicates.
    pub closed spec fn wf(self) -> bool {
        &&& forall|i: int|
            0 <= i < self.holidays@.len() ==> (#[trigger] self.holidays@[i]).is_valid()
        &&& forall|i: int, j: int|
            0 <= i < j < self.holidays_view().len() ==> self.holidays_view()[i]
                != self.holidays_view()[j]
    }

    /// The number of stored holidays.
    pub closed spec fn holiday_count(self) -> int {
        self.holidays@.len() as int
    }

    /// Whether the date with day number `dn` is worked: its weekday is a
    /// work day and the date is not a holiday.
    pub open spec fn is_work_date(self, dn: int) -> bool {
        self.works_index(weekday_index_of(dn)) && !self.is_holiday_dn(dn)
    }

    /// The number of worked dates with day numbers in `[s, e]`, both ends
    /// included.
    pub open spec fn work_day_count(self, s: int, e: int) -> int
        decreases e - s + 1,
    {
        if e < s {
            0
        } else {
            self.work_day_count(s, e - 1) + if self.is_work_date(e) {
                1int
            } else {
                0int
            }
        }
    }

    /// What it means for `e` to be the end date reached from `s` after
    /// consuming `n` work days: for positive `n`, exactly `n` dates of
    /// `[s, e]` are worked and `e` itself is worked; zero work days never
    /// move off the start date.
    pub open spec fn is_end_date(self, s: int, n: int, e: int) -> bool {
        if n == 0 {
            e == s
        } else {
            s <= e && self.work_day_count(s, e) == n && self.is_work_date(e)
        }
    }

    /// Steps (at least 1, at most 7 when some weekday is worked) from `dn`
    /// to the next day whose weekday is a work day.
    spec fn gap_to_work(self, dn: int) -> int {
        let r = weekday_index_of(dn);
        if self.works_index(shift_index(r, 1)) {
            1
        } else if self.works_index(shift_index(r, 2)) {
            2
        } else if self.works_index(shift_index(r, 3)) {
            3
        } else if self.works_index(shift_index(r, 4)) {
            4
        } else if self.works_index(shift_index(r, 5)) {
            5
        } else if self.works_index(shift_index(r, 6)) {
            6
        } else if self.works_index(shift_index(r, 7)) {
            7
        } else {
            8
        }
    }

    proof fn lemma_gap_props(self, dn: int)
        requires
            self.has_work_days(),
        ensures
            1 <= self.gap_to_work(dn) <= 7,
            self.works_index(weekday_index_of(dn + self.gap_to_work(dn))),
    {
        let r = weekday_index_of(dn);
        lemma_mod_bound(dn + 5, 7);
        lemma_weekday_step(dn, 1);
        lemma_weekday_step(dn, 2);
        lemma_weekday_step(dn, 3);
        lemma_weekday_step(dn, 4);
        lemma_weekday_step(dn, 5);
        lemma_weekday_step(dn, 6);
        lemma_weekday_step(dn, 7);
        if self.gap_to_work(dn) == 8 {
            let v = choose|v: int| 0 <= v < 7 && self.works_index(v);
            assert(0 <= v < 7 && self.works_index(v));
            let k = if r < v {
                v - r
            } else {
                v + 7 - r
            };
            assert(1 <= k <= 7);
            assert(shift_index(r, k) == v);
            assert(!self.works_index(shift_index(r, k)));
            assert(false);
        }
    }

    proof fn lemma_gap_step(self, c: int)
        requires
            self.has_work_days(),
            !self.works_index(weekday_index_of(c + 1)),
        ensures
            self.gap_to_work(c + 1) == self.gap_to_work(c) - 1,
    {
        self.lemma_gap_props(c);
        self.lemma_gap_props(c + 1);
        let r = weekday_index_of(c);
        let r1 = weekday_index_of(c + 1);
        lemma_mod_bound(c + 5, 7);
        lemma_mod_bound(c + 6, 7);
        lemma_weekday_step(c, 1);
        lemma_weekday_step(c, 2);
        lemma_weekday_step(c, 3);
        lemma_weekday_step(c, 4);
        lemma_weekday_step(c, 5);
        lemma_weekday_step(c, 6);
        lemma_weekday_step(c, 7);
        lemma_weekday_step(c + 1, 1);
        lemma_weekday_step(c + 1, 2);
        lemma_weekday_step(c + 1, 3);
        lemma_weekday_step(c + 1, 4);
        lemma_weekday_step(c + 1, 5);
        lemma_weekday_step(c + 1, 6);
        lemma_weekday_step(c + 1, 7);
        assert(r1 == shift_index(r, 1));
        assert forall|k: int| 1 <= k <= 6 implies shift_index(r1, k) == shift_index(r, k + 1) by {}
        assert(shift_index(r1, 7) == r1);
    }

    /// Work-day counts only grow as the end of the range moves right.
    pub proof fn lemma_work_count_monotone(self, s: int, a: int, b: int)
        requires
            a <= b,
        ensures
            self.work_day_count(s, a) <= self.work_day_count(s, b),
        decreases b - a,
    {
        if a < b {
            self.lemma_work_count_monotone(s, a, b - 1);
        }
    }

    /// The holiday view lists one day number per stored holiday.
    pub proof fn lemma_holidays_view_len(self)
        ensures
            self.holidays_view().len() == self.holiday_count(),
    {
    }

    /// The holiday set is finite, no larger than the holiday list.
    proof fn lemma_holiday_set_bound(self)
        ensures
            self.holiday_set().finite(),
            self.holiday_set().len() <= self.holiday_count(),
    {
        vstd::seq_lib::seq_to_set_is_finite::<int>(self.holidays_view());
        self.holidays_view().lemma_cardinality_of_set();
    }

    /// Creates a calendar with the default Monday-to-Friday work week and no
    /// holidays.
    pub fn new() -> (c: WorkCalendar)
        ensures
            c.wf(),
            c.has_work_days(),
            forall|w: Weekday|
                c.is_work_weekday(w) <==> (w != Weekday::Sat && w != Weekday::Sun),
            c.holiday_set() =~= Set::<int>::empty(),
            c.holiday_count() == 0,
    {
        let c = WorkCalendar {
            mon: true,
            tue: true,
            wed: true,
            thu: true,
            fri: true,
            sat: false,
            sun: false,
            holidays: Vec::new(),
        };
        proof {
            assert(c.works_index(0));
            assert(c.holiday_set() =~= Set::<int>::empty());
        }
        c
    }

    /// Adds a weekday to the work days; adding one already present changes
    /// nothing.
    pub fn add_work_day(&mut self, day: Weekday)
        ensures
            forall|w: Weekday|
                final(self).is_work_weekday(w) <==> (old(self).is_work_weekday(w) || w == day),
            final(self).holidays_view() == old(self).holidays_view(),
            final(self).holiday_count() == old(self).holiday_count(),
            old(self).wf() ==> final(self).wf(),
    {
        match day {
            Weekday::Mon => self.mon = true,
            Weekday::Tue => self.tue = true,
            Weekday::Wed => self.wed = true,
            Weekday::Thu => self.thu = true,
            Weekday::Fri => self.fri = true,
            Weekday::Sat => self.sat = true,
            Weekday::Sun => self.sun = true,
        }
        proof {
            assert(final(self).holidays_view() =~= old(self).holidays_view());
        }
    }

    /// Removes a weekday from the work days; removing one not present
    /// changes nothing.
    pub fn remove_work_day(&mut self, day: &Weekday)
        ensures
            forall|w: Weekday|
                final(self).is_work_weekday(w) <==> (old(self).is_work_weekday(w) && w != *day),
            final(self).holidays_view() == old(self).holidays_view(),
            final(self).holiday_count() == old(self).holiday_count(),
            old(self).wf() ==> final(self).wf(),
    {
        match day {
            Weekday::Mon => self.mon = false,
            Weekday::Tue => self.tue = false,
            Weekday::Wed => self.wed = false,
            Weekday::Thu => self.thu = false,
            Weekday::Fri => self.fri = false,
            Weekday::Sat => self.sat = false,
            Weekday::Sun => self.sun = false,
        }
        proof {
            assert(final(self).holidays_view() =~= old(self).holidays_view());
        }
    }

    /// Whether the given weekday is a work day.
    pub fn is_work_day(&self, day: &Weekday) -> (r: bool)
        ensures
            r == self.is_work_weekday(*day),
    {
        match day {
            Weekday::Mon => self.mon,
            Weekday::Tue => self.tue,
            Weekday::Wed => self.wed,
            Weekday::Thu => self.thu,
            Weekday::Fri => self.fri,
            Weekday::Sat => self.sat,
            Weekday::Sun => self.sun,
        }
    }

    fn has_work_days_exec(&self) -> (r: bool)
        ensures
            r == self.has_work_days(),
    {
        let r = self.mon || self.tue || self.wed || self.thu || self.fri || self.sat || self.sun;
        proof {
            if self.mon {
                assert(self.works_index(0));
            } else if self.tue {
                assert(self.works_index(1));
            } else if self.wed {
                assert(self.works_index(2));
            } else if self.thu {
                assert(self.works_index(3));
            } else if self.fri {
                assert(self.works_index(4));
            } else if self.sat {
                assert(self.works_index(5));
            } else if self.sun {
                assert(self.works_index(6));
            }
        }
        r
    }

    /// Whether the given date is a holiday.
    pub fn is_holiday(&self, date: &Date) -> (r: bool)
        ensures
            r == self.is_holiday_dn(date.day_index()),
    {
        let dn = date.day_value();
        let mut i: usize = 0;
        while i < self.holidays.len()
            invariant
                0 <= i <= self.holidays@.len(),
                dn as int == date.day_index(),
                forall|j: int| 0 <= j < i ==> self.holidays@[j].day_index() != dn as int,
            decreases self.holidays@.len() - i,
        {
            if self.holidays[i].day_value() == dn {
                proof {
                    assert(self.holidays_view()[i as int] == dn as int);
                    assert(self.holidays_view().contains(dn as int));
                }
                return true;
            }
            i = i + 1;
        }
        proof {
            assert forall|j: int| 0 <= j < self.holidays_view().len() implies self.holidays_view()[j] != dn as int by {
                assert(self.holidays@[j].day_index() != dn as int);
            }
        }
        false
    }

    /// Adds a holiday date; adding one already present changes nothing.
    pub fn add_holiday(&mut self, date: Date)
        requires
            old(self).wf(),
            date.is_valid(),
        ensures
            final(self).wf(),
            final(self).holiday_set() == old(self).holiday_set().insert(date.day_index()),
            final(self).holiday_count() <= old(self).holiday_count() + 1,
            forall|w: Weekday|
                final(self).is_work_weekday(w) == old(self).is_work_weekday(w),
            final(self).has_work_days() == old(self).has_work_days(),
    {
        let dn = date.day_value();
        let already = self.is_holiday(&date);
        if !already {
            self.holidays.push(date);
        }
        proof {
            let nv = final(self).holidays_view();
            let ov = old(self).holidays_view();
            if !already {
                assert(final(self).holidays@ == old(self).holidays@.push(date));
                assert(nv.len() == ov.len() + 1);
                assert(forall|j: int| 0 <= j < ov.len() ==> nv[j] == ov[j]);
                assert(nv[ov.len() as int] == date.day_index());
                assert forall|x: int| nv.contains(x) <==> (ov.contains(x) || x
                    == date.day_index()) by {
                    if nv.contains(x) {
                        let j = choose|j: int| 0 <= j < nv.len() && nv[j] == x;
                        if j < ov.len() {
                            assert(ov[j] == x);
                            assert(ov.contains(x));
                        }
                    }
                    if ov.contains(x) {
                        let j = choose|j: int| 0 <= j < ov.len() && ov[j] == x;
                        assert(nv[j] == x);
                    }
                }
                assert forall|i: int, j: int| 0 <= i < j < nv.len() implies nv[i] != nv[j] by {
                    if j == ov.len() {
                        if ov[i] == date.day_index() {
                            assert(ov.contains(date.day_index()));
                        }
                    }
                }
            }
            assert(final(self).holiday_set() =~= old(self).holiday_set().insert(date.day_index()));
            assert(forall|r: int| final(self).works_index(r) == old(self).works_index(r));
            assert(final(self).has_work_days() == old(self).has_work_days()) by {
                if old(self).has_work_days() {
                    let r = choose|r: int| 0 <= r < 7 && old(self).works_index(r);
                    assert(final(self).works_index(r));
                }
                if final(self).has_work_days() {
                    let r = choose|r: int| 0 <= r < 7 && final(self).works_index(r);
                    assert(old(self).works_index(r));
                }
            }
        }
    }

    /// Removes a holiday date; removing one not present changes nothing.
    pub fn remove_holiday(&mut self, date: &Date)
        requires
            old(self).wf(),
        ensures
            final(self).wf(),
            final(self).holiday_set() == old(self).holiday_set().remove(date.day_index()),
            final(self).holiday_count() <= old(self).holiday_count(),
            forall|w: Weekday|
                final(self).is_work_weekday(w) == old(self).is_work_weekday(w),
            final(self).has_work_days() == old(self).has_work_days(),
    {
        let dn = date.day_value();
        let mut i: usize = 0;
        while i < self.holidays.len()
            invariant
                0 <= i <= self.holidays@.len(),
                dn as int == date.day_index(),
                forall|j: int| 0 <= j < i ==> self.holidays@[j].day_index() != dn as int,
                self == old(self),
                old(self).wf(),
            decreases self.holidays@.len() - i,
        {
            if self.holidays[i].day_value() == dn {
                self.holidays.remove(i);
                proof {
                    let nv = final(self).holidays_view();
                    let ov = old(self).holidays_view();
                    assert(final(self).holidays@ == old(self).holidays@.remove(i as int));
                    assert(nv.len() == ov.len() - 1);
                    assert(forall|j: int|
                        0 <= j < i ==> final(self).holidays@[j] == old(self).holidays@[j]);
                    assert(forall|j: int|
                        i <= j < nv.len() ==> final(self).holidays@[j] == old(self).holidays@[j
                            + 1]);
                    assert(forall|j: int| 0 <= j < i ==> nv[j] == ov[j]);
                    assert(forall|j: int| i <= j < nv.len() ==> nv[j] == ov[j + 1]);
                    assert(ov[i as int] == dn as int);
                    assert forall|x: int|
                        nv.contains(x) <==> (ov.contains(x) && x != dn as int) by {
                        if nv.contains(x) {
                            let j = choose|j: int| 0 <= j < nv.len() && nv[j] == x;
                            if j < i {
                                assert(ov[j] == x);
                                assert(ov[j] != ov[i as int]);
                            } else {
                                assert(ov[j + 1] == x);
                                assert(ov[i as int] != ov[j + 1]);
                            }
                        }
                        if ov.contains(x) && x != dn as int {
                            let j = choose|j: int| 0 <= j < ov.len() && ov[j] == x;
                            if j < i {
                                assert(nv[j] == x);
                            } else {
                                assert(j != i);
                                assert(nv[j - 1] == x);
                            }
                        }
                    }
                    assert forall|i2: int, j2: int| 0 <= i2 < j2 < nv.len() implies nv[i2]
                        != nv[j2] by {
                        if j2 < i {
                            assert(ov[i2] != ov[j2]);
                        } else if i2 < i {
                            assert(ov[i2] != ov[j2 + 1]);
                        } else {
                            assert(ov[i2 + 1] != ov[j2 + 1]);
                        }
                    }
                    assert(final(self).holiday_set() =~= old(self).holiday_set().remove(
                        dn as int,
                    ));
                    assert(final(self).has_work_days() == old(self).has_work_days()) by {
                        if old(self).has_work_days() {
                            let r = choose|r: int| 0 <= r < 7 && old(self).works_index(r);
                            assert(final(self).works_index(r));
                        }
                        if final(self).has_work_days() {
                            let r = choose|r: int| 0 <= r < 7 && final(self).works_index(r);
                            assert(old(self).works_index(r));
                        }
                    }
                }
                return ;
            }
            i = i + 1;
        }
        proof {
            assert forall|j: int| 0 <= j < self.holidays_view().len() implies self.holidays_view()[j] != dn as int by {
                assert(self.holidays@[j].day_index() != dn as int);
            }
            assert(final(self).holiday_set() =~= old(self).holiday_set().remove(dn as int));
        }
    }

    fn is_work_date_exec(&self, dn: i64) -> (b: bool)
        requires
            0 <= dn <= MAX_DAY_NUMBER as int + 1,
        ensures
            b == self.is_work_date(dn as int),
    {
        let r = ((dn + 5) % 7) as u8;
        let works = if r == 0 {
            self.mon
        } else if r == 1 {
            self.tue
        } else if r == 2 {
            self.wed
        } else if r == 3 {
            self.thu
        } else if r == 4 {
            self.fri
        } else if r == 5 {
            self.sat
        } else {
            self.sun
        };
        proof {
            lemma_mod_bound(dn as int + 5, 7);
        }
        if !works {
            return false;
        }
        let mut i: usize = 0;
        while i < self.holidays.len()
            invariant
                0 <= i <= self.holidays@.len(),
                forall|j: int| 0 <= j < i ==> self.holidays@[j].day_index() != dn as int,
            decreases self.holidays@.len() - i,
        {
            if self.holidays[i].day_value() == dn {
                proof {
                    assert(self.holidays_view()[i as int] == dn as int);
                    assert(self.holidays_view().contains(dn as int));
                }
                return false;
            }
            i = i + 1;
        }
        proof {
            assert forall|j: int| 0 <= j < self.holidays_view().len() implies self.holidays_view()[j] != dn as int by {
                assert(self.holidays@[j].day_index() != dn as int);
            }
        }
        true
    }

    fn list_names_weekday(items: &Vec<Vec<char>>, w: Weekday) -> (r: bool)
        ensures
            r == exists|i: int|
                0 <= i < items.deep_view().len() && weekday_of_name(
                    trim_spec(items.deep_view()[i]),
                ) == Some(w),
    {
        let mut i: usize = 0;
        while i < items.len()
            invariant
                0 <= i <= items@.len(),
                forall|j: int|
                    0 <= j < i ==> weekday_of_name(trim_spec(items.deep_view()[j])) != Some(w),
            decreases items@.len() - i,
        {
            proof {
                lemma_deep_view_index(*items);
            }
            let t = trim_slice(items[i].as_slice());
            let p = parse_weekday_chars(t.as_slice());
            match p {
                Some(got) => {
                    if got == w {
                        proof {
                            assert(weekday_of_name(trim_spec(items.deep_view()[i as int]))
                                == Some(w));
                        }
                        return true;
                    }
                },
                None => {},
            }
            i = i + 1;
        }
        proof {
            lemma_deep_view_index(*items);
        }
        false
    }

    /// Replaces the entire work-day set with the weekdays named in the
    /// comma-separated list `days` (case-insensitive names or three-letter
    /// abbreviations, surrounding whitespace ignored per item). Items that
    /// fail to parse are dropped; when every item fails, the call fails with
    /// [`CalendarError::NoValidWorkDays`] and the calendar is unchanged.
    pub fn set_work_days(&mut self, days: &str) -> (r: Result<(), CalendarError>)
        ensures
            match r {
                Ok(()) => {
                    &&& forall|w: Weekday|
                        final(self).is_work_weekday(w) <==> names_in_list(days@, w)
                    &&& exists|w: Weekday| names_in_list(days@, w)
                },
                Err(e) => {
                    &&& e == CalendarError::NoValidWorkDays
                    &&& *final(self) == *old(self)
                    &&& forall|w: Weekday| !names_in_list(days@, w)
                },
            },
            final(self).holidays_view() == old(self).holidays_view(),
            final(self).holiday_count() == old(self).holiday_count(),
            final(self).holiday_set() == old(self).holiday_set(),
            old(self).wf() ==> final(self).wf(),
    {
        let v = chars_vec(days);
        let items = split_commas_slice(v.as_slice());
        let mo = Self::list_names_weekday(&items, Weekday::Mon);
        let tu = Self::list_names_weekday(&items, Weekday::Tue);
        let we = Self::list_names_weekday(&items, Weekday::Wed);
        let th = Self::list_names_weekday(&items, Weekday::Thu);
        let fr = Self::list_names_weekday(&items, Weekday::Fri);
        let sa = Self::list_names_weekday(&items, Weekday::Sat);
        let su = Self::list_names_weekday(&items, Weekday::Sun);
        if !(mo || tu || we || th || fr || sa || su) {
            proof {
                assert forall|w: Weekday| !names_in_list(days@, w) by {
                    if w == Weekday::Mon {
                    } else if w == Weekday::Tue {
                    } else if w == Weekday::Wed {
                    } else if w == Weekday::Thu {
                    } else if w == Weekday::Fri {
                    } else if w == Weekday::Sat {
                    } else {
                        assert(w == Weekday::Sun);
                    }
                }
            }
            return Err(CalendarError::NoValidWorkDays);
        }
        self.mon = mo;
        self.tue = tu;
        self.wed = we;
        self.thu = th;
        self.fri = fr;
        self.sat = sa;
        self.sun = su;
        proof {
            assert(final(self).holidays_view() =~= old(self).holidays_view());
            assert forall|w: Weekday|
                final(self).is_work_weekday(w) <==> names_in_list(days@, w) by {
                if w == Weekday::Mon {
                } else if w == Weekday::Tue {
                } else if w == Weekday::Wed {
                } else if w == Weekday::Thu {
                } else if w == Weekday::Fri {
                } else if w == Weekday::Sat {
                } else {
                    assert(w == Weekday::Sun);
                }
            }
            if mo {
                assert(names_in_list(days@, Weekday::Mon));
            } else if tu {
                assert(names_in_list(days@, Weekday::Tue));
            } else if we {
                assert(names_in_list(days@, Weekday::Wed));
            } else if th {
                assert(names_in_list(days@, Weekday::Thu));
            } else if fr {
                assert(names_in_list(days@, Weekday::Fri));
            } else if sa {
                assert(names_in_list(days@, Weekday::Sat));
            } else {
                assert(names_in_list(days@, Weekday::Sun));
            }
        }
        Ok(())
    }

    pub(crate) fn set_work_flags(
        &mut self,
        mo: bool,
        tu: bool,
        we: bool,
        th: bool,
        fr: bool,
        sa: bool,
        su: bool,
    )
        ensures
            final(self).is_work_weekday(Weekday::Mon) == mo,
            final(self).is_work_weekday(Weekday::Tue) == tu,
            final(self).is_work_weekday(Weekday::Wed) == we,
            final(self).is_work_weekday(Weekday::Thu) == th,
            final(self).is_work_weekday(Weekday::Fri) == fr,
            final(self).is_work_weekday(Weekday::Sat) == sa,
            final(self).is_work_weekday(Weekday::Sun) == su,
            final(self).holidays_view() == old(self).holidays_view(),
            final(self).holiday_set() == old(self).holiday_set(),
            final(self).holiday_count() == old(self).holiday_count(),
            old(self).wf() ==> final(self).wf(),
    {
        self.mon = mo;
        self.tue = tu;
        self.wed = we;
        self.thu = th;
        self.fri = fr;
        self.sat = sa;
        self.sun = su;
        proof {
            assert(final(self).holidays_view() =~= old(self).holidays_view());
        }
    }

    /// Whether `s` is the title-cased name of one of the work days.
    spec fn is_work_title(self, s: Seq<char>) -> bool {
        exists|w: Weekday| self.is_work_weekday(w) && s == weekday_title_name(w)
    }

    /// The configuration value describing this calendar: title-cased full
    /// names of the work days in Monday-to-Sunday order, and `YYYY-MM-DD`
    /// strings for the holidays in stored order.
    pub fn to_config(&self) -> (r: WorkCalendarConfig)
        requires
            self.wf(),
        ensures
            r.work_days is Some,
            r.holidays is Some,
            r.work_days matches Some(l) ==> forall|w: Weekday|
                (exists|i: int|
                    0 <= i < l.deep_view().len() && weekday_of_name(l.deep_view()[i]) == Some(w))
                    <==> self.is_work_weekday(w),
            r.holidays matches Some(h) ==> {
                &&& h.deep_view().len() == self.holiday_count()
                &&& forall|i: int|
                    0 <= i < h.deep_view().len() ==> date_of_string(h.deep_view()[i]) == Some(
                        self.holidays_view()[i],
                    )
            },
    {
        let mut all: Vec<Weekday> = Vec::new();
        all.push(Weekday::Mon);
        all.push(Weekday::Tue);
        all.push(Weekday::Wed);
        all.push(Weekday::Thu);
        all.push(Weekday::Fri);
        all.push(Weekday::Sat);
        all.push(Weekday::Sun);
        proof {
            assert(all@ =~= seq![
                Weekday::Mon,
                Weekday::Tue,
                Weekday::Wed,
                Weekday::Thu,
                Weekday::Fri,
                Weekday::Sat,
                Weekday::Sun,
            ]);
        }
        let mut names: Vec<String> = Vec::new();
        let mut k: usize = 0;
        while k < all.len()
            invariant
                0 <= k <= all@.len(),
                all@.len() == 7,
                all@ =~= seq![
                    Weekday::Mon,
                    Weekday::Tue,
                    Weekday::Wed,
                    Weekday::Thu,
                    Weekday::Fri,
                    Weekday::Sat,
                    Weekday::Sun,
                ],
                forall|i: int|
                    0 <= i < names.deep_view().len() ==> self.is_work_title(
                        #[trigger] names.deep_view()[i],
                    ),
                forall|j: int|
                    0 <= j < k && self.is_work_weekday(all@[j]) ==> exists|i: int|
                        0 <= i < names.deep_view().len() && names.deep_view()[i]
                            == weekday_title_name(all@[j]),
            decreases all@.len() - k,
        {
            let ghost oldnames = names.deep_view();
            proof {
                lemma_deep_view_strings(names);
            }
            let w = all[k];
            if self.is_work_day(&w) {
                let t = weekday_title_string(&w);
                names.push(t);
                proof {
                    lemma_deep_view_strings(names);
                    assert(names.deep_view().len() == oldnames.len() + 1);
                    assert(forall|i: int|
                        0 <= i < oldnames.len() ==> names.deep_view()[i] == oldnames[i]);
                    assert(names.deep_view()[oldnames.len() as int] == weekday_title_name(w));
                    assert(self.is_work_weekday(w));
                    assert forall|i: int|
                        0 <= i < names.deep_view().len() implies self.is_work_title(
                        names.deep_view()[i],
                    ) by {
                        if i < oldnames.len() {
                            assert(names.deep_view()[i] == oldnames[i]);
                            assert(self.is_work_title(oldnames[i]));
                        } else {
                            assert(names.deep_view()[i] == weekday_title_name(w));
                        }
                    }
                }
            }
            k = k + 1;
        }
        let mut dates: Vec<String> = Vec::new();
        let mut i: usize = 0;
        while i < self.holidays.len()
            invariant
                0 <= i <= self.holidays@.len(),
                self.wf(),
                dates.deep_view().len() == i,
                forall|j: int|
                    0 <= j < i ==> date_of_string(dates.deep_view()[j]) == Some(
                        self.holidays_view()[j],
                    ),
            decreases self.holidays@.len() - i,
        {
            let ghost olddates = dates.deep_view();
            proof {
                lemma_deep_view_strings(dates);
            }
            let cv = self.holidays[i].date_chars();
            let ds = string_from_chars(&cv);
            dates.push(ds);
            proof {
                lemma_deep_view_strings(dates);
                assert(forall|j: int|
                    0 <= j < olddates.len() ==> dates.deep_view()[j] == olddates[j]);
                assert(dates.deep_view()[olddates.len() as int] == cv@);
            }
            i = i + 1;
        }
        proof {
            assert forall|w: Weekday|
                (exists|i2: int|
                    0 <= i2 < names.deep_view().len() && weekday_of_name(names.deep_view()[i2])
                        == Some(w)) <==> self.is_work_weekday(w) by {
                lemma_title_name_parses(Weekday::Mon);
                lemma_title_name_parses(Weekday::Tue);
                lemma_title_name_parses(Weekday::Wed);
                lemma_title_name_parses(Weekday::Thu);
                lemma_title_name_parses(Weekday::Fri);
                lemma_title_name_parses(Weekday::Sat);
                lemma_title_name_parses(Weekday::Sun);
                if self.is_work_weekday(w) {
                    assert(w == Weekday::Mon || w == Weekday::Tue || w == Weekday::Wed || w
                        == Weekday::Thu || w == Weekday::Fri || w == Weekday::Sat || w
                        == Weekday::Sun);
                    if w == Weekday::Mon {
                        assert(all@[0] == w);
                    } else if w == Weekday::Tue {
                        assert(all@[1] == w);
                    } else if w == Weekday::Wed {
                        assert(all@[2] == w);
                    } else if w == Weekday::Thu {
                        assert(all@[3] == w);
                    } else if w == Weekday::Fri {
                        assert(all@[4] == w);
                    } else if w == Weekday::Sat {
                        assert(all@[5] == w);
                    } else {
                        assert(all@[6] == w);
                    }
                    let i2 = choose|i2: int|
                        0 <= i2 < names.deep_view().len() && names.deep_view()[i2]
                            == weekday_title_name(w);
                    assert(weekday_of_name(names.deep_view()[i2]) == Some(w));
                }
                if exists|i2: int|
                    0 <= i2 < names.deep_view().len() && weekday_of_name(names.deep_view()[i2])
                        == Some(w) {
                    let i2 = choose|i2: int|
                        0 <= i2 < names.deep_view().len() && weekday_of_name(
                            names.deep_view()[i2],
                        ) == Some(w);
                    assert(self.is_work_title(names.deep_view()[i2]));
                    let w2 = choose|w2: Weekday|
                        self.is_work_weekday(w2) && names.deep_view()[i2] == weekday_title_name(
                            w2,
                        );
                    assert(weekday_of_name(weekday_title_name(w2)) == Some(w2));
                }
            }
        }
        WorkCalendarConfig { work_days: Some(names), holidays: Some(dates) }
    }

    /// Counts the work days between two dates, both ends included; an empty
    /// range (end before start) counts zero.
    pub fn work_days_between(&self, start_date: Date, end_date: Date) -> (n: i64)
        requires
            self.wf(),
            start_date.is_valid(),
            end_date.is_valid(),
        ensures
            n as int == self.work_day_count(start_date.day_index(), end_date.day_index()),
            0 <= n,
    {
        let s = start_date.day_value();
        let e = end_date.day_value();
        let mut count: i64 = 0;
        let mut c: i64 = s;
        while c <= e
            invariant
                self.wf(),
                0 <= s <= MAX_DAY_NUMBER as int,
                e <= MAX_DAY_NUMBER as int,
                s <= c,
                c <= e + 1 || c == s,
                count as int == self.work_day_count(s as int, c as int - 1),
                0 <= count <= c - s,
            decreases e - c + 1,
        {
            if self.is_work_date_exec(c) {
                count = count + 1;
            }
            c = c + 1;
            proof {
                assert(self.work_day_count(s as int, c as int - 1) == self.work_day_count(
                    s as int,
                    c as int - 2,
                ) + if self.is_work_date(c as int - 1) {
                    1int
                } else {
                    0int
                });
            }
        }
        proof {
            if e < s {
                assert(self.work_day_count(s as int, e as int) == 0);
            }
        }
        count
    }

    /// Walks forward from `start_date` until `days_worked` work days have
    /// been consumed, counting `start_date` itself when it is worked, and
    /// returns the end date together with the elapsed span of calendar days.
    ///
    /// A negative count is rejected as [`CalendarError::InvalidArgument`];
    /// an empty work-day set as [`CalendarError::EmptyConfiguration`].
    ///
    /// The precondition keeps the walk inside the supported date range: at
    /// most seven calendar days pass per requested work day or stored
    /// holiday. [`crate::date::lemma_day_number_upper_bound`] gives callers
    /// a coarse day-number bound with which to discharge it.
    pub fn compute_end_date(&self, start_date: Date, days_worked: i64) -> (r: Result<
        (Date, i64),
        CalendarError,
    >)
        requires
            self.wf(),
            start_date.is_valid(),
            0 <= days_worked && self.has_work_days() ==> start_date.day_index() + 7 * (
            days_worked as int + self.holiday_count() + 1) <= MAX_DAY_NUMBER as int,
        ensures
            r is Err <==> (days_worked < 0 || !self.has_work_days()),
            match r {
                Ok(p) => {
                    &&& p.0.is_valid()
                    &&& self.is_end_date(start_date.day_index(), days_worked as int,
                        p.0.day_index())
                    &&& start_date.day_index() <= p.0.day_index()
                    &&& p.1 as int == p.0.day_index() - start_date.day_index()
                    &&& 0 <= p.1
                    &&& (p.0 == start_date <==> (days_worked == 0 || (days_worked == 1
                        && self.is_work_date(start_date.day_index()))))
                },
                Err(e) => {
                    &&& (e == CalendarError::InvalidArgument <==> days_worked < 0)
                    &&& (e == CalendarError::EmptyConfiguration <==> (0 <= days_worked
                        && !self.has_work_days()))
                },
            },
    {
        if days_worked < 0 {
            return Err(CalendarError::InvalidArgument);
        }
        if !self.has_work_days_exec() {
            return Err(CalendarError::EmptyConfiguration);
        }
        let s = start_date.day_value();
        let ghost n: int = days_worked as int;
        let ghost hmax: int = self.holiday_count();
        let mut current: i64 = s;
        let mut remaining: i64 = days_worked;
        if self.is_work_date_exec(current) {
            remaining = remaining - 1;
        }
        proof {
            assert(self.work_day_count(s as int, s as int - 1) == 0);
            assert(self.work_day_count(s as int, s as int) == if self.is_work_date(s as int) {
                1int
            } else {
                0int
            });
            self.lemma_gap_props(s as int);
            self.lemma_holiday_set_bound();
        }
        let ghost blocked: Set<int> = Set::empty();
        while remaining > 0
            invariant
                self.wf(),
                self.has_work_days(),
                0 <= s <= MAX_DAY_NUMBER as int,
                s as int + 7 * (n + hmax + 1) <= MAX_DAY_NUMBER as int,
                hmax == self.holiday_count(),
                0 <= n,
                s <= current,
                -1 <= remaining <= n,
                n >= 1 ==> remaining >= 0,
                n == 0 ==> current == s,
                self.work_day_count(s as int, current as int) == n - remaining,
                current as int == s as int ==> n - remaining == (if self.is_work_date(s as int) {
                    1int
                } else {
                    0int
                }),
                remaining == 0 ==> ((n == 0 && current == s) || self.is_work_date(current as int)),
                blocked.finite(),
                blocked.subset_of(self.holiday_set()),
                forall|d: int| blocked.contains(d) ==> s < d <= current,
                current as int + self.gap_to_work(current as int) <= s as int + self.gap_to_work(
                    s as int,
                ) + 7 * ((n - remaining) + blocked.len()),
            decreases remaining, MAX_DAY_NUMBER as int - current,
        {
            proof {
                self.lemma_holiday_set_bound();
                lemma_len_subset(blocked, self.holiday_set());
                self.lemma_gap_props(s as int);
                self.lemma_gap_props(current as int);
                assert(current as int + 1 <= s as int + 7 + 7 * ((n - remaining) + hmax));
            }
            let ghost prev: int = current as int;
            current = current + 1;
            let consumed_here = self.is_work_date_exec(current);
            proof {
                self.lemma_gap_props(prev + 1);
                assert(self.work_day_count(s as int, prev + 1) == self.work_day_count(
                    s as int,
                    prev,
                ) + if self.is_work_date(prev + 1) {
                    1int
                } else {
                    0int
                });
                lemma_weekday_step(prev, 1);
                if self.works_index(weekday_index_of(prev + 1)) {
                    assert(self.gap_to_work(prev) == 1);
                    if !consumed_here {
                        assert(self.is_holiday_dn(prev + 1));
                        assert(!blocked.contains(prev + 1));
                        blocked = blocked.insert(prev + 1);
                    }
                } else {
                    self.lemma_gap_step(prev);
                    assert(!self.is_work_date(prev + 1));
                }
            }
            if consumed_here {
                remaining = remaining - 1;
            }
        }
        proof {
            self.lemma_holiday_set_bound();
            lemma_len_subset(blocked, self.holiday_set());
            self.lemma_gap_props(s as int);
            self.lemma_gap_props(current as int);
            assert(current as int <= MAX_DAY_NUMBER as int);
        }
        let end = Date::from_day_number(current);
        let span = current - s;
        proof {
            crate::date::lemma_date_eq_day_index(end, start_date);
            if n >= 1 {
                assert(remaining == 0);
                assert(self.is_work_date(current as int));
                assert(self.work_day_count(s as int, current as int) == n);
                if current as int > s as int && n == 1 && self.is_work_date(s as int) {
                    assert(self.work_day_count(s as int, s as int) == 1) by {
                        assert(self.work_day_count(s as int, s as int - 1) == 0);
                    }
                    self.lemma_work_count_monotone(s as int, s as int, current as int - 1);
                    assert(self.work_day_count(s as int, current as int) >= 2);
                }
            }
        }
        Ok((end, span))
    }
}

/// An end date never lies before the start date, and moves strictly forward
/// except when zero days are requested or the single requested day is the
/// worked start date itself.
pub proof fn lemma_end_date_not_before_start(cal: WorkCalendar, s: int, n: int, e: int)
    requires
        0 <= n,
        cal.is_end_date(s, n, e),
    ensures
        s <= e,
        e == s <==> (n == 0 || (n == 1 && cal.is_work_date(s))),
{
    if n > 0 {
        if e == s {
            assert(cal.work_day_count(s, s - 1) == 0);
        } else if n == 1 && cal.is_work_date(s) {
            assert(cal.work_day_count(s, s - 1) == 0);
            assert(cal.work_day_count(s, s) == 1);
            cal.lemma_work_count_monotone(s, s, e - 1);
            assert(cal.work_day_count(s, e) >= 2);
        }
    }
}

/// Walking farther never ends earlier: with the same calendar and start,
/// an end date for a larger work-day count never precedes one for a smaller
/// count.
pub proof fn lemma_end_date_monotone(cal: WorkCalendar, s: int, n1: int, n2: int, e1: int, e2: int)
    requires
        0 <= n1 <= n2,
        cal.is_end_date(s, n1, e1),
        cal.is_end_date(s, n2, e2),
    ensures
        e1 <= e2,
{
    if n1 == 0 {
        if n2 == 0 {
        } else {
            assert(s <= e2);
        }
    } else {
        if e2 < e1 {
            cal.lemma_work_count_monotone(s, e2, e1);
            assert(n2 <= n1);
            cal.lemma_work_count_monotone(s, e2, e1 - 1);
            assert(cal.work_day_count(s, e1) == cal.work_day_count(s, e1 - 1) + 1);
            assert(false);
        }
    }
}

/// Counting over a single-day range yields 1 exactly when that day is
/// worked, else 0.
pub proof fn lemma_single_day_count(cal: WorkCalendar, d: int)
    ensures
        cal.work_day_count(d, d) == if cal.is_work_date(d) {
            1int
        } else {
            0int
        },
{
    assert(cal.work_day_count(d, d - 1) == 0);
}

/// Counting over an empty range (end before start) yields 0.
pub proof fn lemma_empty_range_count(cal: WorkCalendar, d1: int, d2: int)
    requires
        d2 < d1,
    ensures
        cal.work_day_count(d1, d2) == 0,
{
}

/// Adding the same holiday twice leaves the holiday set exactly as a single
/// addition does.
pub proof fn lemma_add_holiday_idempotent(
    c0: WorkCalendar,
    c1: WorkCalendar,
    c2: WorkCalendar,
    x: int,
)
    requires
        c1.holiday_set() == c0.holiday_set().insert(x),
        c2.holiday_set() == c1.holiday_set().insert(x),
    ensures
        c2.holiday_set() == c1.holiday_set(),
{
    assert(c1.holiday_set().insert(x) =~= c0.holiday_set().insert(x));
}

} // verus!
