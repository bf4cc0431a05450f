//! Calendar dates of the proleptic Gregorian calendar.
//!
//! A [`Date`] is stored as its day number: the count of days since
//! 0000-01-01. Day numbers make date arithmetic (stepping one day forward,
//! taking differences, finding the weekday) plain integer arithmetic, while
//! [`Date::from_ymd`] and [`Date::to_ymd`] convert between day numbers and
//! calendar-correct year/month/day triples.

use vstd::prelude::*;
use vstd::arithmetic::div_mod::{
    lemma_fundamental_div_mod, lemma_fundamental_div_mod_converse, lemma_mod_bound,
};

verus! {

/// Whether `y` is a leap year in the proleptic Gregorian calendar.
pub open spec fn is_leap_year(y: int) -> bool {
    y % 4 == 0 && (y % 100 != 0 || y % 400 == 0)
}

pub open spec fn days_in_year(y: int) -> int {
    if is_leap_year(y) {
        366
    } else {
        365
    }
}

pub open spec fn days_in_month(y: int, m: int) -> int {
    if m == 2 {
        if is_leap_year(y) {
            29
        } else {
            28
        }
    } else if m == 4 || m == 6 || m == 9 || m == 11 {
        30
    } else {
        31
    }
}

/// Days in all years from year 0 (inclusive) up to year `y` (exclusive).
pub open spec fn days_before_year(y: int) -> int
    decreases y,
{
    if y <= 0 {
        0
    } else {
        days_before_year(y - 1) + days_in_year(y - 1)
    }
}

/// Days in all months of year `y` before month `m`.
pub open spec fn days_before_month(y: int, m: int) -> int
    decreases m,
{
    if m <= 1 {
        0
    } else {
        days_before_month(y, m - 1) + days_in_month(y, m - 1)
    }
}

/// A calendar-correct year/month/day triple within the supported year range.
pub open spec fn valid_ymd(y: int, m: int, d: int) -> bool {
    &&& 0 <= y <= 9999
    &&& 1 <= m <= 12
    &&& 1 <= d <= days_in_month(y, m)
}

/// The day number of a date: days since 0000-01-01.
pub open spec fn day_number(y: int, m: int, d: int) -> int {
    days_before_year(y) + days_before_month(y, m) + (d - 1)
}

/// The largest supported day number, that of 9999-12-31.
pub const MAX_DAY_NUMBER: i64 = 3652424;

/// Leap years from year 0 (inclusive) up to year `y` (exclusive), in closed form.
pub open spec fn leap_years_before(y: int) -> int {
    if y <= 0 {
        0
    } else {
        (y - 1) / 4 - (y - 1) / 100 + (y - 1) / 400 + 1
    }
}

proof fn lemma_div_decrement(x: int, k: int)
    requires
        1 <= x,
        1 <= k,
    ensures
        x / k - (x - 1) / k == if x % k == 0 {
            1int
        } else {
            0int
        },
{
    lemma_fundamental_div_mod(x, k);
    lemma_mod_bound(x, k);
    let q = x / k;
    let r = x % k;
    if r == 0 {
        assert(x - 1 == (q - 1) * k + (k - 1)) by (nonlinear_arith)
            requires
                x == k * q + r,
                r == 0,
        ;
        lemma_fundamental_div_mod_converse(x - 1, k, q - 1, k - 1);
    } else {
        assert(x - 1 == q * k + (r - 1)) by (nonlinear_arith)
            requires
                x == k * q + r,
        ;
        lemma_fundamental_div_mod_converse(x - 1, k, q, r - 1);
    }
}

proof fn lemma_divisible_implies(x: int, m: int, k: int)
    requires
        1 <= m,
        1 <= k,
        x % (m * k) == 0,
    ensures
        x % m == 0,
{
    assert(1 <= m * k) by (nonlinear_arith)
        requires
            1 <= m,
            1 <= k,
    ;
    lemma_fundamental_div_mod(x, m * k);
    let q = x / (m * k);
    assert((m * k) * q == (k * q) * m) by (nonlinear_arith);
    lemma_fundamental_div_mod_converse(x, m, k * q, 0);
}

/// The recursive year-by-year day count agrees with the closed form.
pub proof fn lemma_days_before_year_closed(y: int)
    requires
        0 <= y,
    ensures
        days_before_year(y) == 365 * y + leap_years_before(y),
    decreases y,
{
    if y == 0 {
    } else if y == 1 {
        assert(days_before_year(0) == 0);
        assert(days_before_year(1) == days_before_year(0) + days_in_year(0));
        assert(is_leap_year(0));
    } else {
        assert(days_before_year(y) == days_before_year(y - 1) + days_in_year(y - 1));
        lemma_days_before_year_closed(y - 1);
        let x = y - 1;
        lemma_div_decrement(x, 4);
        lemma_div_decrement(x, 100);
        lemma_div_decrement(x, 400);
        let ind4: int = if x % 4 == 0 {
            1
        } else {
            0
        };
        let ind100: int = if x % 100 == 0 {
            1
        } else {
            0
        };
        let ind400: int = if x % 400 == 0 {
            1
        } else {
            0
        };
        assert(leap_years_before(y) - leap_years_before(y - 1) == ind4 - ind100 + ind400);
        if x % 400 == 0 {
            lemma_divisible_implies(x, 100, 4);
            lemma_divisible_implies(x, 4, 100);
            assert(is_leap_year(x));
        } else if x % 100 == 0 {
            lemma_divisible_implies(x, 4, 25);
            assert(!is_leap_year(x));
        }
        assert(ind4 - ind100 + ind400 == if is_leap_year(x) {
            1int
        } else {
            0int
        });
    }
}

/// Day counts of years grow with the year, strictly so.
pub proof fn lemma_days_before_year_monotone(a: int, b: int)
    requires
        a <= b,
    ensures
        days_before_year(a) <= days_before_year(b),
        a < b && 0 <= a ==> days_before_year(a) + 365 <= days_before_year(b),
    decreases b - a,
{
    if a < b {
        lemma_days_before_year_monotone(a, b - 1);
    }
}

pub proof fn lemma_days_before_year_nonneg(y: int)
    ensures
        0 <= days_before_year(y),
    decreases y,
{
    if y > 0 {
        lemma_days_before_year_nonneg(y - 1);
    }
}

/// Month day counts grow with the month, strictly so.
pub proof fn lemma_days_before_month_monotone(y: int, a: int, b: int)
    requires
        1 <= a <= b,
    ensures
        days_before_month(y, a) <= days_before_month(y, b),
        a < b ==> days_before_month(y, a) + 28 <= days_before_month(y, b),
    decreases b - a,
{
    if a < b {
        lemma_days_before_month_monotone(y, a, b - 1);
    }
}

/// The twelve months of a year sum to the length of the year.
pub proof fn lemma_months_cover_year(y: int)
    ensures
        days_before_month(y, 13) == days_in_year(y),
{
    assert(days_before_month(y, 13) == days_in_year(y)) by {
        reveal_with_fuel(days_before_month, 13);
    }
}

/// Every valid date has a day number within the supported range.
pub proof fn lemma_day_number_in_range(y: int, m: int, d: int)
    requires
        valid_ymd(y, m, d),
    ensures
        0 <= day_number(y, m, d) <= MAX_DAY_NUMBER as int,
{
    lemma_days_before_year_nonneg(y);
    lemma_days_before_month_monotone(y, 1, m);
    lemma_days_before_month_monotone(y, m, 12);
    lemma_months_cover_year(y);
    assert(days_before_month(y, 13) == days_before_month(y, 12) + days_in_month(y, 12));
    assert(day_number(y, m, d) < days_before_year(y) + days_in_year(y)) by {
        lemma_days_before_month_monotone(y, m + 1, 13);
    }
    lemma_days_before_year_monotone(y + 1, 10000);
    lemma_days_before_year_closed(10000);
}

proof fn lemma_days_before_year_upper(y: int)
    requires
        0 <= y,
    ensures
        days_before_year(y) <= 366 * y,
    decreases y,
{
    if y > 0 {
        lemma_days_before_year_upper(y - 1);
    }
}

/// A coarse bound on day numbers, convenient for callers that must show a
/// walk stays within the supported range: a date of year `y` has a day
/// number below `366 * (y + 1)`.
pub proof fn lemma_day_number_upper_bound(y: int, m: int, d: int)
    requires
        valid_ymd(y, m, d),
    ensures
        0 <= day_number(y, m, d) < 366 * (y + 1),
{
    lemma_day_number_in_range(y, m, d);
    lemma_days_before_year_nonneg(y);
    lemma_days_before_month_monotone(y, 1, m);
    lemma_months_cover_year(y);
    assert(days_before_month(y, 13) == days_before_month(y, 12) + days_in_month(y, 12));
    assert(day_number(y, m, d) < days_before_year(y) + days_in_year(y)) by {
        lemma_days_before_month_monotone(y, m + 1, 13);
    }
    lemma_days_before_year_upper(y);
}

/// Weekday of a day number, as an index with 0 for Monday through 6 for Sunday.
///
/// Day 0 (0000-01-01) is a Saturday, hence the shift by 5.
pub open spec fn weekday_index_of(dn: int) -> int {
    (dn + 5) % 7
}

/// A calendar date, held as its day number.
#[derive(Clone, Copy, PartialEq, Eq, Structural, Debug)]
pub struct Date {
    days: i64,
}

/// Dates are equal exactly when their day numbers are.
pub proof fn lemma_date_eq_day_index(a: Date, b: Date)
    ensures
        (a == b) <==> (a.day_index() == b.day_index()),
{
}

fn is_leap_year_exec(y: i32) -> (b: bool)
    requires
        0 <= y,
    ensures
        b == is_leap_year(y as int),
{
    y % 4 == 0 && (y % 100 != 0 || y % 400 == 0)
}

fn days_in_year_exec(y: i32) -> (n: i64)
    requires
        0 <= y,
    ensures
        n == days_in_year(y as int),
{
    if is_leap_year_exec(y) {
        366
    } else {
        365
    }
}

fn days_in_month_exec(y: i32, m: u32) -> (n: u32)
    requires
        0 <= y,
        1 <= m <= 12,
    ensures
        n == days_in_month(y as int, m as int),
{
    if m == 2 {
        if is_leap_year_exec(y) {
            29
        } else {
            28
        }
    } else if m == 4 || m == 6 || m == 9 || m == 11 {
        30
    } else {
        31
    }
}

impl Date {
    /// The day number of this date: days since 0000-01-01.
    pub closed spec fn day_index(self) -> int {
        self.days as int
    }

    /// Whether the day number lies in the supported range.
    pub open spec fn is_valid(self) -> bool {
        0 <= self.day_index() <= MAX_DAY_NUMBER as int
    }

    /// Builds the date of the given year, month and day, or returns `None`
    /// when the triple is not a calendar-correct date of the supported range.
    pub fn from_ymd(year: i32, month: u32, day: u32) -> (r: Option<Date>)
        ensures
            r is Some <==> valid_ymd(year as int, month as int, day as int),
            r matches Some(d) ==> d.is_valid() && d.day_index() == day_number(
                year as int,
                month as int,
                day as int,
            ),
    {
        if !(0 <= year && year <= 9999) {
            return None;
        }
        if !(1 <= month && month <= 12) {
            return None;
        }
        let dim = days_in_month_exec(year, month);
        if !(1 <= day && day <= dim) {
            return None;
        }
        let mut acc: i64 = 0;
        let mut i: i32 = 0;
        while i < year
            invariant
                0 <= i <= year <= 9999,
                acc == days_before_year(i as int),
                0 <= acc <= 366 * i,
            decreases year - i,
        {
            acc = acc + days_in_year_exec(i);
            i = i + 1;
        }
        let mut m: u32 = 1;
        while m < month
            invariant
                0 <= year <= 9999,
                1 <= m <= month <= 12,
                acc == days_before_year(year as int) + days_before_month(year as int, m as int),
                0 <= acc <= 366 * 9999 + 31 * m,
            decreases month - m,
        {
            proof {
                lemma_days_before_year_nonneg(year as int);
                lemma_days_before_month_monotone(year as int, 1, m as int);
            }
            acc = acc + days_in_month_exec(year, m) as i64;
            m = m + 1;
        }
        let dn = acc + (day as i64) - 1;
        proof {
            lemma_day_number_in_range(year as int, month as int, day as int);
        }
        Some(Date { days: dn })
    }

    /// The year, month and day of this date.
    pub fn to_ymd(self) -> (r: (i32, u32, u32))
        requires
            self.is_valid(),
        ensures
            valid_ymd(r.0 as int, r.1 as int, r.2 as int),
            day_number(r.0 as int, r.1 as int, r.2 as int) == self.day_index(),
    {
        let days = self.days;
        let mut y: i32 = 0;
        let mut acc: i64 = 0;
        while acc + days_in_year_exec(y) <= days
            invariant
                0 <= y <= 9999,
                acc == days_before_year(y as int),
                0 <= acc <= days <= MAX_DAY_NUMBER,
            decreases MAX_DAY_NUMBER - acc,
        {
            acc = acc + days_in_year_exec(y);
            proof {
                lemma_days_before_year_monotone(y as int + 1, 10000);
                lemma_days_before_year_closed(10000);
            }
            y = y + 1;
        }
        let mut m: u32 = 1;
        while acc + (days_in_month_exec(y, m) as i64) <= days
            invariant
                1 <= m <= 12,
                0 <= y <= 9999,
                acc == days_before_year(y as int) + days_before_month(y as int, m as int),
                0 <= acc <= days <= MAX_DAY_NUMBER,
                days < days_before_year(y as int) + days_in_year(y as int),
            decreases 12 - m,
        {
            proof {
                lemma_months_cover_year(y as int);
                if m == 12 {
                    assert(days_before_month(y as int, 13) == days_before_month(y as int, 12)
                        + days_in_month(y as int, 12));
                }
            }
            acc = acc + days_in_month_exec(y, m) as i64;
            m = m + 1;
        }
        let d = (days - acc) as u32 + 1;
        (y, m, d)
    }

    /// The weekday of this date, as an index: 0 is Monday, 6 is Sunday.
    pub fn weekday_index(self) -> (w: u8)
        requires
            self.is_valid(),
        ensures
            w as int == weekday_index_of(self.day_index()),
            w < 7,
    {
        ((self.days + 5) % 7) as u8
    }

    /// Builds a date directly from its day number.
    pub(crate) fn from_day_number(days: i64) -> (d: Date)
        requires
            0 <= days <= MAX_DAY_NUMBER as int,
        ensures
            d.day_index() == days as int,
            d.is_valid(),
    {
        Date { days }
    }

    /// The day number as a machine integer.
    pub(crate) fn day_value(self) -> (n: i64)
        ensures
            n as int == self.day_index(),
    {
        self.days
    }

    /// The `YYYY-MM-DD` rendering of this date, as characters.
    pub(crate) fn date_chars(self) -> (r: Vec<char>)
        requires
            self.is_valid(),
        ensures
            date_of_string(r@) == Some(self.day_index()),
            r@.len() == 10,
    {
        let (y, m, d) = self.to_ymd();
        let ya = (y / 1000) as u32;
        let yr = (y % 1000) as u32;
        let yb = yr / 100;
        let yr2 = yr % 100;
        let yc = yr2 / 10;
        let yd = yr2 % 10;
        let ma = m / 10;
        let mb = m % 10;
        let da = d / 10;
        let db = d % 10;
        let mut r: Vec<char> = Vec::new();
        r.push(digit_char_exec(ya));
        r.push(digit_char_exec(yb));
        r.push(digit_char_exec(yc));
        r.push(digit_char_exec(yd));
        r.push('-');
        r.push(digit_char_exec(ma));
        r.push(digit_char_exec(mb));
        r.push('-');
        r.push(digit_char_exec(da));
        r.push(digit_char_exec(db));
        proof {
            assert(y as int == 1000 * (ya as int) + 100 * (yb as int) + 10 * (yc as int)
                + yd as int);
            assert(m as int == 10 * (ma as int) + mb as int);
            assert(d as int == 10 * (da as int) + db as int);
            assert(date_of_string(r@) == Some(self.day_index()));
        }
        r
    }
}

/// The numeric value of a digit character, or 10 for anything that is not a
/// digit.
pub open spec fn digit_char_val(c: char) -> int {
    if c == '0' {
        0
    } else if c == '1' {
        1
    } else if c == '2' {
        2
    } else if c == '3' {
        3
    } else if c == '4' {
        4
    } else if c == '5' {
        5
    } else if c == '6' {
        6
    } else if c == '7' {
        7
    } else if c == '8' {
        8
    } else if c == '9' {
        9
    } else {
        10
    }
}

pub open spec fn is_digit_char(c: char) -> bool {
    digit_char_val(c) != 10
}

fn digit_val_exec(c: char) -> (v: u32)
    ensures
        v as int == digit_char_val(c),
{
    if c == '0' {
        0
    } else if c == '1' {
        1
    } else if c == '2' {
        2
    } else if c == '3' {
        3
    } else if c == '4' {
        4
    } else if c == '5' {
        5
    } else if c == '6' {
        6
    } else if c == '7' {
        7
    } else if c == '8' {
        8
    } else if c == '9' {
        9
    } else {
        10
    }
}

fn digit_char_exec(v: u32) -> (c: char)
    requires
        v <= 9,
    ensures
        digit_char_val(c) == v as int,
{
    if v == 0 {
        '0'
    } else if v == 1 {
        '1'
    } else if v == 2 {
        '2'
    } else if v == 3 {
        '3'
    } else if v == 4 {
        '4'
    } else if v == 5 {
        '5'
    } else if v == 6 {
        '6'
    } else if v == 7 {
        '7'
    } else if v == 8 {
        '8'
    } else {
        '9'
    }
}

/// The day number encoded by a `YYYY-MM-DD` string: exactly ten characters,
/// four-digit zero-padded year, two-digit month and day, calendar-correct.
pub open spec fn date_of_string(s: Seq<char>) -> Option<int> {
    if s.len() == 10 && is_digit_char(s[0]) && is_digit_char(s[1]) && is_digit_char(s[2])
        && is_digit_char(s[3]) && s[4] == '-' && is_digit_char(s[5]) && is_digit_char(s[6]) && s[7]
        == '-' && is_digit_char(s[8]) && is_digit_char(s[9]) {
        let y = 1000 * digit_char_val(s[0]) + 100 * digit_char_val(s[1]) + 10 * digit_char_val(
            s[2],
        ) + digit_char_val(s[3]);
        let m = 10 * digit_char_val(s[5]) + digit_char_val(s[6]);
        let d = 10 * digit_char_val(s[8]) + digit_char_val(s[9]);
        if valid_ymd(y, m, d) {
            Some(day_number(y, m, d))
        } else {
            None
        }
    } else {
        None
    }
}

/// Parses a `YYYY-MM-DD` string into a date: exactly ten characters, with a
/// four-digit zero-padded year; calendar-incorrect triples yield `None`.
pub fn parse_date(s: &str) -> (r: Option<Date>)
    ensures
        r is Some <==> date_of_string(s@) is Some,
        r matches Some(d) ==> d.is_valid() && date_of_string(s@) == Some(d.day_index()),
{
    let v = crate::text::chars_vec(s);
    parse_date_chars(v.as_slice())
}

/// Parses a `YYYY-MM-DD` character slice into a date.
pub(crate) fn parse_date_chars(s: &[char]) -> (r: Option<Date>)
    ensures
        r is Some <==> date_of_string(s@) is Some,
        r matches Some(d) ==> d.is_valid() && date_of_string(s@) == Some(d.day_index()),
{
    if s.len() != 10 {
        return None;
    }
    let d0 = digit_val_exec(s[0]);
    let d1 = digit_val_exec(s[1]);
    let d2 = digit_val_exec(s[2]);
    let d3 = digit_val_exec(s[3]);
    let d5 = digit_val_exec(s[5]);
    let d6 = digit_val_exec(s[6]);
    let d8 = digit_val_exec(s[8]);
    let d9 = digit_val_exec(s[9]);
    if d0 == 10 || d1 == 10 || d2 == 10 || d3 == 10 || s[4] != '-' || d5 == 10 || d6 == 10 || s[7]
        != '-' || d8 == 10 || d9 == 10 {
        return None;
    }
    let y = 1000 * d0 + 100 * d1 + 10 * d2 + d3;
    let m = 10 * d5 + d6;
    let d = 10 * d8 + d9;
    Date::from_ymd(y as i32, m, d)
}

} // verus!
