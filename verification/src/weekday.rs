//! Weekdays and weekday-name parsing.

use vstd::prelude::*;
use crate::text::{chars_vec, lower_seq, lower_char, lower_vec};
use vstd::string::StringExecFns;

verus! {

/// One of the seven weekdays.
#[derive(Clone, Copy, PartialEq, Eq, Structural, Debug)]
pub enum Weekday {
    Mon,
    Tue,
    Wed,
    Thu,
    Fri,
    Sat,
    Sun,
}

impl Weekday {
    /// Index of the weekday: 0 for Monday through 6 for Sunday.
    pub open spec fn index_spec(self) -> int {
        match self {
            Weekday::Mon => 0,
            Weekday::Tue => 1,
            Weekday::Wed => 2,
            Weekday::Thu => 3,
            Weekday::Fri => 4,
            Weekday::Sat => 5,
            Weekday::Sun => 6,
        }
    }
}

/// The lowercase full English name of a weekday.
pub open spec fn weekday_full_token(w: Weekday) -> Seq<char> {
    match w {
        Weekday::Mon => seq!['m', 'o', 'n', 'd', 'a', 'y'],
        Weekday::Tue => seq!['t', 'u', 'e', 's', 'd', 'a', 'y'],
        Weekday::Wed => seq!['w', 'e', 'd', 'n', 'e', 's', 'd', 'a', 'y'],
        Weekday::Thu => seq!['t', 'h', 'u', 'r', 's', 'd', 'a', 'y'],
        Weekday::Fri => seq!['f', 'r', 'i', 'd', 'a', 'y'],
        Weekday::Sat => seq!['s', 'a', 't', 'u', 'r', 'd', 'a', 'y'],
        Weekday::Sun => seq!['s', 'u', 'n', 'd', 'a', 'y'],
    }
}

/// The lowercase three-letter abbreviation of a weekday.
pub open spec fn weekday_abbrev_token(w: Weekday) -> Seq<char> {
    match w {
        Weekday::Mon => seq!['m', 'o', 'n'],
        Weekday::Tue => seq!['t', 'u', 'e'],
        Weekday::Wed => seq!['w', 'e', 'd'],
        Weekday::Thu => seq!['t', 'h', 'u'],
        Weekday::Fri => seq!['f', 'r', 'i'],
        Weekday::Sat => seq!['s', 'a', 't'],
        Weekday::Sun => seq!['s', 'u', 'n'],
    }
}

/// Whether `s` names `w`: its ASCII lowercasing is the full name or the
/// three-letter abbreviation of `w`.
pub open spec fn names_weekday(s: Seq<char>, w: Weekday) -> bool {
    lower_seq(s) == weekday_full_token(w) || lower_seq(s) == weekday_abbrev_token(w)
}

/// The weekday named by `s`, if any: names are matched case-insensitively
/// against the full English names and the three-letter abbreviations.
pub open spec fn weekday_of_name(s: Seq<char>) -> Option<Weekday> {
    if names_weekday(s, Weekday::Mon) {
        Some(Weekday::Mon)
    } else if names_weekday(s, Weekday::Tue) {
        Some(Weekday::Tue)
    } else if names_weekday(s, Weekday::Wed) {
        Some(Weekday::Wed)
    } else if names_weekday(s, Weekday::Thu) {
        Some(Weekday::Thu)
    } else if names_weekday(s, Weekday::Fri) {
        Some(Weekday::Fri)
    } else if names_weekday(s, Weekday::Sat) {
        Some(Weekday::Sat)
    } else if names_weekday(s, Weekday::Sun) {
        Some(Weekday::Sun)
    } else {
        None
    }
}

fn match3(l: &Vec<char>, a: char, b: char, c: char) -> (r: bool)
    ensures
        r <==> l@ == seq![a, b, c],
{
    let r = l.len() == 3 && l[0] == a && l[1] == b && l[2] == c;
    proof {
        if r {
            assert(l@ =~= seq![a, b, c]);
        }
    }
    r
}

fn match6(l: &Vec<char>, a: char, b: char, c: char, d: char, e: char, f: char) -> (r: bool)
    ensures
        r <==> l@ == seq![a, b, c, d, e, f],
{
    let r = l.len() == 6 && l[0] == a && l[1] == b && l[2] == c && l[3] == d && l[4] == e && l[5]
        == f;
    proof {
        if r {
            assert(l@ =~= seq![a, b, c, d, e, f]);
        }
    }
    r
}

fn match7(l: &Vec<char>, a: char, b: char, c: char, d: char, e: char, f: char, g: char) -> (r:
    bool)
    ensures
        r <==> l@ == seq![a, b, c, d, e, f, g],
{
    let r = l.len() == 7 && l[0] == a && l[1] == b && l[2] == c && l[3] == d && l[4] == e && l[5]
        == f && l[6] == g;
    proof {
        if r {
            assert(l@ =~= seq![a, b, c, d, e, f, g]);
        }
    }
    r
}

fn match8(
    l: &Vec<char>,
    a: char,
    b: char,
    c: char,
    d: char,
    e: char,
    f: char,
    g: char,
    h: char,
) -> (r: bool)
    ensures
        r <==> l@ == seq![a, b, c, d, e, f, g, h],
{
    let r = l.len() == 8 && l[0] == a && l[1] == b && l[2] == c && l[3] == d && l[4] == e && l[5]
        == f && l[6] == g && l[7] == h;
    proof {
        if r {
            assert(l@ =~= seq![a, b, c, d, e, f, g, h]);
        }
    }
    r
}

fn match9(
    l: &Vec<char>,
    a: char,
    b: char,
    c: char,
    d: char,
    e: char,
    f: char,
    g: char,
    h: char,
    i: char,
) -> (r: bool)
    ensures
        r <==> l@ == seq![a, b, c, d, e, f, g, h, i],
{
    let r = l.len() == 9 && l[0] == a && l[1] == b && l[2] == c && l[3] == d && l[4] == e && l[5]
        == f && l[6] == g && l[7] == h && l[8] == i;
    proof {
        if r {
            assert(l@ =~= seq![a, b, c, d, e, f, g, h, i]);
        }
    }
    r
}

/// Parses a weekday name given as a character slice.
pub(crate) fn parse_weekday_chars(s: &[char]) -> (r: Option<Weekday>)
    ensures
        r == weekday_of_name(s@),
{
    let l = lower_vec(s);
    if match6(&l, 'm', 'o', 'n', 'd', 'a', 'y') || match3(&l, 'm', 'o', 'n') {
        Some(Weekday::Mon)
    } else if match7(&l, 't', 'u', 'e', 's', 'd', 'a', 'y') || match3(&l, 't', 'u', 'e') {
        Some(Weekday::Tue)
    } else if match9(&l, 'w', 'e', 'd', 'n', 'e', 's', 'd', 'a', 'y') || match3(&l, 'w', 'e', 'd') {
        Some(Weekday::Wed)
    } else if match8(&l, 't', 'h', 'u', 'r', 's', 'd', 'a', 'y') || match3(&l, 't', 'h', 'u') {
        Some(Weekday::Thu)
    } else if match6(&l, 'f', 'r', 'i', 'd', 'a', 'y') || match3(&l, 'f', 'r', 'i') {
        Some(Weekday::Fri)
    } else if match8(&l, 's', 'a', 't', 'u', 'r', 'd', 'a', 'y') || match3(&l, 's', 'a', 't') {
        Some(Weekday::Sat)
    } else if match6(&l, 's', 'u', 'n', 'd', 'a', 'y') || match3(&l, 's', 'u', 'n') {
        Some(Weekday::Sun)
    } else {
        None
    }
}

/// Parses a weekday name: case-insensitive, full English names (`"Monday"`)
/// and three-letter abbreviations (`"mon"`) are recognized; anything else
/// yields `None`.
pub fn parse_weekday(day: &str) -> (r: Option<Weekday>)
    ensures
        r == weekday_of_name(day@),
{
    let v = chars_vec(day);
    parse_weekday_chars(v.as_slice())
}

/// The capitalized full English name of a weekday, as written into
/// configuration values.
pub open spec fn weekday_title_name(w: Weekday) -> Seq<char> {
    match w {
        Weekday::Mon => seq!['M', 'o', 'n', 'd', 'a', 'y'],
        Weekday::Tue => seq!['T', 'u', 'e', 's', 'd', 'a', 'y'],
        Weekday::Wed => seq!['W', 'e', 'd', 'n', 'e', 's', 'd', 'a', 'y'],
        Weekday::Thu => seq!['T', 'h', 'u', 'r', 's', 'd', 'a', 'y'],
        Weekday::Fri => seq!['F', 'r', 'i', 'd', 'a', 'y'],
        Weekday::Sat => seq!['S', 'a', 't', 'u', 'r', 'd', 'a', 'y'],
        Weekday::Sun => seq!['S', 'u', 'n', 'd', 'a', 'y'],
    }
}

/// The capitalized full English name of a weekday, as a string.
pub fn weekday_title_string(w: &Weekday) -> (s: String)
    ensures
        s@ == weekday_title_name(*w),
{
    match w {
        Weekday::Mon => {
            let s = String::from_str("Monday");
            proof {
                reveal_strlit("Monday");
                assert(s@ =~= weekday_title_name(Weekday::Mon));
            }
            s
        },
        Weekday::Tue => {
            let s = String::from_str("Tuesday");
            proof {
                reveal_strlit("Tuesday");
                assert(s@ =~= weekday_title_name(Weekday::Tue));
            }
            s
        },
        Weekday::Wed => {
            let s = String::from_str("Wednesday");
            proof {
                reveal_strlit("Wednesday");
                assert(s@ =~= weekday_title_name(Weekday::Wed));
            }
            s
        },
        Weekday::Thu => {
            let s = String::from_str("Thursday");
            proof {
                reveal_strlit("Thursday");
                assert(s@ =~= weekday_title_name(Weekday::Thu));
            }
            s
        },
        Weekday::Fri => {
            let s = String::from_str("Friday");
            proof {
                reveal_strlit("Friday");
                assert(s@ =~= weekday_title_name(Weekday::Fri));
            }
            s
        },
        Weekday::Sat => {
            let s = String::from_str("Saturday");
            proof {
                reveal_strlit("Saturday");
                assert(s@ =~= weekday_title_name(Weekday::Sat));
            }
            s
        },
        Weekday::Sun => {
            let s = String::from_str("Sunday");
            proof {
                reveal_strlit("Sunday");
                assert(s@ =~= weekday_title_name(Weekday::Sun));
            }
            s
        },
    }
}

/// The title-cased full name of every weekday parses back to that weekday.
pub proof fn lemma_title_name_parses(w: Weekday)
    ensures
        weekday_of_name(weekday_title_name(w)) == Some(w),
{
    let t = weekday_title_name(w);
    let l = lower_seq(t);
    assert(l.len() == t.len());
    match w {
        Weekday::Mon => {
            assert(l =~= weekday_full_token(Weekday::Mon));
        },
        Weekday::Tue => {
            assert(l =~= weekday_full_token(Weekday::Tue));
            assert(l[0] == 't' && weekday_full_token(Weekday::Mon)[0] == 'm');
        },
        Weekday::Wed => {
            assert(l =~= weekday_full_token(Weekday::Wed));
            assert(l[0] == 'w' && weekday_full_token(Weekday::Mon)[0] == 'm'
                && weekday_full_token(Weekday::Tue)[0] == 't');
        },
        Weekday::Thu => {
            assert(l =~= weekday_full_token(Weekday::Thu));
            assert(l[0] == 't' && l.len() == 8);
            assert(weekday_full_token(Weekday::Mon)[0] == 'm');
            assert(weekday_full_token(Weekday::Tue).len() == 7);
            assert(weekday_full_token(Weekday::Wed)[0] == 'w');
        },
        Weekday::Fri => {
            assert(l =~= weekday_full_token(Weekday::Fri));
            assert(l[0] == 'f' && weekday_full_token(Weekday::Mon)[0] == 'm'
                && weekday_full_token(Weekday::Tue)[0] == 't' && weekday_full_token(
                Weekday::Wed,
            )[0] == 'w' && weekday_full_token(Weekday::Thu)[0] == 't');
        },
        Weekday::Sat => {
            assert(l =~= weekday_full_token(Weekday::Sat));
            assert(l[0] == 's' && l.len() == 8);
            assert(weekday_full_token(Weekday::Mon)[0] == 'm');
            assert(weekday_full_token(Weekday::Tue).len() == 7);
            assert(weekday_full_token(Weekday::Wed)[0] == 'w');
            assert(weekday_full_token(Weekday::Thu)[0] == 't');
            assert(weekday_full_token(Weekday::Fri)[0] == 'f');
        },
        Weekday::Sun => {
            assert(l =~= weekday_full_token(Weekday::Sun));
            assert(l[0] == 's' && l.len() == 6);
            assert(weekday_full_token(Weekday::Mon)[0] == 'm');
            assert(weekday_full_token(Weekday::Tue).len() == 7);
            assert(weekday_full_token(Weekday::Wed)[0] == 'w');
            assert(weekday_full_token(Weekday::Thu).len() == 8);
            assert(weekday_full_token(Weekday::Fri)[0] == 'f');
            assert(weekday_full_token(Weekday::Sat).len() == 8);
        },
    }
}

/// Weekday names are matched without regard to case: lowercasing the input
/// first never changes the result.
pub proof fn lemma_weekday_name_case_insensitive(s: Seq<char>)
    ensures
        weekday_of_name(lower_seq(s)) == weekday_of_name(s),
{
    assert forall|c: char| lower_char(lower_char(c)) == lower_char(c) by {}
    assert(lower_seq(lower_seq(s)) =~= lower_seq(s));
}

} // verus!
