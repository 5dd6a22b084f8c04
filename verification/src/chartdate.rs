//! Calendar dates of this century, written `DAY/MONTH/YY`.

use vstd::prelude::*;
use vstd::string::*;
use chrono::TimeZone;
use crate::text::{
    all_digits, decimal_string, decimal_text, decimal_value, digits_only, find_char,
    first_index_of, lemma_short_decimal, parse_decimal,
};

verus! {

/// Why a text is no date.
#[derive(Debug, Clone, Copy, PartialEq, Eq, Structural)]
pub enum DateError {
    /// The text is not one or two digits, `/`, one or two digits, `/`, two digits.
    Syntax,
    /// The calendar has no such day.
    NoSuchDate,
}

/// A day of the calendar, in the years 2000 to 2099. Dates are ordered as
/// the calendar orders them.
#[derive(Debug, Clone, Copy, PartialEq, Eq, PartialOrd, Ord, Structural)]
pub struct ChartDate {
    year: i32,
    month: u32,
    day: u32,
}

pub open spec fn is_leap_year(year: int) -> bool {
    year % 4 == 0 && (year % 100 != 0 || year % 400 == 0)
}

pub open spec fn days_in_month(year: int, month: int) -> int {
    if month == 2 {
        if is_leap_year(year) {
            29
        } else {
            28
        }
    } else if month == 4 || month == 6 || month == 9 || month == 11 {
        30
    } else {
        31
    }
}

/// Whether the Gregorian calendar has the day `year-month-day`.
pub open spec fn date_exists(year: int, month: int, day: int) -> bool {
    1 <= month <= 12 && 1 <= day <= days_in_month(year, month)
}

/// The day, the month and the two-digit year of `DAY/MONTH/YY`.
pub open spec fn date_fields(s: Seq<char>) -> Option<(int, int, int)> {
    let a = first_index_of(s, '/');
    let rest = s.subrange(a + 1, s.len() as int);
    let b = first_index_of(rest, '/');
    let year = rest.subrange(b + 1, rest.len() as int);
    if 1 <= a <= 2 && a < s.len() && 1 <= b <= 2 && b < rest.len() && year.len() == 2
        && all_digits(s.subrange(0, a)) && all_digits(rest.subrange(0, b)) && all_digits(year) {
        Some(
            (
                decimal_value(s.subrange(0, a)),
                decimal_value(rest.subrange(0, b)),
                decimal_value(year),
            ),
        )
    } else {
        None
    }
}

/// What parsing a text gives: year, month and day, or why there is no date.
pub open spec fn parsed_date(s: Seq<char>) -> Result<(int, int, int), DateError> {
    match date_fields(s) {
        None => Err(DateError::Syntax),
        Some((day, month, year)) => if date_exists(2000 + year, month, day) {
            Ok((2000 + year, month, day))
        } else {
            Err(DateError::NoSuchDate)
        },
    }
}

/// The text of a date: day, month and the last two digits of the year.
pub open spec fn date_text(year: int, month: int, day: int) -> Seq<char> {
    let yy = year % 100;
    decimal_text(day as nat) + seq!['/'] + decimal_text(month as nat) + seq!['/'] + (if yy < 10 {
        seq!['0']
    } else {
        Seq::<char>::empty()
    }) + decimal_text(yy as nat)
}

/// Asks `chrono` for midnight UTC of a day, through
/// `chrono::TimeZone::with_ymd_and_hms` on `chrono::Utc`, and tells whether it
/// gave exactly one moment. For a year that `chrono` can hold, it does so
/// where the proleptic Gregorian calendar has the day, and gives none
/// otherwise. Not proved: `chrono` is taken at its word.
#[verifier::external_body]
fn utc_has_day(year: i32, month: u32, day: u32) -> (r: bool)
    requires
        1 <= year <= 9999,
    ensures
        r == date_exists(year as int, month as int, day as int),
{
    match chrono::Utc.with_ymd_and_hms(year, month, day, 0, 0, 0) {
        chrono::LocalResult::Single(_) => true,
        chrono::LocalResult::Ambiguous(_, _) => false,
        chrono::LocalResult::None => false,
    }
}

impl ChartDate {
    #[verifier::type_invariant]
    pub closed spec fn wf(self) -> bool {
        2000 <= self.year <= 2099 && date_exists(
            self.year as int,
            self.month as int,
            self.day as int,
        )
    }

    pub closed spec fn year(self) -> int {
        self.year as int
    }

    pub closed spec fn month(self) -> int {
        self.month as int
    }

    pub closed spec fn day(self) -> int {
        self.day as int
    }

    /// A day that the calendar has, in this century.
    pub open spec fn valid(self) -> bool {
        2000 <= self.year() <= 2099 && date_exists(self.year(), self.month(), self.day())
    }

    /// Validity is what every date in executable code has.
    pub proof fn lemma_wf(self)
        ensures
            self.wf() <==> self.valid(),
    {
    }

    /// The first day of 2001.
    pub fn new() -> (r: ChartDate)
        ensures
            (r.year(), r.month(), r.day()) == (2001int, 1int, 1int),
            r.valid(),
    {
        ChartDate { year: 2001, month: 1, day: 1 }
    }

    pub fn from_str(date: &str) -> (r: Result<ChartDate, DateError>)
        ensures
            match r {
                Ok(d) => parsed_date(date@) == Ok::<(int, int, int), DateError>(
                    (d.year(), d.month(), d.day()),
                ) && d.valid(),
                Err(e) => parsed_date(date@) == Err::<(int, int, int), DateError>(e),
            },
    {
        let n = date.unicode_len();
        let a = find_char(date, '/');
        if a < 1 || a > 2 || a >= n {
            return Err(DateError::Syntax);
        }
        let rest = date.substring_char(a + 1, n);
        let m = rest.unicode_len();
        let b = find_char(rest, '/');
        if b < 1 || b > 2 || b >= m || m - (b + 1) != 2 {
            return Err(DateError::Syntax);
        }
        if !digits_only(date, 0, a) || !digits_only(rest, 0, b) || !digits_only(rest, b + 1, m) {
            return Err(DateError::Syntax);
        }
        proof {
            lemma_short_decimal(date@.subrange(0, a as int));
            lemma_short_decimal(rest@.subrange(0, b as int));
            lemma_short_decimal(rest@.subrange(b + 1, m as int));
        }
        let day = match parse_decimal(date, 0, a) {
            Some(v) => v,
            None => { return Err(DateError::Syntax); },
        };
        let month = match parse_decimal(rest, 0, b) {
            Some(v) => v,
            None => { return Err(DateError::Syntax); },
        };
        let yy = match parse_decimal(rest, b + 1, m) {
            Some(v) => v,
            None => { return Err(DateError::Syntax); },
        };
        let year: i32 = 2000 + yy as i32;
        if utc_has_day(year, month, day) {
            Ok(ChartDate { year, month, day })
        } else {
            Err(DateError::NoSuchDate)
        }
    }

    pub fn to_string(&self) -> (r: String)
        ensures
            r@ == date_text(self.year(), self.month(), self.day()),
    {
        proof {
            use_type_invariant(self);
            reveal_strlit("/");
            reveal_strlit("0");
        }
        let yy: u32 = (self.year % 100) as u32;
        let mut out = decimal_string(self.day);
        out.append("/");
        out.append(decimal_string(self.month).as_str());
        out.append("/");
        if yy < 10 {
            out.append("0");
        }
        out.append(decimal_string(yy).as_str());
        assert(out@ =~= date_text(self.year(), self.month(), self.day()));
        out
    }
}

impl std::str::FromStr for ChartDate {
    type Err = DateError;

    fn from_str(s: &str) -> (r: Result<Self, Self::Err>)
        ensures
            match r {
                Ok(d) => parsed_date(s@) == Ok::<(int, int, int), DateError>(
                    (d.year(), d.month(), d.day()),
                ) && d.valid(),
                Err(e) => parsed_date(s@) == Err::<(int, int, int), DateError>(e),
            },
    {
        ChartDate::from_str(s)
    }
}

} // verus!
