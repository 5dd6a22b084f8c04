//! Chart times: a week, optionally a day of it, optionally a quarter of that day.

use vstd::prelude::*;
use vstd::string::*;
use std::cmp::Ordering;
use crate::text::{
    all_digits, decimal_string, decimal_text, decimal_value, digit_value, digits_only, is_digit,
    parse_decimal,
};

verus! {

pub const QUARTERS_PER_DAY: u32 = 4;

pub const QUARTERS_PER_WEEK: u32 = 20;

/// Why a text is no chart time.
#[derive(Debug, Clone, Copy, PartialEq, Eq, Structural)]
pub enum TimeError {
    /// The text is not of the form `WEEK`, `WEEK/DAY` or `WEEK/DAY/QUARTER`.
    Syntax,
    /// Weeks count from 1.
    WeekZero,
    /// The time's last quarter has no index in a `u32`.
    TooLate,
}

/// A week (from 1), a day (1 to 5) and a quarter (1 to 4); the day and the
/// quarter may be left open, and then the time spans the whole week or day.
#[derive(Debug, Clone, Copy, Eq)]
pub struct ChartTime {
    week: u32,
    day: Option<u32>,
    quarter: Option<u32>,
}

pub open spec fn is_day_char(c: char) -> bool {
    '1' <= c <= '5'
}

pub open spec fn is_quarter_char(c: char) -> bool {
    '1' <= c <= '4'
}

pub open spec fn some_or_one(x: Option<int>) -> int {
    match x {
        Some(v) => v,
        None => 1,
    }
}

/// The index of the first quarter of the time `week/day/quarter`.
pub open spec fn index_of(week: int, day: Option<int>, quarter: Option<int>) -> int {
    (week - 1) * 20 + (some_or_one(day) - 1) * 4 + some_or_one(quarter) - 1
}

/// How many quarters a time covers: a week, a day or one quarter.
pub open spec fn span_of(day: Option<int>, quarter: Option<int>) -> int {
    if quarter is Some {
        1
    } else if day is Some {
        4
    } else {
        20
    }
}

/// The fields in range, a quarter only within a day, and the last quarter
/// covered within a `u32`.
pub open spec fn fields_valid(week: int, day: Option<int>, quarter: Option<int>) -> bool {
    &&& 1 <= week
    &&& day matches Some(d) ==> 1 <= d <= 5
    &&& quarter matches Some(q) ==> 1 <= q <= 4
    &&& quarter is Some ==> day is Some
    &&& index_of(week, day, quarter) + span_of(day, quarter) - 1 <= u32::MAX
}

/// The fields of `WEEK`, `WEEK/DAY` or `WEEK/DAY/QUARTER`: the week's digits,
/// the day and the quarter.
pub open spec fn time_fields(s: Seq<char>) -> Option<(Seq<char>, Option<int>, Option<int>)> {
    let n = s.len() as int;
    if n >= 5 && s[n - 4] == '/' && is_day_char(s[n - 3]) && s[n - 2] == '/' && is_quarter_char(
        s[n - 1],
    ) && all_digits(s.subrange(0, n - 4)) {
        Some((s.subrange(0, n - 4), Some(digit_value(s[n - 3])), Some(digit_value(s[n - 1]))))
    } else if n >= 3 && s[n - 2] == '/' && is_day_char(s[n - 1]) && all_digits(
        s.subrange(0, n - 2),
    ) {
        Some((s.subrange(0, n - 2), Some(digit_value(s[n - 1])), None))
    } else if n >= 1 && all_digits(s) {
        Some((s, None, None))
    } else {
        None
    }
}

/// What parsing a text gives: the time's fields, or why there is none.
pub open spec fn parsed_time(s: Seq<char>) -> Result<(int, Option<int>, Option<int>), TimeError> {
    match time_fields(s) {
        None => Err(TimeError::Syntax),
        Some((digits, day, quarter)) => {
            let week = decimal_value(digits);
            if week > u32::MAX {
                Err(TimeError::TooLate)
            } else if week == 0 {
                Err(TimeError::WeekZero)
            } else if !fields_valid(week, day, quarter) {
                Err(TimeError::TooLate)
            } else {
                Ok((week, day, quarter))
            }
        },
    }
}

/// The text of a time: its fields, separated by `/`.
pub open spec fn time_text(week: int, day: Option<int>, quarter: Option<int>) -> Seq<char> {
    let w = decimal_text(week as nat);
    match (day, quarter) {
        (Some(d), Some(q)) => w + seq!['/'] + decimal_text(d as nat) + seq!['/'] + decimal_text(
            q as nat,
        ),
        (Some(d), None) => w + seq!['/'] + decimal_text(d as nat),
        _ => w,
    }
}

pub open spec fn widen(x: Option<u32>) -> Option<int> {
    match x {
        Some(v) => Some(v as int),
        None => None,
    }
}

impl ChartTime {
    #[verifier::type_invariant]
    pub closed spec fn wf(self) -> bool {
        fields_valid(self.week as int, widen(self.day), widen(self.quarter))
    }

    pub closed spec fn week(self) -> int {
        self.week as int
    }

    pub closed spec fn day(self) -> Option<int> {
        widen(self.day)
    }

    pub closed spec fn quarter(self) -> Option<int> {
        widen(self.quarter)
    }

    pub open spec fn fields(self) -> (int, Option<int>, Option<int>) {
        (self.week(), self.day(), self.quarter())
    }

    /// The index of the quarter at which the time starts.
    pub open spec fn index(self) -> int {
        index_of(self.week(), self.day(), self.quarter())
    }

    pub open spec fn span(self) -> int {
        span_of(self.day(), self.quarter())
    }

    /// The index of the last quarter that the time covers.
    pub open spec fn end_index(self) -> int {
        self.index() + self.span() - 1
    }

    /// The fields in range, and the last quarter covered within a `u32`.
    pub open spec fn valid(self) -> bool {
        fields_valid(self.week(), self.day(), self.quarter())
    }

    /// Validity is what every time in executable code has.
    pub proof fn lemma_wf(self)
        ensures
            self.wf() <==> self.valid(),
    {
    }

    /// The time, to the quarter, of the quarter with index `q`.
    pub fn from_u32(q: u32) -> (t: ChartTime)
        ensures
            t.fields() == (q / 20 + 1, Some((q % 20) / 4 + 1), Some(q % 4 + 1)),
            t.index() == q,
            t.end_index() == q,
            t.valid(),
    {
        let week = q / 20;
        let day = (q % 20) / 4;
        let quarter = q - week * 20 - day * 4;
        ChartTime { week: week + 1, day: Some(day + 1), quarter: Some(quarter + 1) }
    }

    /// The whole of a week, where a chart time can name it.
    pub fn from_week(week: u32) -> (r: Option<ChartTime>)
        ensures
            match r {
                Some(t) => fields_valid(week as int, None, None) && t.fields() == (
                    week as int,
                    None::<int>,
                    None::<int>,
                ) && t.valid(),
                None => !fields_valid(week as int, None, None),
            },
    {
        if week == 0 || week > 214748364 {
            None
        } else {
            Some(ChartTime { week, day: None, quarter: None })
        }
    }

    pub fn from_str(desc: &str) -> (r: Result<ChartTime, TimeError>)
        ensures
            match r {
                Ok(t) => parsed_time(desc@) == Ok::<(int, Option<int>, Option<int>), TimeError>(
                    t.fields(),
                ) && t.valid(),
                Err(e) => parsed_time(desc@) == Err::<(int, Option<int>, Option<int>), TimeError>(
                    e,
                ),
            },
    {
        let n = desc.unicode_len();
        proof {
            // A `/` two places from the end rules out a bare week, and one
            // four places from the end rules out `WEEK/DAY`.
            if n >= 2 && desc@[n - 2] == '/' {
                assert(!is_digit(desc@[n - 2]));
            }
            if n >= 5 && desc@[n - 4] == '/' {
                assert(!is_digit(desc@.subrange(0, n - 2)[n - 4]));
            }
        }
        let mut day: Option<u32> = None;
        let mut quarter: Option<u32> = None;
        let mut digits_end: usize = n;
        if n >= 5 && desc.get_char(n - 4) == '/' && desc.get_char(n - 2) == '/' {
            let d = desc.get_char(n - 3);
            let q = desc.get_char(n - 1);
            if !('1' <= d && d <= '5' && '1' <= q && q <= '4') {
                return Err(TimeError::Syntax);
            }
            day = Some((d as u32) - ('0' as u32));
            quarter = Some((q as u32) - ('0' as u32));
            digits_end = n - 4;
        } else if n >= 3 && desc.get_char(n - 2) == '/' {
            let d = desc.get_char(n - 1);
            if !('1' <= d && d <= '5') {
                return Err(TimeError::Syntax);
            }
            day = Some((d as u32) - ('0' as u32));
            digits_end = n - 2;
        }
        if digits_end == 0 || !digits_only(desc, 0, digits_end) {
            proof {
                if digits_end == 0 && n == 0 {
                } else if digits_end == 0 {
                    assert(!is_digit(desc@[0]));
                }
                if digits_end < n {
                    assert(!is_digit(desc@[digits_end as int]));
                }
            }
            return Err(TimeError::Syntax);
        }
        assert(desc@.subrange(0, n as int) == desc@);
        assert(time_fields(desc@) == Some(
            (desc@.subrange(0, digits_end as int), widen(day), widen(quarter)),
        ));
        let week = match parse_decimal(desc, 0, digits_end) {
            Some(w) => w,
            None => { return Err(TimeError::TooLate); },
        };
        if week == 0 {
            return Err(TimeError::WeekZero);
        }
        let d: u64 = match day {
            Some(d) => d as u64,
            None => 1,
        };
        let q: u64 = match quarter {
            Some(q) => q as u64,
            None => 1,
        };
        let span: u64 = if quarter.is_some() {
            1
        } else if day.is_some() {
            4
        } else {
            20
        };
        let end: u64 = (week as u64 - 1) * 20 + (d - 1) * 4 + q - 1 + span - 1;
        if end > u32::MAX as u64 {
            return Err(TimeError::TooLate);
        }
        Ok(ChartTime { week, day, quarter })
    }

    /// The index of the quarter at which the time starts.
    pub fn to_u32(&self) -> (r: u32)
        ensures
            r == self.index(),
            self.valid(),
    {
        proof {
            use_type_invariant(self);
        }
        let d: u32 = match self.day {
            Some(d) => d,
            None => 1,
        };
        let q: u32 = match self.quarter {
            Some(q) => q,
            None => 1,
        };
        (self.week - 1) * 20 + (d - 1) * 4 + (q - 1)
    }

    pub fn to_string(&self) -> (r: String)
        ensures
            r@ == time_text(self.week(), self.day(), self.quarter()),
    {
        proof {
            use_type_invariant(self);
            reveal_strlit("/");
        }
        let mut out = decimal_string(self.week);
        match (self.day, self.quarter) {
            (Some(d), Some(q)) => {
                out.append("/");
                out.append(decimal_string(d).as_str());
                out.append("/");
                out.append(decimal_string(q).as_str());
            },
            (Some(d), None) => {
                out.append("/");
                out.append(decimal_string(d).as_str());
            },
            _ => {},
        }
        assert(out@ =~= time_text(self.week(), self.day(), self.quarter()));
        out
    }

    /// The index of the last quarter that the time covers.
    pub fn end_as_u32(&self) -> (r: u32)
        ensures
            r == self.end_index(),
            self.valid(),
    {
        proof {
            use_type_invariant(self);
        }
        self.to_u32() + (self.duration() - 1)
    }

    /// How many quarters the time covers.
    pub fn duration(&self) -> (r: u32)
        ensures
            r == self.span(),
            r == 1 || r == 4 || r == 20,
    {
        if self.quarter.is_some() {
            1
        } else if self.day.is_some() {
            4
        } else {
            20
        }
    }
}

/// Two times are equal where they start at the same quarter.
impl PartialEq for ChartTime {
    fn eq(&self, other: &ChartTime) -> (r: bool) {
        self.to_u32() == other.to_u32()
    }
}

impl vstd::std_specs::cmp::PartialEqSpecImpl for ChartTime {
    open spec fn obeys_eq_spec() -> bool {
        true
    }

    open spec fn eq_spec(&self, other: &ChartTime) -> bool {
        self.index() == other.index()
    }
}

/// Times are ordered by the quarter at which they start.
impl PartialOrd for ChartTime {
    fn partial_cmp(&self, other: &ChartTime) -> (r: Option<Ordering>) {
        let a = self.to_u32();
        let b = other.to_u32();
        if a < b {
            Some(Ordering::Less)
        } else if a == b {
            Some(Ordering::Equal)
        } else {
            Some(Ordering::Greater)
        }
    }
}

impl vstd::std_specs::cmp::PartialOrdSpecImpl for ChartTime {
    open spec fn obeys_partial_cmp_spec() -> bool {
        true
    }

    open spec fn partial_cmp_spec(&self, other: &ChartTime) -> Option<Ordering> {
        if self.index() < other.index() {
            Some(Ordering::Less)
        } else if self.index() == other.index() {
            Some(Ordering::Equal)
        } else {
            Some(Ordering::Greater)
        }
    }
}

/// The quarter with index `q`, written as a time and read back as an index, is
/// `q` again.
pub proof fn lemma_index_round_trip(q: u32)
    ensures
        fields_valid(q / 20 + 1, Some((q % 20) / 4 + 1), Some(q % 4 + 1)),
        index_of(q / 20 + 1, Some((q % 20) / 4 + 1), Some(q % 4 + 1)) == q,
{
}

impl std::str::FromStr for ChartTime {
    type Err = TimeError;

    fn from_str(s: &str) -> (r: Result<Self, Self::Err>)
        ensures
            match r {
                Ok(t) => parsed_time(s@) == Ok::<(int, Option<int>, Option<int>), TimeError>(
                    t.fields(),
                ) && t.valid(),
                Err(e) => parsed_time(s@) == Err::<(int, Option<int>, Option<int>), TimeError>(e),
            },
    {
        ChartTime::from_str(s)
    }
}

} // verus!
