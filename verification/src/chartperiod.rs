//! Closed intervals of quarter-day cells.

use vstd::prelude::*;
use vstd::string::*;
use crate::charttime::{index_of, parsed_time, span_of, ChartTime, TimeError};
use crate::text::{find_char, first_index_of, is_digit};

verus! {

/// Why a period could not be made.
#[derive(Debug, Clone, Copy, PartialEq, Eq, Structural)]
pub enum PeriodError {
    /// The text is not two runs of digits and `/` with `..` between them.
    Syntax,
    /// What stands before the `..` is no chart time.
    Start(TimeError),
    /// What stands after the `..` is no chart time.
    End(TimeError),
    /// The last cell lies before the first.
    Inverted,
    /// The last cell is `u32::MAX`, so the length would not fit in a `u32`.
    TooLate,
}

/// The cells `first ..= last`; never empty, and `last` below `u32::MAX`.
#[derive(Debug, Clone, Copy, PartialEq, Eq, Structural)]
pub struct ChartPeriod {
    first: u32,
    last: u32,
}

/// The two ends of a period that may be missing.
pub open spec fn ends_of(p: Option<ChartPeriod>) -> Option<(int, int)> {
    match p {
        Some(p) => Some(p.ends()),
        None => None,
    }
}

/// Whether a text is made of digits and `/` alone, and is not empty.
pub open spec fn time_like(s: Seq<char>) -> bool {
    s.len() > 0 && forall|i: int| 0 <= i < s.len() ==> is_digit(#[trigger] s[i]) || s[i] == '/'
}

/// The two times of `START..END`, as texts.
pub open spec fn period_fields(s: Seq<char>) -> Option<(Seq<char>, Seq<char>)> {
    let k = first_index_of(s, '.');
    if k + 1 < s.len() && s[k + 1] == '.' && time_like(s.subrange(0, k)) && time_like(
        s.subrange(k + 2, s.len() as int),
    ) {
        Some((s.subrange(0, k), s.subrange(k + 2, s.len() as int)))
    } else {
        None
    }
}

/// What parsing a text gives: the ends of the period from the first quarter of
/// the start to the last quarter of the end, or why there is none.
pub open spec fn parsed_period(s: Seq<char>) -> Result<(int, int), PeriodError> {
    match period_fields(s) {
        None => Err(PeriodError::Syntax),
        Some((start, end)) => match parsed_time(start) {
            Err(e) => Err(PeriodError::Start(e)),
            Ok((week, day, quarter)) => match parsed_time(end) {
                Err(e) => Err(PeriodError::End(e)),
                Ok((end_week, end_day, end_quarter)) => {
                    let first = index_of(week, day, quarter);
                    let last = index_of(end_week, end_day, end_quarter) + span_of(
                        end_day,
                        end_quarter,
                    ) - 1;
                    if first > last {
                        Err(PeriodError::Inverted)
                    } else if last >= u32::MAX {
                        Err(PeriodError::TooLate)
                    } else {
                        Ok((first, last))
                    }
                },
            },
        },
    }
}

/// The least of two numbers.
pub open spec fn least(a: int, b: int) -> int {
    if a <= b {
        a
    } else {
        b
    }
}

/// The greatest of two numbers.
pub open spec fn greatest(a: int, b: int) -> int {
    if a >= b {
        a
    } else {
        b
    }
}

impl ChartPeriod {
    /// Every period that exists in executable code has its ends in order.
    #[verifier::type_invariant]
    pub closed spec fn wf(self) -> bool {
        self.first <= self.last < u32::MAX
    }

    pub closed spec fn first(self) -> int {
        self.first as int
    }

    pub closed spec fn last(self) -> int {
        self.last as int
    }

    pub open spec fn ends(self) -> (int, int) {
        (self.first(), self.last())
    }

    pub open spec fn contains(self, cell: int) -> bool {
        self.first() <= cell <= self.last()
    }

    pub open spec fn spec_length(self) -> int {
        self.last() - self.first() + 1
    }

    /// The cells that two periods share, by their ends.
    pub open spec fn overlap(self, other: ChartPeriod) -> Option<(int, int)> {
        let first = greatest(self.first(), other.first());
        let last = least(self.last(), other.last());
        if first <= last {
            Some((first, last))
        } else {
            None
        }
    }

    /// The one interval that two periods cover together, where they share a
    /// cell or the one starts right after the other ends.
    pub open spec fn joined(self, other: ChartPeriod) -> Option<(int, int)> {
        if greatest(self.first(), other.first()) <= least(self.last(), other.last()) + 1 {
            Some((least(self.first(), other.first()), greatest(self.last(), other.last())))
        } else {
            None
        }
    }

    /// The ends in order, and the last one below `u32::MAX`.
    pub open spec fn valid(self) -> bool {
        0 <= self.first() <= self.last() < u32::MAX
    }

    /// Validity is what every period in executable code has.
    pub proof fn lemma_wf(self)
        ensures
            self.wf() <==> self.valid(),
    {
    }

    pub fn new(first: u32, last: u32) -> (r: Result<ChartPeriod, PeriodError>)
        ensures
            match r {
                Ok(p) => first <= last < u32::MAX && p.ends() == (first as int, last as int)
                    && p.valid(),
                Err(PeriodError::Inverted) => first > last,
                Err(PeriodError::TooLate) => first <= last && last == u32::MAX,
                Err(_) => false,
            },
    {
        if first > last {
            return Err(PeriodError::Inverted);
        }
        if last == u32::MAX {
            return Err(PeriodError::TooLate);
        }
        Ok(ChartPeriod { first, last })
    }

    /// Reads `START..END`, two chart times: the period runs from the first
    /// quarter of the start to the last quarter of the end.
    pub fn from_str(period: &str) -> (r: Result<ChartPeriod, PeriodError>)
        ensures
            match r {
                Ok(p) => parsed_period(period@) == Ok::<(int, int), PeriodError>(p.ends())
                    && p.valid(),
                Err(e) => parsed_period(period@) == Err::<(int, int), PeriodError>(e),
            },
    {
        let n = period.unicode_len();
        let k = find_char(period, '.');
        if k >= n || k + 1 >= n || period.get_char(k + 1) != '.' {
            return Err(PeriodError::Syntax);
        }
        let start_text = period.substring_char(0, k);
        let end_text = period.substring_char(k + 2, n);
        if !is_time_like(start_text) || !is_time_like(end_text) {
            return Err(PeriodError::Syntax);
        }
        let start = match ChartTime::from_str(start_text) {
            Ok(t) => t,
            Err(e) => { return Err(PeriodError::Start(e)); },
        };
        let end = match ChartTime::from_str(end_text) {
            Ok(t) => t,
            Err(e) => { return Err(PeriodError::End(e)); },
        };
        let first = start.to_u32();
        let last = end.end_as_u32();
        if first > last {
            return Err(PeriodError::Inverted);
        }
        if last == u32::MAX {
            return Err(PeriodError::TooLate);
        }
        Ok(ChartPeriod { first, last })
    }

    pub fn intersect(&self, other: &ChartPeriod) -> (r: Option<ChartPeriod>)
        ensures
            ends_of(r) == self.overlap(*other),
            r matches Some(p) ==> p.valid(),
    {
        proof {
            use_type_invariant(self);
            use_type_invariant(other);
        }
        let first = if self.first >= other.first {
            self.first
        } else {
            other.first
        };
        let last = if self.last <= other.last {
            self.last
        } else {
            other.last
        };
        if first <= last {
            Some(ChartPeriod { first, last })
        } else {
            None
        }
    }

    pub fn union(&self, other: &ChartPeriod) -> (r: Option<ChartPeriod>)
        ensures
            ends_of(r) == self.joined(*other),
            r matches Some(p) ==> p.valid(),
    {
        proof {
            use_type_invariant(self);
            use_type_invariant(other);
        }
        let later_first = if self.first >= other.first {
            self.first
        } else {
            other.first
        };
        let earlier_last = if self.last <= other.last {
            self.last
        } else {
            other.last
        };
        if later_first <= earlier_last + 1 {
            let first = if self.first <= other.first {
                self.first
            } else {
                other.first
            };
            let last = if self.last >= other.last {
                self.last
            } else {
                other.last
            };
            Some(ChartPeriod { first, last })
        } else {
            None
        }
    }

    /// The part of the period from `first` on.
    pub fn limit_first(&self, first: u32) -> (r: Option<ChartPeriod>)
        ensures
            ends_of(r) == if first > self.last() {
                None
            } else {
                Some((greatest(first as int, self.first()), self.last()))
            },
            r matches Some(p) ==> p.valid(),
    {
        proof {
            use_type_invariant(self);
        }
        if first > self.last {
            None
        } else if first < self.first {
            Some(*self)
        } else {
            Some(ChartPeriod { first, last: self.last })
        }
    }

    /// The part of the period up to `last`.
    pub fn limit_last(&self, last: u32) -> (r: Option<ChartPeriod>)
        ensures
            ends_of(r) == if last < self.first() {
                None
            } else {
                Some((self.first(), least(last as int, self.last())))
            },
            r matches Some(p) ==> p.valid(),
    {
        proof {
            use_type_invariant(self);
        }
        if last < self.first {
            None
        } else if last > self.last {
            Some(*self)
        } else {
            Some(ChartPeriod { first: self.first, last })
        }
    }

    pub fn get_first(&self) -> (r: u32)
        ensures
            r == self.first(),
            self.valid(),
    {
        proof {
            use_type_invariant(self);
        }
        self.first
    }

    pub fn get_last(&self) -> (r: u32)
        ensures
            r == self.last(),
            self.valid(),
    {
        proof {
            use_type_invariant(self);
        }
        self.last
    }

    pub fn length(&self) -> (r: u32)
        ensures
            r == self.spec_length(),
            r >= 1,
            self.valid(),
    {
        proof {
            use_type_invariant(self);
        }
        self.last + 1 - self.first
    }
}

fn is_time_like(s: &str) -> (r: bool)
    ensures
        r == time_like(s@),
{
    let n = s.unicode_len();
    let mut i: usize = 0;
    while i < n
        invariant
            i <= n,
            n == s@.len(),
            forall|j: int| 0 <= j < i ==> is_digit(#[trigger] s@[j]) || s@[j] == '/',
        decreases n - i,
    {
        let c = s.get_char(i);
        if !(('0' <= c && c <= '9') || c == '/') {
            return false;
        }
        i = i + 1;
    }
    n > 0
}

/// A period read from `START..END` is as long as from the first quarter of
/// the start to the last quarter of the end, both counted.
pub proof fn lemma_parsed_length(s: Seq<char>)
    requires
        parsed_period(s) is Ok,
    ensures
        period_fields(s) matches Some((start, end)) && parsed_time(start) matches Ok(
            (week, day, quarter),
        ) && parsed_time(end) matches Ok((end_week, end_day, end_quarter)) && ({
            let (first, last) = parsed_period(s)->Ok_0;
            last - first + 1 == (index_of(end_week, end_day, end_quarter) + span_of(
                end_day,
                end_quarter,
            ) - 1) - index_of(week, day, quarter) + 1
        }),
{
}

/// The text of a chart time holds digits and `/` alone, and is not empty.
pub proof fn lemma_time_is_time_like(t: Seq<char>)
    requires
        parsed_time(t) is Ok,
    ensures
        time_like(t),
{
    let n = t.len() as int;
    let fields = crate::charttime::time_fields(t);
    assert(fields is Some);
    assert forall|i: int| 0 <= i < n implies is_digit(#[trigger] t[i]) || t[i] == '/' by {
        if n >= 5 && t[n - 4] == '/' && crate::charttime::is_day_char(t[n - 3]) && t[n - 2] == '/'
            && crate::charttime::is_quarter_char(t[n - 1]) && crate::text::all_digits(
            t.subrange(0, n - 4),
        ) {
            if i < n - 4 {
                assert(is_digit(t.subrange(0, n - 4)[i]));
            }
        } else if n >= 3 && t[n - 2] == '/' && crate::charttime::is_day_char(t[n - 1])
            && crate::text::all_digits(t.subrange(0, n - 2)) {
            if i < n - 2 {
                assert(is_digit(t.subrange(0, n - 2)[i]));
            }
        } else {
        }
    }
}

/// A period written as two chart times with `..` between them runs from the
/// first quarter of the first to the last quarter of the second, and is as
/// long as from the one to the other, both counted. The second time may not
/// end before the first starts, nor at the last index of all.
pub proof fn lemma_period_of_two_times(start: Seq<char>, end: Seq<char>)
    requires
        parsed_time(start) is Ok,
        parsed_time(end) is Ok,
        ({
            let (week, day, quarter) = parsed_time(start)->Ok_0;
            let (end_week, end_day, end_quarter) = parsed_time(end)->Ok_0;
            index_of(week, day, quarter) <= index_of(end_week, end_day, end_quarter) + span_of(
                end_day,
                end_quarter,
            ) - 1 < u32::MAX
        }),
    ensures
        ({
            let (week, day, quarter) = parsed_time(start)->Ok_0;
            let (end_week, end_day, end_quarter) = parsed_time(end)->Ok_0;
            let first = index_of(week, day, quarter);
            let last = index_of(end_week, end_day, end_quarter) + span_of(end_day, end_quarter)
                - 1;
            &&& parsed_period(start + seq!['.', '.'] + end) == Ok::<(int, int), PeriodError>(
                (first, last),
            )
            &&& forall|p: ChartPeriod| #[trigger]
                p.ends() == (first, last) ==> p.spec_length() == last - first + 1
        }),
{
    let s = start + seq!['.', '.'] + end;
    let k = start.len() as int;
    lemma_time_is_time_like(start);
    lemma_time_is_time_like(end);
    assert forall|j: int| 0 <= j < k implies s[j] != '.' by {
        assert(s[j] == start[j]);
        assert(is_digit(start[j]) || start[j] == '/');
    }
    assert(s[k] == '.');
    assert(s[k + 1] == '.');
    crate::text::lemma_first_index_of(s, '.', k);
    assert(s.subrange(0, k) =~= start);
    assert(s.subrange(k + 2, s.len() as int) =~= end);
}

/// Intersecting is symmetric, and what two periods share is no longer than
/// either of them.
pub proof fn lemma_intersect_symmetric_and_bounded(p: ChartPeriod, q: ChartPeriod)
    requires
        p.valid(),
        q.valid(),
    ensures
        p.overlap(q) == q.overlap(p),
        p.overlap(q) matches Some((first, last)) ==> {
            &&& 1 <= last - first + 1 <= p.spec_length()
            &&& last - first + 1 <= q.spec_length()
            &&& forall|c: int| first <= c <= last <==> p.contains(c) && q.contains(c)
        },
        p.overlap(q) is None ==> forall|c: int| !(p.contains(c) && q.contains(c)),
{
}

impl std::str::FromStr for ChartPeriod {
    type Err = PeriodError;

    fn from_str(s: &str) -> (r: Result<Self, Self::Err>)
        ensures
            match r {
                Ok(p) => parsed_period(s@) == Ok::<(int, int), PeriodError>(p.ends())
                    && p.valid(),
                Err(e) => parsed_period(s@) == Err::<(int, int), PeriodError>(e),
            },
    {
        ChartPeriod::from_str(s)
    }
}

} // verus!
