//! What a task of the plan holds: its attributes, its plan, the work done,
//! and the cells that were allotted to it.

use vstd::prelude::*;
use vstd::string::*;
use crate::chartperiod::{least, ChartPeriod};
use crate::chartrow::{count_in, ChartRow};
use crate::transfer::{transferred, TransferPolicy};
use crate::charttime::{fields_valid, index_of, parsed_time, span_of, ChartTime, TimeError};
use crate::root::{differs_at, ManagementError, RootConfigData, OUTSOURCE};
use crate::text::{
    digits_only, find_char, first_index_of, list_parts, parse_days, parse_decimal, parsed_days,
    round_fraction, same_text, split_list, NumberError,
};

verus! {

/// How the children of a node are worked on.
#[derive(Debug, Clone, Copy, PartialEq, Eq, Structural)]
pub enum SchedulingStrategy {
    /// One child after the other.
    Serial,
    /// All children at the same time; cells are still handed out in the
    /// order of the children.
    Parallel,
}

/// How the plan of a task is laid out over the cells of its developer.
#[allow(non_camel_case_types)]
#[derive(Debug, Clone, Copy, PartialEq, Eq, Structural)]
pub enum ResourcingStrategy {
    /// The manager's time for managing the others, booked week by week.
    Management,
    /// The plan spread over the developer's whole time; from today on, the
    /// share of the remaining time is smeared.
    SmearProRata,
    /// What is left of the plan, smeared over the remaining time.
    SmearRemaining,
    /// What is left of the plan, as early as possible.
    FrontLoad,
    /// What is left of the plan, as late as possible.
    BackLoad,
    /// A fifth of what is left smeared, and the rest as late as possible.
    ProdSFR,
    /// The second step of `ProdSFR`: the rest, as late as possible.
    ProdSFR_part2,
}

/// What the number of a plan entry is a share of.
#[derive(Debug, Clone, Copy, PartialEq, Eq, Structural)]
pub enum PlanSuffix {
    /// `pcy`: of a year of the developer's time.
    PerYear,
    /// `pcm`: of a month of the developer's time.
    PerMonth,
}

/// A plan that holds from the quarter `when` on: so many quarters, or so
/// large a share of the developer's time.
#[derive(Debug, Clone, Copy, PartialEq, Eq, Structural)]
pub struct PlanEntry {
    pub when: u32,
    pub plan: u32,
    pub suffix: Option<PlanSuffix>,
}

/// Work that was done: so many quarters, from `start` on. Where they fit in
/// the span of `start`, they lie somewhere in it; else they start with it.
#[derive(Debug, Clone, Copy)]
pub struct DoneEntry {
    pub start: ChartTime,
    pub time: u32,
}

/// A piece of work done as plain values.
pub struct DoneView {
    pub start: (int, Option<int>, Option<int>),
    pub time: u32,
}

impl View for DoneEntry {
    type V = DoneView;

    open spec fn view(&self) -> DoneView {
        DoneView { start: self.start.fields(), time: self.time }
    }
}

impl PlanEntry {
    pub fn new(when: u32, plan: u32, suffix: Option<PlanSuffix>) -> (r: PlanEntry)
        ensures
            r == (PlanEntry { when, plan, suffix }),
    {
        PlanEntry { when, plan, suffix }
    }
}

impl DoneEntry {
    pub fn new(start: ChartTime, time: u32) -> (r: DoneEntry)
        ensures
            r == (DoneEntry { start, time }),
    {
        DoneEntry { start, time }
    }
}

/// Why a part of a plan cannot be read.
#[derive(Debug, Clone, Copy, PartialEq, Eq, Structural)]
pub enum PlanError {
    /// What stands before the colon is no chart time.
    Time(TimeError),
    /// What stands after it is no number of days.
    Number(NumberError),
}

/// Why a part of the work done cannot be read.
#[derive(Debug, Clone, Copy, PartialEq, Eq, Structural)]
pub enum DoneError {
    /// The part has no colon.
    Syntax,
    /// What stands before the colon is no chart time.
    Time(TimeError),
    /// What stands after it is no number of days.
    Number(NumberError),
    /// No work at all.
    Zero,
    /// The work ends after the chart does.
    OutsideChart,
}

/// Why an attribute cannot be given to a node.
#[derive(Debug, Clone, Copy, PartialEq, Eq, Structural)]
pub enum AttributeError {
    /// The budget is no number of days.
    Budget(NumberError),
    /// The budget is below zero.
    BudgetNegative,
    /// The schedule is neither `serial` nor `parallel`.
    Schedule,
    /// The resourcing is none of the six that there are.
    Resource,
    /// The chart has no such developer.
    UnknownDeveloper,
    Plan(PlanError),
    DefaultPlan(PlanError),
    Done(DoneError),
    /// The earliest start is no chart time.
    EarliestStart(TimeError),
    /// The latest end is no chart time.
    LatestEnd(TimeError),
    /// The earliest start would come after the latest end.
    StartAfterEnd,
    /// Nodes know no attribute of that name.
    Unknown,
}

/// The attributes that a node can have.
#[derive(Debug, Clone, Copy, PartialEq, Eq, Structural)]
pub enum AttributeKey {
    Budget,
    Schedule,
    Resource,
    NonManaged,
    Dev,
    Note,
    Plan,
    DefaultPlan,
    Done,
    EarliestStart,
    LatestEnd,
}

/// The attribute that a key names.
pub open spec fn attribute_named(key: Seq<char>) -> Option<AttributeKey> {
    if key == "budget"@ {
        Some(AttributeKey::Budget)
    } else if key == "schedule"@ {
        Some(AttributeKey::Schedule)
    } else if key == "resource"@ {
        Some(AttributeKey::Resource)
    } else if key == "non-managed"@ {
        Some(AttributeKey::NonManaged)
    } else if key == "dev"@ {
        Some(AttributeKey::Dev)
    } else if key == "note"@ {
        Some(AttributeKey::Note)
    } else if key == "plan"@ {
        Some(AttributeKey::Plan)
    } else if key == "default-plan"@ {
        Some(AttributeKey::DefaultPlan)
    } else if key == "done"@ {
        Some(AttributeKey::Done)
    } else if key == "earliest-start"@ {
        Some(AttributeKey::EarliestStart)
    } else if key == "latest-end"@ {
        Some(AttributeKey::LatestEnd)
    } else {
        None
    }
}

pub fn attribute_key(key: &str) -> (r: Option<AttributeKey>)
    ensures
        r == attribute_named(key@),
{
    if same_text(key, "budget") {
        Some(AttributeKey::Budget)
    } else if same_text(key, "schedule") {
        Some(AttributeKey::Schedule)
    } else if same_text(key, "resource") {
        Some(AttributeKey::Resource)
    } else if same_text(key, "non-managed") {
        Some(AttributeKey::NonManaged)
    } else if same_text(key, "dev") {
        Some(AttributeKey::Dev)
    } else if same_text(key, "note") {
        Some(AttributeKey::Note)
    } else if same_text(key, "plan") {
        Some(AttributeKey::Plan)
    } else if same_text(key, "default-plan") {
        Some(AttributeKey::DefaultPlan)
    } else if same_text(key, "done") {
        Some(AttributeKey::Done)
    } else if same_text(key, "earliest-start") {
        Some(AttributeKey::EarliestStart)
    } else if same_text(key, "latest-end") {
        Some(AttributeKey::LatestEnd)
    } else {
        None
    }
}

/// The schedule that a text names.
pub open spec fn schedule_named(text: Seq<char>) -> Option<SchedulingStrategy> {
    if text == "serial"@ {
        Some(SchedulingStrategy::Serial)
    } else if text == "parallel"@ {
        Some(SchedulingStrategy::Parallel)
    } else {
        None
    }
}

/// The resourcing that a text names.
pub open spec fn resource_named(text: Seq<char>) -> Option<ResourcingStrategy> {
    if text == "management"@ {
        Some(ResourcingStrategy::Management)
    } else if text == "smearprorata"@ {
        Some(ResourcingStrategy::SmearProRata)
    } else if text == "smearremaining"@ {
        Some(ResourcingStrategy::SmearRemaining)
    } else if text == "frontload"@ {
        Some(ResourcingStrategy::FrontLoad)
    } else if text == "backload"@ {
        Some(ResourcingStrategy::BackLoad)
    } else if text == "prodsfr"@ {
        Some(ResourcingStrategy::ProdSFR)
    } else {
        None
    }
}

/// Whether a text ends with the three given characters.
pub open spec fn ends_with3(s: Seq<char>, a: char, b: char, c: char) -> bool {
    s.len() >= 3 && s[s.len() - 3] == a && s[s.len() - 2] == b && s[s.len() - 1] == c
}

/// The suffix of a plan's number, and the number without it.
pub open spec fn plan_number(rest: Seq<char>) -> (Seq<char>, Option<PlanSuffix>) {
    if ends_with3(rest, 'p', 'c', 'y') {
        (rest.subrange(0, rest.len() - 3), Some(PlanSuffix::PerYear))
    } else if ends_with3(rest, 'p', 'c', 'm') {
        (rest.subrange(0, rest.len() - 3), Some(PlanSuffix::PerMonth))
    } else {
        (rest, None)
    }
}

/// The entry that a part of a plan stands for: `TIME:DAYS`, or `DAYS` alone
/// for a plan that holds from the start, with `pcy` or `pcm` after the days
/// where they are a share.
pub open spec fn parsed_plan_part(part: Seq<char>) -> Result<PlanEntry, PlanError> {
    let k = first_index_of(part, ':');
    let rest = if k < part.len() {
        part.subrange(k + 1, part.len() as int)
    } else {
        part
    };
    let when = if k < part.len() {
        match parsed_time(part.subrange(0, k)) {
            Ok((week, day, quarter)) => Ok(index_of(week, day, quarter) as u32),
            Err(e) => Err(e),
        }
    } else {
        Ok(0u32)
    };
    match when {
        Err(e) => Err(PlanError::Time(e)),
        Ok(when) => match parsed_days(plan_number(rest).0) {
            Err(e) => Err(PlanError::Number(e)),
            Ok(plan) => Ok(PlanEntry { when, plan, suffix: plan_number(rest).1 }),
        },
    }
}

/// The entries that the parts of a plan stand for, or why the first part
/// that cannot be read cannot.
pub open spec fn plan_entries(parts: Seq<Seq<char>>) -> Result<Seq<PlanEntry>, PlanError>
    decreases parts.len(),
{
    if parts.len() == 0 {
        Ok(Seq::empty())
    } else {
        match plan_entries(parts.drop_last()) {
            Err(e) => Err(e),
            Ok(entries) => match parsed_plan_part(parts.last()) {
                Err(e) => Err(e),
                Ok(entry) => Ok(entries.push(entry)),
            },
        }
    }
}

/// The work that a part of `done` stands for, in a chart of `quarters`
/// quarters: `TIME:DAYS`, with at least a quarter of work, which has to end
/// within the chart and before the last index of all.
pub open spec fn parsed_done_part(part: Seq<char>, quarters: int) -> Result<DoneView, DoneError> {
    let k = first_index_of(part, ':');
    if k >= part.len() {
        Err(DoneError::Syntax)
    } else {
        match parsed_time(part.subrange(0, k)) {
            Err(e) => Err(DoneError::Time(e)),
            Ok((week, day, quarter)) => match parsed_days(part.subrange(k + 1, part.len() as int)) {
                Err(e) => Err(DoneError::Number(e)),
                Ok(time) => if time == 0 {
                    Err(DoneError::Zero)
                } else if index_of(week, day, quarter) + time - 1 >= quarters || done_ends(
                    DoneView { start: (week, day, quarter), time },
                ).1 >= u32::MAX {
                    Err(DoneError::OutsideChart)
                } else {
                    Ok(DoneView { start: (week, day, quarter), time })
                },
            },
        }
    }
}

/// The pieces of work that the parts of `done` stand for, or why the first
/// part that cannot be read cannot.
pub open spec fn done_entries(parts: Seq<Seq<char>>, quarters: int) -> Result<
    Seq<DoneView>,
    DoneError,
>
    decreases parts.len(),
{
    if parts.len() == 0 {
        Ok(Seq::empty())
    } else {
        match done_entries(parts.drop_last(), quarters) {
            Err(e) => Err(e),
            Ok(entries) => match parsed_done_part(parts.last(), quarters) {
                Err(e) => Err(e),
                Ok(entry) => Ok(entries.push(entry)),
            },
        }
    }
}

/// The views of some pieces of work.
pub open spec fn done_views(done: Seq<DoneEntry>) -> Seq<DoneView> {
    Seq::new(done.len(), |i: int| done[i]@)
}

/// Reads one part of a plan.
pub fn parse_plan_part(part: &str) -> (r: Result<PlanEntry, PlanError>)
    ensures
        r == parsed_plan_part(part@),
{
    let n = part.unicode_len();
    let k = find_char(part, ':');
    let mut when: u32 = 0;
    let rest = if k < n {
        match ChartTime::from_str(part.substring_char(0, k)) {
            Ok(t) => {
                when = t.to_u32();
            },
            Err(e) => {
                return Err(PlanError::Time(e));
            },
        }
        part.substring_char(k + 1, n)
    } else {
        assert(part@.subrange(0, n as int) == part@);
        part
    };
    let m = rest.unicode_len();
    let mut suffix: Option<PlanSuffix> = None;
    let mut digits_end: usize = m;
    if m >= 3 && rest.get_char(m - 3) == 'p' && rest.get_char(m - 2) == 'c' {
        let last = rest.get_char(m - 1);
        if last == 'y' {
            suffix = Some(PlanSuffix::PerYear);
            digits_end = m - 3;
        } else if last == 'm' {
            suffix = Some(PlanSuffix::PerMonth);
            digits_end = m - 3;
        }
    }
    assert(rest@.subrange(0, m as int) == rest@);
    match parse_days(rest.substring_char(0, digits_end)) {
        Ok(plan) => Ok(PlanEntry { when, plan, suffix }),
        Err(e) => Err(PlanError::Number(e)),
    }
}

/// Reads a plan: parts separated by `, `.
pub fn parse_plan(plan: &str) -> (r: Result<Vec<PlanEntry>, PlanError>)
    ensures
        match r {
            Ok(entries) => plan_entries(list_parts(plan@)) == Ok::<Seq<PlanEntry>, PlanError>(
                entries@,
            ),
            Err(e) => plan_entries(list_parts(plan@)) == Err::<Seq<PlanEntry>, PlanError>(e),
        },
{
    let parts = split_list(plan);
    let ghost texts = list_parts(plan@);
    let mut entries: Vec<PlanEntry> = Vec::new();
    let mut i: usize = 0;
    while i < parts.len()
        invariant
            i <= parts@.len(),
            texts == list_parts(plan@),
            parts@.len() == texts.len(),
            forall|j: int| 0 <= j < parts@.len() ==> parts@[j]@ == texts[j],
            plan_entries(texts.subrange(0, i as int)) == Ok::<Seq<PlanEntry>, PlanError>(entries@),
        decreases parts@.len() - i,
    {
        proof {
            let upto = texts.subrange(0, i + 1);
            assert(upto.drop_last() == texts.subrange(0, i as int));
            assert(upto.last() == texts[i as int]);
            lemma_plan_entries_stop(texts, i + 1);
        }
        match parse_plan_part(parts[i].as_str()) {
            Ok(entry) => {
                entries.push(entry);
            },
            Err(e) => {
                return Err(e);
            },
        }
        i = i + 1;
    }
    assert(texts.subrange(0, i as int) == texts);
    Ok(entries)
}

/// A plan whose first parts cannot be read cannot be read, for the same reason.
proof fn lemma_plan_entries_stop(parts: Seq<Seq<char>>, k: int)
    requires
        0 <= k <= parts.len(),
    ensures
        plan_entries(parts.subrange(0, k)) is Err ==> plan_entries(parts) == plan_entries(
            parts.subrange(0, k),
        ),
    decreases parts.len() - k,
{
    if k < parts.len() {
        lemma_plan_entries_stop(parts, k + 1);
        assert(parts.subrange(0, k + 1).drop_last() == parts.subrange(0, k));
    } else {
        assert(parts.subrange(0, k) == parts);
    }
}

/// Reads one part of the work done, for a chart of `20 * weeks` quarters.
pub fn parse_done_part(part: &str, weeks: u32) -> (r: Result<DoneEntry, DoneError>)
    ensures
        match r {
            Ok(entry) => parsed_done_part(part@, 20 * weeks) == Ok::<DoneView, DoneError>(entry@)
                && entry.start.valid(),
            Err(e) => parsed_done_part(part@, 20 * weeks) == Err::<DoneView, DoneError>(e),
        },
{
    let n = part.unicode_len();
    let k = find_char(part, ':');
    if k >= n {
        return Err(DoneError::Syntax);
    }
    let start = match ChartTime::from_str(part.substring_char(0, k)) {
        Ok(t) => t,
        Err(e) => { return Err(DoneError::Time(e)); },
    };
    let time = match parse_days(part.substring_char(k + 1, n)) {
        Ok(t) => t,
        Err(e) => { return Err(DoneError::Number(e)); },
    };
    if time == 0 {
        return Err(DoneError::Zero);
    }
    let last: u64 = start.to_u32() as u64 + time as u64 - 1;
    if last >= 20 * (weeks as u64) || last >= u32::MAX as u64 || start.end_as_u32() == u32::MAX {
        return Err(DoneError::OutsideChart);
    }
    Ok(DoneEntry { start, time })
}

/// Reads the work done: parts separated by `, `.
pub fn parse_done(done: &str, weeks: u32) -> (r: Result<Vec<DoneEntry>, DoneError>)
    ensures
        match r {
            Ok(entries) => done_entries(list_parts(done@), 20 * weeks) == Ok::<
                Seq<DoneView>,
                DoneError,
            >(done_views(entries@)) && forall|i: int|
                0 <= i < entries@.len() ==> done_valid(entries@[i]),
            Err(e) => done_entries(list_parts(done@), 20 * weeks) == Err::<
                Seq<DoneView>,
                DoneError,
            >(e),
        },
{
    let parts = split_list(done);
    let ghost texts = list_parts(done@);
    let mut entries: Vec<DoneEntry> = Vec::new();
    let mut i: usize = 0;
    assert(done_views(entries@) =~= Seq::<DoneView>::empty());
    while i < parts.len()
        invariant
            i <= parts@.len(),
            texts == list_parts(done@),
            parts@.len() == texts.len(),
            forall|j: int| 0 <= j < parts@.len() ==> parts@[j]@ == texts[j],
            done_entries(texts.subrange(0, i as int), 20 * weeks) == Ok::<Seq<DoneView>, DoneError>(
                done_views(entries@),
            ),
            forall|j: int| 0 <= j < entries@.len() ==> done_valid(entries@[j]),
        decreases parts@.len() - i,
    {
        proof {
            let upto = texts.subrange(0, i + 1);
            assert(upto.drop_last() == texts.subrange(0, i as int));
            assert(upto.last() == texts[i as int]);
            lemma_done_entries_stop(texts, 20 * weeks, i + 1);
        }
        let ghost before = entries@;
        match parse_done_part(parts[i].as_str(), weeks) {
            Ok(entry) => {
                entries.push(entry);
                assert(done_views(entries@) =~= done_views(before).push(entry@));
            },
            Err(e) => {
                return Err(e);
            },
        }
        i = i + 1;
    }
    assert(texts.subrange(0, i as int) == texts);
    Ok(entries)
}

/// Work that has a start, at least a quarter of time, and an end before the
/// last index of all.
pub open spec fn done_valid(done: DoneEntry) -> bool {
    done.start.valid() && done.time > 0 && done_ends(done@).1 < u32::MAX
}

proof fn lemma_done_entries_stop(parts: Seq<Seq<char>>, quarters: int, k: int)
    requires
        0 <= k <= parts.len(),
    ensures
        done_entries(parts.subrange(0, k), quarters) is Err ==> done_entries(parts, quarters)
            == done_entries(parts.subrange(0, k), quarters),
    decreases parts.len() - k,
{
    if k < parts.len() {
        lemma_done_entries_stop(parts, quarters, k + 1);
        assert(parts.subrange(0, k + 1).drop_last() == parts.subrange(0, k));
    } else {
        assert(parts.subrange(0, k) == parts);
    }
}

/// The budget that a text stands for, in quarters: a decimal number of
/// days, rounded to the nearest quarter. A budget below zero is refused, and
/// so is one of more quarters than a `u32` holds.
pub open spec fn parsed_budget(text: Seq<char>) -> Result<u32, AttributeError> {
    match crate::text::decimal_fields(text) {
        None => Err(AttributeError::Budget(NumberError::Syntax)),
        Some((minus, whole, fraction)) => if minus && has_nonzero_digit(text) {
            Err(AttributeError::BudgetNegative)
        } else if crate::text::rounded_quarters(whole, fraction) > u32::MAX {
            Err(AttributeError::Budget(NumberError::TooLarge))
        } else {
            Ok(crate::text::rounded_quarters(whole, fraction) as u32)
        },
    }
}

/// Whether a text holds a digit other than `0`.
pub open spec fn has_nonzero_digit(text: Seq<char>) -> bool {
    exists|i: int| 0 <= i < text.len() && '1' <= #[trigger] text[i] <= '9'
}

fn any_nonzero_digit(text: &str) -> (r: bool)
    ensures
        r == has_nonzero_digit(text@),
{
    let n = text.unicode_len();
    let mut i: usize = 0;
    while i < n
        invariant
            i <= n,
            n == text@.len(),
            forall|j: int| 0 <= j < i ==> !('1' <= #[trigger] text@[j] <= '9'),
        decreases n - i,
    {
        let c = text.get_char(i);
        if '1' <= c && c <= '9' {
            return true;
        }
        i = i + 1;
    }
    false
}

/// Reads a budget: see `parsed_budget`.
pub fn read_budget(text: &str) -> (r: Result<u32, AttributeError>)
    ensures
        r == parsed_budget(text@),
{
    let n = text.unicode_len();
    let minus = n > 0 && text.get_char(0) == '-';
    let signed = n > 0 && (text.get_char(0) == '-' || text.get_char(0) == '+');
    let body = if signed {
        text.substring_char(1, n)
    } else {
        assert(text@.subrange(0, n as int) == text@);
        text
    };
    let m = body.unicode_len();
    let k = find_char(body, '.');
    let after: usize = if k < m {
        k + 1
    } else {
        m
    };
    assert(body@.subrange(m as int, m as int) =~= Seq::<char>::empty());
    if !digits_only(body, 0, k) || !digits_only(body, after, m) || k + (m - after) == 0 {
        return Err(AttributeError::Budget(NumberError::Syntax));
    }
    if minus && any_nonzero_digit(text) {
        return Err(AttributeError::BudgetNegative);
    }
    let part = round_fraction(body, after, m);
    proof {
        crate::text::lemma_decimal_value_nonnegative(body@.subrange(0, k as int));
    }
    let whole: u32 = if k == 0 {
        0
    } else {
        match parse_decimal(body, 0, k) {
            Some(v) => v,
            None => {
                return Err(AttributeError::Budget(NumberError::TooLarge));
            },
        }
    };
    let quarters: u64 = 4 * (whole as u64) + part as u64;
    if quarters > u32::MAX as u64 {
        Err(AttributeError::Budget(NumberError::TooLarge))
    } else {
        Ok(quarters as u32)
    }
}

/// The last of the first `upto` entries of a plan that holds at the quarter `when`.
pub open spec fn plan_at(entries: Seq<PlanEntry>, when: int, upto: int) -> Option<PlanEntry>
    decreases upto,
{
    if upto <= 0 {
        None
    } else if entries[upto - 1].when <= when {
        Some(entries[upto - 1])
    } else {
        plan_at(entries, when, upto - 1)
    }
}

/// A number of quarters, or the largest `u32` where it is larger than that.
pub open spec fn capped(n: int) -> u32 {
    if n > u32::MAX {
        u32::MAX
    } else {
        n as u32
    }
}

/// A division rounded up.
pub open spec fn ceil_div(a: int, b: int) -> int {
    (a + b - 1) / b
}

/// The quarters that a plan entry asks for, for a developer who is there for
/// `duration` quarters. A share is of the 1040 quarters of a year, or of a
/// twelfth of them.
pub open spec fn entry_quarters(entry: PlanEntry, duration: int) -> u32 {
    match entry.suffix {
        None => entry.plan,
        Some(PlanSuffix::PerYear) => capped(ceil_div(entry.plan * duration, 1040)),
        Some(PlanSuffix::PerMonth) => capped(ceil_div(entry.plan * duration * 12, 1040)),
    }
}

/// The plan that some entries give for the quarter `when`.
pub open spec fn plan_for(entries: Seq<PlanEntry>, when: int, duration: int) -> Option<u32> {
    match plan_at(entries, when, entries.len() as int) {
        Some(entry) => Some(entry_quarters(entry, duration)),
        None => None,
    }
}

pub open spec fn text_of(s: Option<String>) -> Option<Seq<char>> {
    match s {
        Some(t) => Some(t@),
        None => None,
    }
}

/// Why a task could not be given its cells.
#[derive(Debug, Clone, Copy, PartialEq, Eq, Structural)]
pub enum ScheduleError {
    /// The task's row is too short for a cell that was to move into it.
    RowTooShort,
    /// So many quarters of the work done that starts at the quarter `start`
    /// found no free cell of the developer's.
    DoneUnallocated { quarters: u32, start: u32 },
    /// The task books management, and its developer is not the manager.
    NotManager,
    /// The task books management, and the chart has no manager.
    NoManager,
    /// The manager's time could not be booked.
    Management(ManagementError),
    /// So many quarters are left of the plan, and the developer is not there
    /// from today on.
    DeveloperUnavailable { quarters: u32 },
    /// The task holds so many quarters more from today on than its share of
    /// the plan.
    OverCommitted { quarters: u32 },
    /// So many quarters of the plan found no free cell of the developer's.
    Unallocated { quarters: u32 },
    /// The task has a plan and a developer, and no resourcing.
    NoStrategy,
}

/// The first and the last cell in which a piece of work done lies: the
/// span of its start where the work fits in it, else as many cells from its
/// start on as there is work.
pub open spec fn done_ends(done: DoneView) -> (int, int) {
    let start = index_of(done.start.0, done.start.1, done.start.2);
    if done.time <= span_of(done.start.1, done.start.2) {
        (start, start + span_of(done.start.1, done.start.2) - 1)
    } else {
        (start, start + done.time - 1)
    }
}

/// Whether a piece of work belongs to the past (it starts before today) or
/// to what is still to come, as asked.
pub open spec fn done_selected(done: DoneView, now: int, past: bool) -> bool {
    (index_of(done.start.0, done.start.1, done.start.2) < now) == past
}

/// Booking the first `upto` pieces of work done, those of the past or those
/// to come: each takes its quarters from the lowest free cells of the
/// developer in its period. The developer's cells and the task's cells
/// after it, and what stopped the booking, if anything did: a piece whose
/// quarters did not all find a cell, after those that did were booked.
pub open spec fn book_done(
    src: Seq<bool>,
    dst: Seq<bool>,
    done: Seq<DoneView>,
    now: int,
    past: bool,
    upto: int,
) -> (Seq<bool>, Seq<bool>, Option<ScheduleError>)
    decreases upto,
{
    if upto <= 0 {
        (src, dst, None)
    } else {
        let before = book_done(src, dst, done, now, past, upto - 1);
        let entry = done[upto - 1];
        if before.2 is Some || !done_selected(entry, now, past) {
            before
        } else {
            let out = transferred(
                TransferPolicy::Fill,
                before.0,
                before.1,
                entry.time as int,
                done_ends(entry).0,
                done_ends(entry).1,
            );
            (
                out.0,
                out.1,
                match out.2 {
                    None => Some(ScheduleError::RowTooShort),
                    Some(failed) => if failed != 0 {
                        Some(
                            ScheduleError::DoneUnallocated {
                                quarters: failed as u32,
                                start: done_ends(entry).0 as u32,
                            },
                        )
                    } else {
                        None
                    },
                },
            )
        }
    }
}

/// Booking that was stopped stays stopped.
pub proof fn lemma_book_done_stops(
    src: Seq<bool>,
    dst: Seq<bool>,
    done: Seq<DoneView>,
    now: int,
    past: bool,
    k: int,
    upto: int,
)
    requires
        k <= upto,
        book_done(src, dst, done, now, past, k).2 is Some,
    ensures
        book_done(src, dst, done, now, past, upto) == book_done(src, dst, done, now, past, k),
    decreases upto - k,
{
    if k < upto {
        lemma_book_done_stops(src, dst, done, now, past, k, upto - 1);
    }
}

/// What is to be done about the plan of a task from today on.
pub enum FuturePlan {
    /// Nothing.
    Nothing,
    /// Nothing can be done, for this reason.
    Refuse(ScheduleError),
    /// Move up to `count` cells of `first ..= last` from the row of developer
    /// `index` to the task, and note that the plan is laid out if `latch` says so.
    Move { index: int, policy: TransferPolicy, count: int, first: int, last: int, latch: bool },
}

/// The cells that two spans of cells share.
pub open spec fn shared(a: Option<(int, int)>, b: (int, int)) -> Option<(int, int)> {
    match a {
        Some((first, last)) => {
            let lo = if first >= b.0 {
                first
            } else {
                b.0
            };
            let hi = least(last, b.1);
            if lo <= hi {
                Some((lo, hi))
            } else {
                None
            }
        },
        None => None,
    }
}

/// What is to be done about the plan of a task from today on, with the
/// resourcing `strategy`.
///
/// Nothing, where the plan is laid out already, or the task has no plan as
/// of today or no developer. What is left of the plan is the plan less the
/// cells that the task holds in the chart. The cells to draw from are those
/// in which the developer is there, from today on; where there are none and
/// something is left, the task is refused. Work given outside draws no
/// cells. Then the strategy says what moves.
pub open spec fn future_plan(
    node: &NodeConfigData,
    root: &RootConfigData,
    strategy: Option<ResourcingStrategy>,
) -> FuturePlan {
    if node.resource_transferred || node.now_plan is None || node.dev is None {
        FuturePlan::Nothing
    } else {
        let plan = node.now_plan->0 as int;
        let dev = node.dev->0@;
        let held = count_in(node.cells@, 0, root.quarters());
        let left = if plan > held {
            plan - held
        } else {
            0
        };
        let resource = root.resource_ends(Some(dev));
        let remaining = shared(resource, (root.now as int, root.quarters() - 1));
        match remaining {
            None => if left == 0 {
                FuturePlan::Nothing
            } else {
                FuturePlan::Refuse(ScheduleError::DeveloperUnavailable { quarters: left as u32 })
            },
            Some((first, last)) => match root.developer_index(dev) {
                None => FuturePlan::Nothing,
                Some(index) => match strategy {
                    None => FuturePlan::Refuse(ScheduleError::NoStrategy),
                    Some(ResourcingStrategy::Management) => FuturePlan::Nothing,
                    Some(ResourcingStrategy::SmearProRata) => {
                        let share = ceil_div(
                            (last - first + 1) * plan,
                            root.duration_of(Some(dev)),
                        );
                        let booked = count_in(node.cells@, first, last + 1);
                        if share < booked {
                            FuturePlan::Refuse(
                                ScheduleError::OverCommitted { quarters: (booked - share) as u32 },
                            )
                        } else {
                            FuturePlan::Move {
                                index,
                                policy: TransferPolicy::Smear,
                                count: share - booked,
                                first,
                                last,
                                latch: true,
                            }
                        }
                    },
                    Some(ResourcingStrategy::SmearRemaining) => FuturePlan::Move {
                        index,
                        policy: TransferPolicy::Smear,
                        count: left,
                        first,
                        last,
                        latch: true,
                    },
                    Some(ResourcingStrategy::FrontLoad) => FuturePlan::Move {
                        index,
                        policy: TransferPolicy::Fill,
                        count: left,
                        first,
                        last,
                        latch: true,
                    },
                    Some(ResourcingStrategy::BackLoad) => FuturePlan::Move {
                        index,
                        policy: TransferPolicy::ReverseFill,
                        count: left,
                        first,
                        last,
                        latch: true,
                    },
                    Some(ResourcingStrategy::ProdSFR) => FuturePlan::Move {
                        index,
                        policy: TransferPolicy::Smear,
                        count: left * 20 / 100,
                        first,
                        last,
                        latch: false,
                    },
                    Some(ResourcingStrategy::ProdSFR_part2) => FuturePlan::Move {
                        index,
                        policy: TransferPolicy::ReverseFill,
                        count: left,
                        first,
                        last,
                        latch: true,
                    },
                },
            },
        }
    }
}

/// Whether a task and the chart changed as a call that lays out the plan
/// from today on has to change them, and the call answered as it has to.
///
/// Where cells move, they leave the developer's row and reach the task as
/// the policy says. The plan counts as laid out once the transfer has run, if
/// it was to be noted. Quarters that found no cell are counted against the
/// developer and reported.
pub open spec fn future_transferred(
    before: &NodeConfigData,
    after: &NodeConfigData,
    root_before: &RootConfigData,
    root_after: &RootConfigData,
    strategy: Option<ResourcingStrategy>,
    r: Result<(), ScheduleError>,
) -> bool {
    match future_plan(before, root_before, strategy) {
        FuturePlan::Nothing => r is Ok && *after == *before && *root_after == *root_before,
        FuturePlan::Refuse(e) => r == Err::<(), ScheduleError>(e) && *after == *before
            && *root_after == *root_before,
        FuturePlan::Move { index, policy, count, first, last, latch } => {
            let out = transferred(
                policy,
                root_before.developers@[index].data.cells@,
                before.cells@,
                count,
                first,
                last,
            );
            let unallocated = root_before.developers@[index].data.unallocated;
            &&& differs_at(root_before, root_after, index)
            &&& root_after.developers@[index].data.cells@ == out.0
            &&& after.cells@ == out.1
            &&& *after == (NodeConfigData {
                cells: after.cells,
                resource_transferred: after.resource_transferred,
                ..*before
            })
            &&& match out.2 {
                None => r == Err::<(), ScheduleError>(ScheduleError::RowTooShort)
                    && !after.resource_transferred
                    && root_after.developers@[index].data.unallocated == unallocated,
                Some(failed) => after.resource_transferred == latch && if failed == 0 {
                    r is Ok && root_after.developers@[index].data.unallocated == unallocated
                } else {
                    r == Err::<(), ScheduleError>(
                        ScheduleError::Unallocated { quarters: failed as u32 },
                    ) && root_after.developers@[index].data.unallocated == least(
                        unallocated + failed,
                        u32::MAX as int,
                    )
                },
            }
        },
    }
}

/// Whether a task and the chart changed as booking the work done, of the
/// past or to come, has to change them, and the call answered as it has to.
pub open spec fn done_transferred(
    before: &NodeConfigData,
    after: &NodeConfigData,
    root_before: &RootConfigData,
    root_after: &RootConfigData,
    past: bool,
    r: Result<(), ScheduleError>,
) -> bool {
    match before.dev {
        None => r is Ok && *after == *before && *root_after == *root_before,
        Some(dev) => match root_before.developer_index(dev@) {
            None => r is Ok && *after == *before && *root_after == *root_before,
            Some(index) => {
                let out = book_done(
                    root_before.developers@[index].data.cells@,
                    before.cells@,
                    done_views(before.done@),
                    root_before.now as int,
                    past,
                    before.done@.len() as int,
                );
                &&& differs_at(root_before, root_after, index)
                &&& root_after.developers@[index].data.unallocated
                    == root_before.developers@[index].data.unallocated
                &&& root_after.developers@[index].data.cells@ == out.0
                &&& after.cells@ == out.1
                &&& *after == (NodeConfigData { cells: after.cells, ..*before })
                &&& match out.2 {
                    None => r is Ok,
                    Some(e) => r == Err::<(), ScheduleError>(e),
                }
            },
        },
    }
}

/// Whether a task and the chart changed as booking the manager's time has to
/// change them, and the call answered as it has to: see
/// `RootConfigData::transfer_management_resource`. Only a task whose
/// resourcing is management, and whose plan is not laid out yet, books; its
/// developer has to be the manager. Afterwards its plan counts as laid out.
pub open spec fn management_transferred(
    before: &NodeConfigData,
    after: &NodeConfigData,
    root_before: &RootConfigData,
    root_after: &RootConfigData,
    r: Result<(), ScheduleError>,
) -> bool {
    if before.resource_transferred || before.resourcing != Some(ResourcingStrategy::Management) {
        r is Ok && *after == *before && *root_after == *root_before
    } else {
        match before.dev {
            None => r is Ok && *root_after == *root_before && *after == (NodeConfigData {
                resource_transferred: true,
                ..*before
            }),
            Some(dev) => match root_before.manager {
                None => r == Err::<(), ScheduleError>(ScheduleError::NoManager) && *after
                    == *before && *root_after == *root_before,
                Some(manager) => if manager@ != dev@ {
                    r == Err::<(), ScheduleError>(ScheduleError::NotManager) && *after == *before
                        && *root_after == *root_before
                } else {
                    &&& *after == (NodeConfigData {
                        cells: after.cells,
                        resource_transferred: after.resource_transferred,
                        ..*before
                    })
                    &&& crate::root::management_booked(
                        root_before,
                        root_after,
                        before.cells@,
                        after.cells@,
                        match r {
                            Ok(()) => Ok(()),
                            Err(ScheduleError::Management(e)) => Err(e),
                            Err(_) => Ok(()),
                        },
                    )
                    &&& match r {
                        Ok(()) => after.resource_transferred,
                        Err(e) => e is Management && !after.resource_transferred,
                    }
                },
            },
        }
    }
}

/// A task of the plan.
#[derive(Debug)]
pub struct NodeConfigData {
    /// The cells that were allotted to the task.
    pub cells: ChartRow,
    /// The budget, in quarters.
    pub budget: Option<u32>,
    pub scheduling: SchedulingStrategy,
    pub resourcing: Option<ResourcingStrategy>,
    /// Whether the task needs the manager's attention.
    pub managed: bool,
    /// What went wrong with the task, to be shown on the chart.
    pub notes: Vec<String>,
    pub dev: Option<String>,
    pub plan: Vec<PlanEntry>,
    pub default_plan: Vec<PlanEntry>,
    /// The plan at the start of the chart, in quarters.
    pub initial_plan: Option<u32>,
    /// The plan as of today, in quarters.
    pub now_plan: Option<u32>,
    pub done: Vec<DoneEntry>,
    pub earliest_start: u32,
    pub latest_end: u32,
    /// Whether the plan from today on has been laid out.
    pub resource_transferred: bool,
}

impl NodeConfigData {
    /// The start does not come after the end, and each piece of work done
    /// is a valid one.
    pub open spec fn wf(&self) -> bool {
        &&& self.earliest_start <= self.latest_end
        &&& forall|i: int| 0 <= i < self.done@.len() ==> done_valid(#[trigger] self.done@[i])
    }

    /// Whether the task is well-formed: see `wf`.
    pub fn is_well_formed(&self) -> (r: bool)
        ensures
            r == self.wf(),
    {
        if self.earliest_start > self.latest_end {
            return false;
        }
        let mut i: usize = 0;
        while i < self.done.len()
            invariant
                i <= self.done@.len(),
                forall|k: int| 0 <= k < i ==> done_valid(#[trigger] self.done@[k]),
            decreases self.done@.len() - i,
        {
            let done = self.done[i];
            let start = done.start.to_u32();
            let span = done.start.duration();
            let end: u64 = if done.time <= span {
                start as u64 + span as u64 - 1
            } else {
                start as u64 + done.time as u64 - 1
            };
            if done.time == 0 || end >= u32::MAX as u64 {
                assert(!done_valid(self.done@[i as int]));
                return false;
            }
            i = i + 1;
        }
        true
    }

    /// The developer of the node: the one it names, else the one whose name
    /// the node bears.
    pub open spec fn effective_dev(&self, root: &RootConfigData, node_name: Seq<char>) -> Option<
        Seq<char>,
    > {
        match self.dev {
            Some(d) => Some(d@),
            None => if node_name == OUTSOURCE@ || root.developer_index(node_name) is Some {
                Some(node_name)
            } else {
                None
            },
        }
    }

    /// A task without attributes, with a row of `num_cells` cells.
    pub fn new(num_cells: u32) -> (r: NodeConfigData)
        ensures
            r.cells@.len() == num_cells,
            forall|c: int| 0 <= c < num_cells ==> !r.cells@[c],
            r.budget is None,
            r.scheduling == SchedulingStrategy::Parallel,
            r.resourcing is None,
            r.managed,
            r.notes@.len() == 0,
            r.dev is None,
            r.plan@.len() == 0,
            r.default_plan@.len() == 0,
            r.initial_plan is None,
            r.now_plan is None,
            r.done@.len() == 0,
            r.earliest_start == 0,
            r.latest_end == num_cells,
            !r.resource_transferred,
            r.wf(),
            r@ == new_node(num_cells),
    {
        let r = NodeConfigData::new_inner(num_cells);
        assert(r@ =~= new_node(num_cells));
        r
    }

    fn new_inner(num_cells: u32) -> (r: NodeConfigData)
        ensures
            r.cells@.len() == num_cells,
            forall|c: int| 0 <= c < num_cells ==> !r.cells@[c],
            r.budget is None,
            r.scheduling == SchedulingStrategy::Parallel,
            r.resourcing is None,
            r.managed,
            r.notes@.len() == 0,
            r.dev is None,
            r.plan@.len() == 0,
            r.default_plan@.len() == 0,
            r.initial_plan is None,
            r.now_plan is None,
            r.done@.len() == 0,
            r.earliest_start == 0,
            r.latest_end == num_cells,
            !r.resource_transferred,
            r.wf(),
    {
        NodeConfigData {
            notes: Vec::new(),
            budget: None,
            scheduling: SchedulingStrategy::Parallel,
            resourcing: None,
            managed: true,
            dev: None,
            plan: Vec::new(),
            default_plan: Vec::new(),
            initial_plan: None,
            now_plan: None,
            done: Vec::new(),
            earliest_start: 0,
            latest_end: num_cells,
            resource_transferred: false,
            cells: ChartRow::new(num_cells),
        }
    }

    pub fn get_dev(&self, root_data: &RootConfigData, node_name: &str) -> (r: Option<String>)
        ensures
            text_of(r) == self.effective_dev(root_data, node_name@),
    {
        match &self.dev {
            Some(d) => Some(d.clone()),
            None => if root_data.is_valid_developer(node_name) {
                Some(String::from_str(node_name))
            } else {
                None
            },
        }
    }

    /// Names the developer of the node, who has to be one of the chart or
    /// stand for work given outside.
    pub fn set_dev(&mut self, root: &RootConfigData, dev: &String) -> (r: Result<(), AttributeError>)
        ensures
            if dev@ == OUTSOURCE@ || root.developer_index(dev@) is Some {
                r is Ok && final(self).dev == Some(*dev) && *final(self) == (NodeConfigData {
                    dev: final(self).dev,
                    ..*old(self)
                })
            } else {
                r == Err::<(), AttributeError>(AttributeError::UnknownDeveloper) && *final(self)
                    == *old(self)
            },
    {
        if !root.is_valid_developer(dev.as_str()) {
            return Err(AttributeError::UnknownDeveloper);
        }
        self.dev = Some(dev.clone());
        Ok(())
    }

    /// Sets the budget from a text of days.
    pub fn set_budget(&mut self, budget: &str) -> (r: Result<(), AttributeError>)
        ensures
            match parsed_budget(budget@) {
                Ok(quarters) => r is Ok && *final(self) == (NodeConfigData {
                    budget: Some(quarters),
                    ..*old(self)
                }),
                Err(e) => r == Err::<(), AttributeError>(e) && *final(self) == *old(self),
            },
    {
        match read_budget(budget) {
            Ok(quarters) => {
                self.budget = Some(quarters);
                Ok(())
            },
            Err(e) => Err(e),
        }
    }

    pub fn add_note(&mut self, note: &str) -> (r: Result<(), AttributeError>)
        ensures
            r is Ok,
            final(self).notes@.len() == old(self).notes@.len() + 1,
            final(self).notes@.drop_last() == old(self).notes@,
            final(self).notes@.last()@ == note@,
            *final(self) == (NodeConfigData { notes: final(self).notes, ..*old(self) }),
    {
        self.notes.push(String::from_str(note));
        assert(self.notes@.drop_last() =~= old(self).notes@);
        Ok(())
    }

    pub fn get_managed(&self) -> (r: bool)
        ensures
            r == self.managed,
    {
        self.managed
    }

    pub fn set_managed(&mut self, managed: bool)
        ensures
            *final(self) == (NodeConfigData { managed, ..*old(self) }),
    {
        self.managed = managed;
    }

    /// `true` takes the task out of the manager's care; anything else puts
    /// it back.
    pub fn set_non_managed(&mut self, non_managed: &str) -> (r: Result<(), AttributeError>)
        ensures
            r is Ok,
            *final(self) == (NodeConfigData { managed: non_managed@ != "true"@, ..*old(self) }),
    {
        self.managed = !same_text(non_managed, "true");
        Ok(())
    }

    /// Raises the earliest start to the first quarter of a time, where that
    /// is later; it may not pass the latest end.
    pub fn set_earliest_start(&mut self, when: &str) -> (r: Result<(), AttributeError>)
        ensures
            match parsed_time(when@) {
                Err(e) => r == Err::<(), AttributeError>(AttributeError::EarliestStart(e))
                    && *final(self) == *old(self),
                Ok((week, day, quarter)) => if index_of(week, day, quarter) <= old(self).earliest_start {
                    r is Ok && *final(self) == *old(self)
                } else if index_of(week, day, quarter) > old(self).latest_end {
                    r == Err::<(), AttributeError>(AttributeError::StartAfterEnd) && *final(self)
                        == *old(self)
                } else {
                    r is Ok && *final(self) == (NodeConfigData {
                        earliest_start: index_of(week, day, quarter) as u32,
                        ..*old(self)
                    })
                },
            },
    {
        let ct = match ChartTime::from_str(when) {
            Ok(t) => t,
            Err(e) => { return Err(AttributeError::EarliestStart(e)); },
        };
        if ct.to_u32() > self.earliest_start {
            if ct.to_u32() > self.latest_end {
                return Err(AttributeError::StartAfterEnd);
            }
            self.earliest_start = ct.to_u32();
        }
        Ok(())
    }

    /// Lowers the latest end to the last quarter of a time, where that is
    /// earlier; it may not pass the earliest start.
    pub fn set_latest_end(&mut self, when: &str) -> (r: Result<(), AttributeError>)
        ensures
            match parsed_time(when@) {
                Err(e) => r == Err::<(), AttributeError>(AttributeError::LatestEnd(e))
                    && *final(self) == *old(self),
                Ok((week, day, quarter)) => {
                    let end = index_of(week, day, quarter) + span_of(day, quarter) - 1;
                    if end >= old(self).latest_end {
                        r is Ok && *final(self) == *old(self)
                    } else if end < old(self).earliest_start {
                        r == Err::<(), AttributeError>(AttributeError::StartAfterEnd)
                            && *final(self) == *old(self)
                    } else {
                        r is Ok && *final(self) == (NodeConfigData {
                            latest_end: end as u32,
                            ..*old(self)
                        })
                    }
                },
            },
    {
        let ct = match ChartTime::from_str(when) {
            Ok(t) => t,
            Err(e) => { return Err(AttributeError::LatestEnd(e)); },
        };
        if ct.end_as_u32() < self.latest_end {
            if ct.end_as_u32() < self.earliest_start {
                return Err(AttributeError::StartAfterEnd);
            }
            self.latest_end = ct.end_as_u32();
        }
        Ok(())
    }

    /// Reads one part of a plan.
    pub fn new_plan_entry(&self, plan: &str) -> (r: Result<PlanEntry, PlanError>)
        ensures
            r == parsed_plan_part(plan@),
    {
        parse_plan_part(plan)
    }

    /// Reads a plan and adds its entries after those that the node has. A
    /// plan with a part that cannot be read adds none.
    pub fn set_plan(&mut self, plan: &str) -> (r: Result<(), AttributeError>)
        ensures
            match plan_entries(list_parts(plan@)) {
                Ok(entries) => r is Ok
                    && final(self).plan@ == old(self).plan@ + entries
                    && *final(self) == (NodeConfigData { plan: final(self).plan, ..*old(self) }),
                Err(e) => r == Err::<(), AttributeError>(AttributeError::Plan(e)) && *final(self)
                    == *old(self),
            },
    {
        match parse_plan(plan) {
            Ok(mut entries) => {
                self.plan.append(&mut entries);
                Ok(())
            },
            Err(e) => Err(AttributeError::Plan(e)),
        }
    }

    /// Reads a plan for the tasks below the node that have none of their own.
    pub fn set_default_plan(&mut self, plan: &str) -> (r: Result<(), AttributeError>)
        ensures
            match plan_entries(list_parts(plan@)) {
                Ok(entries) => r is Ok && final(self).default_plan@ == old(self).default_plan@
                    + entries && *final(self) == (NodeConfigData {
                    default_plan: final(self).default_plan,
                    ..*old(self)
                }),
                Err(e) => r == Err::<(), AttributeError>(AttributeError::DefaultPlan(e))
                    && *final(self) == *old(self),
            },
    {
        match parse_plan(plan) {
            Ok(mut entries) => {
                self.default_plan.append(&mut entries);
                Ok(())
            },
            Err(e) => Err(AttributeError::DefaultPlan(e)),
        }
    }

    /// Keeps the plan at the start of the chart and the plan as of today.
    pub fn set_derived_plan(&mut self, initial: Option<u32>, now: Option<u32>) -> (r: Result<
        (),
        AttributeError,
    >)
        ensures
            r is Ok,
            *final(self) == (NodeConfigData { initial_plan: initial, now_plan: now, ..*old(self) }),
    {
        self.initial_plan = initial;
        self.now_plan = now;
        Ok(())
    }

    /// Reads one piece of work done and adds it after the others.
    pub fn add_done(&mut self, root: &RootConfigData, done: &str) -> (r: Result<(), DoneError>)
        requires
            old(self).wf(),
        ensures
            final(self).wf(),
            match parsed_done_part(done@, root.quarters()) {
                Ok(entry) => r is Ok && done_views(final(self).done@) == done_views(
                    old(self).done@,
                ).push(entry) && *final(self) == (NodeConfigData {
                    done: final(self).done,
                    ..*old(self)
                }),
                Err(e) => r == Err::<(), DoneError>(e) && *final(self) == *old(self),
            },
    {
        match parse_done_part(done, root.get_weeks()) {
            Ok(entry) => {
                self.done.push(entry);
                assert(done_views(self.done@) =~= done_views(old(self).done@).push(entry@));
                Ok(())
            },
            Err(e) => Err(e),
        }
    }

    /// Reads the work done and adds it after what the node has. Work with a
    /// part that cannot be read adds nothing.
    pub fn set_done(&mut self, root: &RootConfigData, done: &str) -> (r: Result<(), AttributeError>)
        requires
            old(self).wf(),
        ensures
            final(self).wf(),
            match done_entries(list_parts(done@), root.quarters()) {
                Ok(entries) => r is Ok && done_views(final(self).done@) == done_views(
                    old(self).done@,
                ) + entries && *final(self) == (NodeConfigData {
                    done: final(self).done,
                    ..*old(self)
                }),
                Err(e) => r == Err::<(), AttributeError>(AttributeError::Done(e)) && *final(self)
                    == *old(self),
            },
    {
        match parse_done(done, root.get_weeks()) {
            Ok(mut entries) => {
                let ghost added = entries@;
                self.done.append(&mut entries);
                assert(done_views(self.done@) =~= done_views(old(self).done@) + done_views(added));
                Ok(())
            },
            Err(e) => Err(AttributeError::Done(e)),
        }
    }

    pub fn set_schedule(&mut self, strategy: &str) -> (r: Result<(), AttributeError>)
        ensures
            match schedule_named(strategy@) {
                Some(s) => r is Ok && *final(self) == (NodeConfigData {
                    scheduling: s,
                    ..*old(self)
                }),
                None => r == Err::<(), AttributeError>(AttributeError::Schedule) && *final(self)
                    == *old(self),
            },
    {
        if same_text(strategy, "serial") {
            self.scheduling = SchedulingStrategy::Serial;
        } else if same_text(strategy, "parallel") {
            self.scheduling = SchedulingStrategy::Parallel;
        } else {
            return Err(AttributeError::Schedule);
        }
        Ok(())
    }

    pub fn set_resource(&mut self, strategy: &str) -> (r: Result<(), AttributeError>)
        ensures
            match resource_named(strategy@) {
                Some(s) => r is Ok && *final(self) == (NodeConfigData {
                    resourcing: Some(s),
                    ..*old(self)
                }),
                None => r == Err::<(), AttributeError>(AttributeError::Resource) && *final(self)
                    == *old(self),
            },
    {
        if same_text(strategy, "management") {
            self.resourcing = Some(ResourcingStrategy::Management);
        } else if same_text(strategy, "smearprorata") {
            self.resourcing = Some(ResourcingStrategy::SmearProRata);
        } else if same_text(strategy, "smearremaining") {
            self.resourcing = Some(ResourcingStrategy::SmearRemaining);
        } else if same_text(strategy, "frontload") {
            self.resourcing = Some(ResourcingStrategy::FrontLoad);
        } else if same_text(strategy, "backload") {
            self.resourcing = Some(ResourcingStrategy::BackLoad);
        } else if same_text(strategy, "prodsfr") {
            self.resourcing = Some(ResourcingStrategy::ProdSFR);
        } else {
            return Err(AttributeError::Resource);
        }
        Ok(())
    }

    pub fn get_resourcing(&self, root_data: &RootConfigData, node_name: &str) -> (r: Option<
        ResourcingStrategy,
    >)
        ensures
            r == self.resourcing,
    {
        self.resourcing
    }

    pub fn set_resourcing(
        &mut self,
        root_data: &RootConfigData,
        r: ResourcingStrategy,
    ) -> (res: Result<(), AttributeError>)
        ensures
            res is Ok,
            *final(self) == (NodeConfigData { resourcing: Some(r), ..*old(self) }),
    {
        self.resourcing = Some(r);
        Ok(())
    }

    /// Gives the node the attribute that `key` names.
    pub fn apply_attribute(
        &mut self,
        root: &RootConfigData,
        key: AttributeKey,
        value: &String,
    ) -> (r: Result<(), AttributeError>)
        requires
            old(self).wf(),
        ensures
            final(self).wf(),
            attribute_applied(*old(self), *final(self), root, key, value, r),
            match with_attribute(old(self)@, root@.developers, root.quarters(), key, value@) {
                Ok(v) => r is Ok && final(self)@ == v,
                Err(e) => r == Err::<(), AttributeError>(e) && final(self)@ == old(self)@,
            },
    {
        let r = self.apply_attribute_inner(root, key, value);
        proof {
            lemma_attribute_applied(*old(self), *self, root, key, value, r);
        }
        r
    }

    fn apply_attribute_inner(
        &mut self,
        root: &RootConfigData,
        key: AttributeKey,
        value: &String,
    ) -> (r: Result<(), AttributeError>)
        requires
            old(self).wf(),
        ensures
            final(self).wf(),
            attribute_applied(*old(self), *final(self), root, key, value, r),
    {
        match key {
            AttributeKey::Budget => self.set_budget(value.as_str()),
            AttributeKey::Schedule => self.set_schedule(value.as_str()),
            AttributeKey::Resource => self.set_resource(value.as_str()),
            AttributeKey::NonManaged => self.set_non_managed(value.as_str()),
            AttributeKey::Dev => self.set_dev(root, value),
            AttributeKey::Note => self.add_note(value.as_str()),
            AttributeKey::Plan => self.set_plan(value.as_str()),
            AttributeKey::DefaultPlan => self.set_default_plan(value.as_str()),
            AttributeKey::Done => self.set_done(root, value.as_str()),
            AttributeKey::EarliestStart => self.set_earliest_start(value.as_str()),
            AttributeKey::LatestEnd => self.set_latest_end(value.as_str()),
        }
    }

    /// Gives the node an attribute. A key that names none is refused.
    pub fn add_attribute(
        &mut self,
        root: &RootConfigData,
        key: &String,
        value: &String,
    ) -> (r: Result<(), AttributeError>)
        requires
            old(self).wf(),
        ensures
            final(self).wf(),
            match attribute_named(key@) {
                Some(k) => attribute_applied(*old(self), *final(self), root, k, value, r),
                None => r == Err::<(), AttributeError>(AttributeError::Unknown) && *final(self)
                    == *old(self),
            },
            match with_named_attribute(
                old(self)@,
                root@.developers,
                root.quarters(),
                key@,
                value@,
            ) {
                Ok(v) => r is Ok && final(self)@ == v,
                Err(e) => r == Err::<(), AttributeError>(e) && final(self)@ == old(self)@,
            },
    {
        match attribute_key(key.as_str()) {
            Some(k) => self.apply_attribute(root, k, value),
            None => Err(AttributeError::Unknown),
        }
    }

    /// Books the work done, of the past or to come, against the developer
    /// of the task.
    pub fn transfer_done(&mut self, root: &mut RootConfigData, past: bool) -> (r: Result<
        (),
        ScheduleError,
    >)
        requires
            old(self).wf(),
        ensures
            final(self).wf(),
            done_transferred(old(self), final(self), old(root), final(root), past, r),
    {
        let now = root.get_now();
        let index = match &self.dev {
            Some(d) => match root.find_developer(d.as_str()) {
                Some(i) => i,
                None => {
                    return Ok(());
                },
            },
            None => {
                return Ok(());
            },
        };
        let ghost src0 = root.developers@[index as int].data.cells@;
        let ghost dst0 = self.cells@;
        let ghost views = done_views(self.done@);
        let mut i: usize = 0;
        while i < self.done.len()
            invariant
                self.wf(),
                i <= self.done@.len(),
                index < root.developers@.len(),
                old(self).dev is Some,
                old(root).developer_index(old(self).dev->0@) == Some(index as int),
                src0 == old(root).developers@[index as int].data.cells@,
                dst0 == old(self).cells@,
                views == done_views(old(self).done@),
                now == old(root).now,
                *self == (NodeConfigData { cells: self.cells, ..*old(self) }),
                differs_at(old(root), root, index as int),
                root.developers@[index as int].data.unallocated == old(root).developers@[index as int].data.unallocated,
                book_done(src0, dst0, views, now as int, past, i as int) == (
                    root.developers@[index as int].data.cells@,
                    self.cells@,
                    None::<ScheduleError>,
                ),
            decreases self.done@.len() - i,
        {
            let done = self.done[i];
            assert(done_valid(done));
            assert(views[i as int] == done@);
            let start = done.start.to_u32();
            if (start < now) == past {
                let end: u32 = if done.time <= done.start.duration() {
                    done.start.end_as_u32()
                } else {
                    start + (done.time - 1)
                };
                let period = match ChartPeriod::new(start, end) {
                    Ok(p) => p,
                    Err(_) => {
                        return Err(ScheduleError::RowTooShort);
                    },
                };
                let result = root.developers[index].data.cells.transfer_to(
                    &mut self.cells,
                    TransferPolicy::Fill,
                    done.time,
                    &period,
                );
                match result {
                    Err(_) => {
                        proof {
                            lemma_book_done_stops(
                                src0,
                                dst0,
                                views,
                                now as int,
                                past,
                                i + 1,
                                views.len() as int,
                            );
                        }
                        return Err(ScheduleError::RowTooShort);
                    },
                    Ok(t) => {
                        if t.failed != 0 {
                            proof {
                                lemma_book_done_stops(
                                    src0,
                                    dst0,
                                    views,
                                    now as int,
                                    past,
                                    i + 1,
                                    views.len() as int,
                                );
                            }
                            return Err(
                                ScheduleError::DoneUnallocated { quarters: t.failed, start },
                            );
                        }
                    },
                }
            }
            i = i + 1;
        }
        Ok(())
    }

    /// Books the work done that started before today.
    pub fn transfer_past_done(&mut self, root: &mut RootConfigData) -> (r: Result<
        (),
        ScheduleError,
    >)
        requires
            old(self).wf(),
        ensures
            final(self).wf(),
            done_transferred(old(self), final(self), old(root), final(root), true, r),
    {
        self.transfer_done(root, true)
    }

    /// Books the work done from today on, for a task in the manager's care.
    pub fn transfer_future_done_managed(&mut self, root: &mut RootConfigData) -> (r: Result<
        (),
        ScheduleError,
    >)
        requires
            old(self).wf(),
        ensures
            final(self).wf(),
            if old(self).managed {
                done_transferred(old(self), final(self), old(root), final(root), false, r)
            } else {
                r is Ok && *final(self) == *old(self) && *final(root) == *old(root)
            },
    {
        if !self.managed {
            return Ok(());
        }
        self.transfer_done(root, false)
    }

    /// Books the work done from today on, for a task out of the manager's care.
    pub fn transfer_future_done_unmanaged(&mut self, root: &mut RootConfigData) -> (r: Result<
        (),
        ScheduleError,
    >)
        requires
            old(self).wf(),
        ensures
            final(self).wf(),
            if !old(self).managed {
                done_transferred(old(self), final(self), old(root), final(root), false, r)
            } else {
                r is Ok && *final(self) == *old(self) && *final(root) == *old(root)
            },
    {
        if self.managed {
            return Ok(());
        }
        self.transfer_done(root, false)
    }

    /// Lays out the plan from today on, where the task is smeared.
    pub fn transfer_future_smear(&mut self, root: &mut RootConfigData) -> (r: Result<
        (),
        ScheduleError,
    >)
        requires
            old(root).chart_valid(),
        ensures
            match old(self).resourcing {
                Some(ResourcingStrategy::SmearRemaining)
                | Some(ResourcingStrategy::SmearProRata)
                | Some(ResourcingStrategy::ProdSFR) => future_transferred(
                    old(self),
                    final(self),
                    old(root),
                    final(root),
                    old(self).resourcing,
                    r,
                ),
                _ => r is Ok && *final(self) == *old(self) && *final(root) == *old(root),
            },
    {
        match self.resourcing {
            Some(ResourcingStrategy::SmearRemaining)
            | Some(ResourcingStrategy::SmearProRata)
            | Some(ResourcingStrategy::ProdSFR) => {
                let r = self.resourcing;
                self.transfer_future_resource(root, r)
            },
            _ => Ok(()),
        }
    }

    /// Lays out the plan from today on, where the task is front-loaded.
    pub fn transfer_future_frontload(&mut self, root: &mut RootConfigData) -> (r: Result<
        (),
        ScheduleError,
    >)
        requires
            old(root).chart_valid(),
        ensures
            match old(self).resourcing {
                Some(ResourcingStrategy::FrontLoad) => future_transferred(
                    old(self),
                    final(self),
                    old(root),
                    final(root),
                    Some(ResourcingStrategy::FrontLoad),
                    r,
                ),
                _ => r is Ok && *final(self) == *old(self) && *final(root) == *old(root),
            },
    {
        match self.resourcing {
            Some(ResourcingStrategy::FrontLoad) => self.transfer_future_resource(
                root,
                Some(ResourcingStrategy::FrontLoad),
            ),
            _ => Ok(()),
        }
    }

    /// Lays out the plan from today on, where the task is back-loaded, and
    /// the second step of `ProdSFR`.
    pub fn transfer_future_backload(&mut self, root: &mut RootConfigData) -> (r: Result<
        (),
        ScheduleError,
    >)
        requires
            old(root).chart_valid(),
        ensures
            match old(self).resourcing {
                Some(ResourcingStrategy::BackLoad) => future_transferred(
                    old(self),
                    final(self),
                    old(root),
                    final(root),
                    Some(ResourcingStrategy::BackLoad),
                    r,
                ),
                Some(ResourcingStrategy::ProdSFR) => future_transferred(
                    old(self),
                    final(self),
                    old(root),
                    final(root),
                    Some(ResourcingStrategy::ProdSFR_part2),
                    r,
                ),
                _ => r is Ok && *final(self) == *old(self) && *final(root) == *old(root),
            },
    {
        match self.resourcing {
            Some(ResourcingStrategy::BackLoad) => self.transfer_future_resource(
                root,
                Some(ResourcingStrategy::BackLoad),
            ),
            Some(ResourcingStrategy::ProdSFR) => self.transfer_future_resource(
                root,
                Some(ResourcingStrategy::ProdSFR_part2),
            ),
            _ => Ok(()),
        }
    }

    /// Lays out the plan from today on, for a task out of the manager's care.
    pub fn transfer_future_unmanaged_resource(&mut self, root: &mut RootConfigData) -> (r: Result<
        (),
        ScheduleError,
    >)
        requires
            old(root).chart_valid(),
        ensures
            if !old(self).managed {
                future_transferred(
                    old(self),
                    final(self),
                    old(root),
                    final(root),
                    old(self).resourcing,
                    r,
                )
            } else {
                r is Ok && *final(self) == *old(self) && *final(root) == *old(root)
            },
    {
        if self.managed {
            return Ok(());
        }
        self.transfer_future_resource(root, None)
    }

    /// Books the manager's time, where the task's resourcing is management.
    pub fn transfer_future_management_resource(&mut self, root: &mut RootConfigData) -> (r: Result<
        (),
        ScheduleError,
    >)
        requires
            old(root).chart_valid(),
        ensures
            management_transferred(old(self), final(self), old(root), final(root), r),
    {
        if self.resource_transferred {
            return Ok(());
        }
        match self.resourcing {
            Some(ResourcingStrategy::Management) => {},
            _ => {
                return Ok(());
            },
        }
        if self.dev.is_some() {
            let same = match (&root.manager, &self.dev) {
                (Some(manager), Some(dev)) => same_text(manager.as_str(), dev.as_str()),
                (None, _) => {
                    return Err(ScheduleError::NoManager);
                },
                _ => false,
            };
            if !same {
                return Err(ScheduleError::NotManager);
            }
            match root.transfer_management_resource(&mut self.cells) {
                Ok(()) => {},
                Err(e) => {
                    return Err(ScheduleError::Management(e));
                },
            }
        }
        self.resource_transferred = true;
        Ok(())
    }

    /// Lays out the plan from today on with the task's own resourcing.
    pub fn transfer_future_remaining_resource(&mut self, root: &mut RootConfigData) -> (r: Result<
        (),
        ScheduleError,
    >)
        requires
            old(root).chart_valid(),
        ensures
            future_transferred(
                old(self),
                final(self),
                old(root),
                final(root),
                old(self).resourcing,
                r,
            ),
    {
        self.transfer_future_resource(root, None)
    }

    /// Lays out the plan from today on: see `future_plan` for what is to
    /// move, and `future_transferred` for what the call leaves behind. The
    /// task's own resourcing is taken where `resourcing` names none.
    pub fn transfer_future_resource(
        &mut self,
        root: &mut RootConfigData,
        resourcing: Option<ResourcingStrategy>,
    ) -> (r: Result<(), ScheduleError>)
        requires
            old(root).chart_valid(),
        ensures
            future_transferred(
                old(self),
                final(self),
                old(root),
                final(root),
                if resourcing is None {
                    old(self).resourcing
                } else {
                    resourcing
                },
                r,
            ),
    {
        if self.resource_transferred {
            return Ok(());
        }
        let plan = match self.now_plan {
            Some(p) => p,
            None => {
                return Ok(());
            },
        };
        if self.dev.is_none() {
            return Ok(());
        }
        let chart = root.chart_period();
        let held = self.cells.count_range(&chart);
        let left: u32 = if plan > held {
            plan - held
        } else {
            0
        };
        let resource = root.resource_period(&self.dev);
        let from_now = match ChartPeriod::new(root.get_now(), root.get_weeks() * 20 - 1) {
            Ok(p) => p,
            Err(_) => {
                return Ok(());
            },
        };
        let remaining = match resource {
            Some(p) => from_now.intersect(&p),
            None => None,
        };
        let remaining = match remaining {
            Some(p) => p,
            None => {
                if left == 0 {
                    return Ok(());
                } else {
                    return Err(ScheduleError::DeveloperUnavailable { quarters: left });
                }
            },
        };
        let index = match &self.dev {
            Some(d) => match root.find_developer(d.as_str()) {
                Some(i) => i,
                None => {
                    return Ok(());
                },
            },
            None => {
                return Ok(());
            },
        };
        let strategy = if resourcing.is_none() {
            self.resourcing
        } else {
            resourcing
        };
        let (policy, count, latch): (TransferPolicy, u32, bool) = match strategy {
            None => {
                return Err(ScheduleError::NoStrategy);
            },
            Some(ResourcingStrategy::Management) => {
                return Ok(());
            },
            Some(ResourcingStrategy::SmearProRata) => {
                let duration = root.get_plan_dev_duration(&self.dev);
                let length = remaining.length();
                let booked = self.cells.count_range(&remaining);
                assert(length * plan <= duration * plan) by (nonlinear_arith)
                    requires
                        0 <= length <= duration,
                        0 <= plan,
                ;
                assert(length * plan <= 0xffff_ffff * 0xffff_ffff) by (nonlinear_arith)
                    requires
                        0 <= length <= 0xffff_ffff,
                        0 <= plan <= 0xffff_ffff,
                ;
                let share: u64 = ((length as u64) * (plan as u64) + (duration as u64 - 1)) / (
                duration as u64);
                assert(share <= plan) by (nonlinear_arith)
                    requires
                        share == (length * plan + (duration - 1)) / (duration as int),
                        length * plan <= duration * plan,
                        0 < duration,
                        0 <= plan,
                ;
                if share < booked as u64 {
                    return Err(
                        ScheduleError::OverCommitted { quarters: (booked as u64 - share) as u32 },
                    );
                }
                (TransferPolicy::Smear, (share - booked as u64) as u32, true)
            },
            Some(ResourcingStrategy::SmearRemaining) => (TransferPolicy::Smear, left, true),
            Some(ResourcingStrategy::FrontLoad) => (TransferPolicy::Fill, left, true),
            Some(ResourcingStrategy::BackLoad) => (TransferPolicy::ReverseFill, left, true),
            Some(ResourcingStrategy::ProdSFR) => (
                TransferPolicy::Smear,
                ((left as u64) * 20 / 100) as u32,
                false,
            ),
            Some(ResourcingStrategy::ProdSFR_part2) => (TransferPolicy::ReverseFill, left, true),
        };
        let result = root.developers[index].data.cells.transfer_to(
            &mut self.cells,
            policy,
            count,
            &remaining,
        );
        let t = match result {
            Ok(t) => t,
            Err(_) => {
                return Err(ScheduleError::RowTooShort);
            },
        };
        if latch {
            self.resource_transferred = true;
        }
        if t.failed != 0 {
            root.record_unallocated(index, t.failed);
            return Err(ScheduleError::Unallocated { quarters: t.failed });
        }
        Ok(())
    }

    /// The plan as it stands at the quarter `when`, for a task whose plan
    /// is spread over the developer's whole time: the cells that the task
    /// holds before `when`, and of the plan the share of the time from `when`
    /// on in which the developer is there, rounded up.
    pub open spec fn pro_rata(&self, root: &RootConfigData, when: int, plan: int) -> u32 {
        let dev = text_of(self.dev);
        let duration = root.duration_of(dev);
        let remaining = match shared(root.resource_ends(dev), (when, root.quarters() - 1)) {
            Some((first, last)) => last - first + 1,
            None => 0int,
        };
        let work = if duration == 0 {
            0int
        } else {
            ceil_div(remaining * plan, duration)
        };
        capped(
            if when == 0 {
                work
            } else {
                count_in(self.cells@, 0, when) + work
            },
        )
    }

    /// See `pro_rata`.
    pub fn pro_rata_plan_at_date(&self, when: u32, plan: u32, root: &RootConfigData) -> (r: u32)
        requires
            root.chart_valid(),
            root.quarters() > when,
        ensures
            r == self.pro_rata(root, when as int, plan as int),
    {
        let duration = root.get_plan_dev_duration(&self.dev);
        let from_when = match ChartPeriod::new(when, root.get_weeks() * 20 - 1) {
            Ok(p) => p,
            Err(_) => {
                return 0;
            },
        };
        let remaining: u32 = match root.resource_period(&self.dev) {
            Some(p) => match from_when.intersect(&p) {
                Some(both) => both.length(),
                None => 0,
            },
            None => 0,
        };
        assert(remaining * plan <= 0xffff_ffff * 0xffff_ffff) by (nonlinear_arith)
            requires
                0 <= remaining <= 0xffff_ffff,
                0 <= plan <= 0xffff_ffff,
        ;
        let work: u64 = if duration == 0 {
            0
        } else {
            ((remaining as u64) * (plan as u64) + (duration as u64 - 1)) / (duration as u64)
        };
        let total: u64 = if when == 0 {
            work
        } else {
            let before = match ChartPeriod::new(0, when - 1) {
                Ok(p) => p,
                Err(_) => {
                    return 0;
                },
            };
            self.cells.count_range(&before) as u64 + work
        };
        if total > u32::MAX as u64 {
            u32::MAX
        } else {
            total as u32
        }
    }

    /// The plan of the node for the quarter `when`, for a developer whose
    /// share of time a plan entry may name.
    pub fn get_plan(&self, root: &RootConfigData, dev: &Option<String>, when: u32) -> (r: Option<
        u32,
    >)
        requires
            root.chart_valid(),
        ensures
            r == plan_for(self.plan@, when as int, root.duration_of(text_of(*dev))),
    {
        get_plan_internal(root, dev, when, &self.plan)
    }

    /// The plan that the node gives the tasks below it for the quarter `when`.
    pub fn get_default_plan(
        &self,
        root: &RootConfigData,
        dev: &Option<String>,
        when: u32,
    ) -> (r: Option<u32>)
        requires
            root.chart_valid(),
        ensures
            r == plan_for(self.default_plan@, when as int, root.duration_of(text_of(*dev))),
    {
        get_plan_internal(root, dev, when, &self.default_plan)
    }
}

/// A task as plain values.
#[verifier::ext_equal]
pub struct NodeView {
    pub cells: Seq<bool>,
    pub budget: Option<u32>,
    pub scheduling: SchedulingStrategy,
    pub resourcing: Option<ResourcingStrategy>,
    pub managed: bool,
    pub notes: Seq<Seq<char>>,
    pub dev: Option<Seq<char>>,
    pub plan: Seq<PlanEntry>,
    pub default_plan: Seq<PlanEntry>,
    pub initial_plan: Option<u32>,
    pub now_plan: Option<u32>,
    pub done: Seq<DoneView>,
    pub earliest_start: u32,
    pub latest_end: u32,
    pub resource_transferred: bool,
}

impl View for NodeConfigData {
    type V = NodeView;

    open spec fn view(&self) -> NodeView {
        NodeView {
            cells: self.cells@,
            budget: self.budget,
            scheduling: self.scheduling,
            resourcing: self.resourcing,
            managed: self.managed,
            notes: Seq::new(self.notes@.len(), |i: int| self.notes@[i]@),
            dev: text_of(self.dev),
            plan: self.plan@,
            default_plan: self.default_plan@,
            initial_plan: self.initial_plan,
            now_plan: self.now_plan,
            done: done_views(self.done@),
            earliest_start: self.earliest_start,
            latest_end: self.latest_end,
            resource_transferred: self.resource_transferred,
        }
    }
}

/// A task without attributes, with a row of `num_cells` cells.
pub open spec fn new_node(num_cells: u32) -> NodeView {
    NodeView {
        cells: Seq::new(num_cells as nat, |c: int| false),
        budget: None,
        scheduling: SchedulingStrategy::Parallel,
        resourcing: None,
        managed: true,
        notes: Seq::empty(),
        dev: None,
        plan: Seq::empty(),
        default_plan: Seq::empty(),
        initial_plan: None,
        now_plan: None,
        done: Seq::empty(),
        earliest_start: 0,
        latest_end: num_cells,
        resource_transferred: false,
    }
}

/// The task with an attribute given to it, or why it cannot be given. The
/// chart says who the developers are and how long it is.
pub open spec fn with_attribute(
    v: NodeView,
    developers: Seq<crate::root::DeveloperView>,
    quarters: int,
    key: AttributeKey,
    value: Seq<char>,
) -> Result<NodeView, AttributeError> {
    match key {
        AttributeKey::Budget => match parsed_budget(value) {
            Ok(quarters) => Ok(NodeView { budget: Some(quarters), ..v }),
            Err(e) => Err(e),
        },
        AttributeKey::Schedule => match schedule_named(value) {
            Some(s) => Ok(NodeView { scheduling: s, ..v }),
            None => Err(AttributeError::Schedule),
        },
        AttributeKey::Resource => match resource_named(value) {
            Some(s) => Ok(NodeView { resourcing: Some(s), ..v }),
            None => Err(AttributeError::Resource),
        },
        AttributeKey::NonManaged => Ok(NodeView { managed: value != "true"@, ..v }),
        AttributeKey::Dev => if value == OUTSOURCE@ || crate::root::has_developer(
            developers,
            value,
        ) {
            Ok(NodeView { dev: Some(value), ..v })
        } else {
            Err(AttributeError::UnknownDeveloper)
        },
        AttributeKey::Note => Ok(NodeView { notes: v.notes.push(value), ..v }),
        AttributeKey::Plan => match plan_entries(list_parts(value)) {
            Ok(entries) => Ok(NodeView { plan: v.plan + entries, ..v }),
            Err(e) => Err(AttributeError::Plan(e)),
        },
        AttributeKey::DefaultPlan => match plan_entries(list_parts(value)) {
            Ok(entries) => Ok(NodeView { default_plan: v.default_plan + entries, ..v }),
            Err(e) => Err(AttributeError::DefaultPlan(e)),
        },
        AttributeKey::Done => match done_entries(list_parts(value), quarters) {
            Ok(entries) => Ok(NodeView { done: v.done + entries, ..v }),
            Err(e) => Err(AttributeError::Done(e)),
        },
        AttributeKey::EarliestStart => match parsed_time(value) {
            Err(e) => Err(AttributeError::EarliestStart(e)),
            Ok((week, day, quarter)) => if index_of(week, day, quarter) <= v.earliest_start {
                Ok(v)
            } else if index_of(week, day, quarter) > v.latest_end {
                Err(AttributeError::StartAfterEnd)
            } else {
                Ok(NodeView { earliest_start: index_of(week, day, quarter) as u32, ..v })
            },
        },
        AttributeKey::LatestEnd => match parsed_time(value) {
            Err(e) => Err(AttributeError::LatestEnd(e)),
            Ok((week, day, quarter)) => {
                let end = index_of(week, day, quarter) + span_of(day, quarter) - 1;
                if end >= v.latest_end {
                    Ok(v)
                } else if end < v.earliest_start {
                    Err(AttributeError::StartAfterEnd)
                } else {
                    Ok(NodeView { latest_end: end as u32, ..v })
                }
            },
        },
    }
}

/// The task with the attribute that a key names given to it.
pub open spec fn with_named_attribute(
    v: NodeView,
    developers: Seq<crate::root::DeveloperView>,
    quarters: int,
    key: Seq<char>,
    value: Seq<char>,
) -> Result<NodeView, AttributeError> {
    match attribute_named(key) {
        Some(k) => with_attribute(v, developers, quarters, k, value),
        None => Err(AttributeError::Unknown),
    }
}

/// What the setters say of a node, said of its plain values.
pub proof fn lemma_attribute_applied(
    before: NodeConfigData,
    after: NodeConfigData,
    root: &RootConfigData,
    key: AttributeKey,
    value: &String,
    r: Result<(), AttributeError>,
)
    requires
        attribute_applied(before, after, root, key, value, r),
    ensures
        match with_attribute(before@, root@.developers, root.quarters(), key, value@) {
            Ok(v) => r is Ok && after@ == v,
            Err(e) => r == Err::<(), AttributeError>(e) && after@ == before@,
        },
{
    crate::root::lemma_has_developer(root.developers@, value@);
    match key {
        AttributeKey::Note => {
            assert(after@.notes =~= before@.notes.push(value@)) by {
                assert forall|i: int| 0 <= i < before.notes@.len() implies after@.notes[i]
                    == before@.notes[i] by {
                    assert(after.notes@[i] == after.notes@.drop_last()[i]);
                }
            }
            assert(after@ =~= (NodeView { notes: before@.notes.push(value@), ..before@ }));
        },
        AttributeKey::Dev => {
            if r is Ok {
                assert(after@ =~= (NodeView { dev: Some(value@), ..before@ }));
            }
        },
        _ => {
            match with_attribute(before@, root@.developers, root.quarters(), key, value@) {
                Ok(v) => {
                    assert(after@ =~= v);
                },
                Err(_) => {},
            }
        },
    }
}

/// What giving a node an attribute does: the same as the setter of that
/// attribute.
pub open spec fn attribute_applied(
    before: NodeConfigData,
    after: NodeConfigData,
    root: &RootConfigData,
    key: AttributeKey,
    value: &String,
    r: Result<(), AttributeError>,
) -> bool {
    match key {
        AttributeKey::Budget => match parsed_budget(value@) {
            Ok(quarters) => r is Ok && after == (NodeConfigData {
                budget: Some(quarters),
                ..before
            }),
            Err(e) => r == Err::<(), AttributeError>(e) && after == before,
        },
        AttributeKey::Schedule => match schedule_named(value@) {
            Some(s) => r is Ok && after == (NodeConfigData { scheduling: s, ..before }),
            None => r == Err::<(), AttributeError>(AttributeError::Schedule) && after == before,
        },
        AttributeKey::Resource => match resource_named(value@) {
            Some(s) => r is Ok && after == (NodeConfigData { resourcing: Some(s), ..before }),
            None => r == Err::<(), AttributeError>(AttributeError::Resource) && after == before,
        },
        AttributeKey::NonManaged => r is Ok && after == (NodeConfigData {
            managed: value@ != "true"@,
            ..before
        }),
        AttributeKey::Dev => if value@ == OUTSOURCE@ || root.developer_index(value@) is Some {
            r is Ok && after.dev == Some(*value) && after == (NodeConfigData {
                dev: after.dev,
                ..before
            })
        } else {
            r == Err::<(), AttributeError>(AttributeError::UnknownDeveloper) && after == before
        },
        AttributeKey::Note => r is Ok && after.notes@.len() == before.notes@.len() + 1
            && after.notes@.drop_last() == before.notes@ && after.notes@.last()@ == value@
            && after == (NodeConfigData { notes: after.notes, ..before }),
        AttributeKey::Plan => match plan_entries(list_parts(value@)) {
            Ok(entries) => r is Ok && after.plan@ == before.plan@ + entries && after == (
            NodeConfigData { plan: after.plan, ..before }),
            Err(e) => r == Err::<(), AttributeError>(AttributeError::Plan(e)) && after == before,
        },
        AttributeKey::DefaultPlan => match plan_entries(list_parts(value@)) {
            Ok(entries) => r is Ok && after.default_plan@ == before.default_plan@ + entries
                && after == (NodeConfigData { default_plan: after.default_plan, ..before }),
            Err(e) => r == Err::<(), AttributeError>(AttributeError::DefaultPlan(e)) && after
                == before,
        },
        AttributeKey::Done => match done_entries(list_parts(value@), root.quarters()) {
            Ok(entries) => r is Ok && done_views(after.done@) == done_views(before.done@)
                + entries && after == (NodeConfigData { done: after.done, ..before }),
            Err(e) => r == Err::<(), AttributeError>(AttributeError::Done(e)) && after == before,
        },
        AttributeKey::EarliestStart => match parsed_time(value@) {
            Err(e) => r == Err::<(), AttributeError>(AttributeError::EarliestStart(e)) && after
                == before,
            Ok((week, day, quarter)) => if index_of(week, day, quarter) <= before.earliest_start {
                r is Ok && after == before
            } else if index_of(week, day, quarter) > before.latest_end {
                r == Err::<(), AttributeError>(AttributeError::StartAfterEnd) && after == before
            } else {
                r is Ok && after == (NodeConfigData {
                    earliest_start: index_of(week, day, quarter) as u32,
                    ..before
                })
            },
        },
        AttributeKey::LatestEnd => match parsed_time(value@) {
            Err(e) => r == Err::<(), AttributeError>(AttributeError::LatestEnd(e)) && after
                == before,
            Ok((week, day, quarter)) => {
                let end = index_of(week, day, quarter) + span_of(day, quarter) - 1;
                if end >= before.latest_end {
                    r is Ok && after == before
                } else if end < before.earliest_start {
                    r == Err::<(), AttributeError>(AttributeError::StartAfterEnd) && after
                        == before
                } else {
                    r is Ok && after == (NodeConfigData { latest_end: end as u32, ..before })
                }
            },
        },
    }
}

/// The plan that some entries give for the quarter `when`.
fn get_plan_internal(
    root: &RootConfigData,
    dev: &Option<String>,
    when: u32,
    vec: &Vec<PlanEntry>,
) -> (r: Option<u32>)
    requires
        root.chart_valid(),
    ensures
        r == plan_for(vec@, when as int, root.duration_of(text_of(*dev))),
{
    let mut found: Option<PlanEntry> = None;
    let mut i: usize = 0;
    while i < vec.len()
        invariant
            i <= vec@.len(),
            found == plan_at(vec@, when as int, i as int),
        decreases vec@.len() - i,
    {
        if when >= vec[i].when {
            found = Some(vec[i]);
        }
        i = i + 1;
    }
    match found {
        Some(entry) => {
            let duration = root.get_plan_dev_duration(dev);
            let months: u128 = match entry.suffix {
                None => { return Some(entry.plan); },
                Some(PlanSuffix::PerYear) => 1,
                Some(PlanSuffix::PerMonth) => 12,
            };
            assert(entry.plan * duration <= 0xffff_ffff * 0xffff_ffff) by (nonlinear_arith)
                requires
                    0 <= entry.plan <= 0xffff_ffff,
                    0 <= duration <= 0xffff_ffff,
            ;
            let scaled: u128 = ((entry.plan as u128) * (duration as u128) * months + 1039) / 1040;
            if scaled > u32::MAX as u128 {
                Some(u32::MAX)
            } else {
                Some(scaled as u32)
            }
        },
        None => None,
    }
}

} // verus!
