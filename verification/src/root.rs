//! What holds for the whole chart: its length, today, the developers and
//! their free time, the manager, and the labels.

use vstd::prelude::*;
use vstd::string::*;
use crate::chartdate::{parsed_date, ChartDate, DateError};
use crate::chartperiod::{greatest, least, parsed_period, ChartPeriod, PeriodError};
use crate::chartrow::{ChartRow, RowError};
use crate::charttime::{fields_valid, index_of, parsed_time, ChartTime, TimeError};
use crate::transfer::{fill_takes, lemma_transferable_in_same, transferable, transferable_in};
use crate::file::{groups_view, regex_captures, regex_groups, ConfigLines, Line, LineView};
use crate::text::{parse_unsigned, same_text, unsigned_in};

verus! {

/// A developer's free cells, the period over which the developer is there,
/// and how many quarters of work could not be given to the developer.
#[derive(Debug)]
pub struct DeveloperData {
    pub cells: ChartRow,
    pub period: ChartPeriod,
    pub unallocated: u32,
}

/// A developer by name.
#[derive(Debug)]
pub struct Developer {
    pub name: String,
    pub data: DeveloperData,
}

/// A text to show at a quarter of the chart.
#[derive(Debug)]
pub struct LabelData {
    pub when: u32,
    pub text: String,
}

/// Why a label could not be read.
#[derive(Debug, Clone, Copy, PartialEq, Eq, Structural)]
pub enum LabelError {
    /// The text is not `TIME: TEXT`.
    Syntax,
    /// What stands before the colon is no chart time.
    Time(TimeError),
}

/// Why a developer could not be added.
#[derive(Debug, Clone, Copy, PartialEq, Eq, Structural)]
pub enum DeveloperError {
    /// The chart already has a developer of that name.
    Redefined,
    /// The chart has more weeks than a `u32` can count quarters for.
    ChartTooLong,
    /// The developer's period reaches beyond the chart.
    Range(RowError),
}

/// Why the chart-wide settings of a plan file could not be read.
#[derive(Debug, Clone, Copy, PartialEq, Eq, Structural)]
pub enum ConfigError {
    /// The line to read is not the node `[global]` or `[devs]`.
    NotASection,
    /// The value of `weeks` is no number.
    Weeks,
    /// The value of `now` is no chart time.
    Now(TimeError),
    /// The value of `label` is no label.
    Label(LabelError),
    /// The value of `start-date` is no date.
    StartDate(DateError),
    /// `[global]` knows no attribute of that name.
    UnknownGlobal,
    /// What stands after a developer's name is no period.
    DeveloperPeriod(PeriodError),
    /// The developer cannot be added.
    Developer(DeveloperError),
    /// The manager is not among the developers.
    ManagerUnknown,
}

/// A developer as plain values. The period is its first and its last cell.
#[verifier::ext_equal]
pub struct DeveloperView {
    pub name: Seq<char>,
    pub cells: Seq<bool>,
    pub period: (int, int),
    pub unallocated: u32,
}

/// A label as plain values.
#[verifier::ext_equal]
pub struct LabelView {
    pub when: u32,
    pub text: Seq<char>,
}

/// The chart-wide settings as plain values. The start date is year, month
/// and day.
#[verifier::ext_equal]
pub struct RootView {
    pub weeks: u32,
    pub now: u32,
    pub start_date: (int, int, int),
    pub manager: Option<Seq<char>>,
    pub developers: Seq<DeveloperView>,
    pub labels: Seq<LabelView>,
}

impl View for Developer {
    type V = DeveloperView;

    open spec fn view(&self) -> DeveloperView {
        DeveloperView {
            name: self.name@,
            cells: self.data.cells@,
            period: self.data.period.ends(),
            unallocated: self.data.unallocated,
        }
    }
}

impl View for LabelData {
    type V = LabelView;

    open spec fn view(&self) -> LabelView {
        LabelView { when: self.when, text: self.text@ }
    }
}

impl View for RootConfigData {
    type V = RootView;

    open spec fn view(&self) -> RootView {
        RootView {
            weeks: self.weeks,
            now: self.now,
            start_date: (self.start_date.year(), self.start_date.month(), self.start_date.day()),
            manager: self.manager_name(),
            developers: Seq::new(self.developers@.len(), |i: int| self.developers@[i]@),
            labels: Seq::new(self.labels@.len(), |i: int| self.labels@[i]@),
        }
    }
}

/// Whether two charts are the same but for the free cells of developer
/// `index`, which are as many, and for the quarters that developer could not
/// be given.
pub open spec fn differs_at(before: &RootConfigData, after: &RootConfigData, index: int) -> bool {
    &&& after.weeks == before.weeks
    &&& after.now == before.now
    &&& after.start_date == before.start_date
    &&& after.manager == before.manager
    &&& after.labels == before.labels
    &&& after.developers@.len() == before.developers@.len()
    &&& forall|i: int|
        0 <= i < before.developers@.len() && i != index ==> after.developers@[i]
            == before.developers@[i]
    &&& 0 <= index < before.developers@.len() ==> {
        &&& after.developers@[index].name == before.developers@[index].name
        &&& after.developers@[index].data.period == before.developers@[index].data.period
        &&& after.developers@[index].data.cells@.len()
            == before.developers@[index].data.cells@.len()
    }
}

/// Whether the chart and a row changed as booking the manager's time has to
/// change them, and the call answered as it has to.
///
/// Without a manager nothing changes. A row shorter than the chart is
/// refused, and nothing changes. Else the cells that `management_takes` names
/// leave the manager's row and reach the row; and where the weeks ask for
/// more than the manager has free, the shortfall is reported.
pub open spec fn management_booked(
    before: &RootConfigData,
    after: &RootConfigData,
    row_before: Seq<bool>,
    row_after: Seq<bool>,
    r: Result<(), ManagementError>,
) -> bool {
    &&& row_after.len() == row_before.len()
    &&& match before.managing() {
        None => r is Ok && row_after == row_before && *after == *before,
        Some(m) => {
            let shortfall = management_shortfall(
                before.developers@,
                m,
                row_before,
                before.now as int,
                before.now as int / 20,
                before.weeks as int,
            );
            &&& differs_at(before, after, m)
            &&& after.developers@[m].data.unallocated == before.developers@[m].data.unallocated
            &&& if row_before.len() < before.quarters() {
                &&& r == Err::<(), ManagementError>(ManagementError::RowTooShort)
                &&& row_after == row_before
                &&& after.developers@[m].data.cells@ == before.developers@[m].data.cells@
            } else {
                &&& forall|c: int|
                    0 <= c < row_before.len() ==> row_after[c] == (row_before[c]
                        || management_takes(
                        before.developers@,
                        m,
                        row_before,
                        before.now as int,
                        before.quarters(),
                        c,
                    ))
                &&& forall|c: int|
                    0 <= c < before.developers@[m].data.cells@.len()
                        ==> after.developers@[m].data.cells@[c] == (
                    before.developers@[m].data.cells@[c] && !management_takes(
                        before.developers@,
                        m,
                        row_before,
                        before.now as int,
                        before.quarters(),
                        c,
                    ))
                &&& match r {
                    Ok(()) => shortfall == 0,
                    Err(e) => shortfall > 0 && e == (ManagementError::Unallocated {
                        quarters: shortfall as u64,
                    }),
                }
            }
        },
    }
}

/// A chart without weeks, developers, labels or manager, that starts on the
/// first day of 2001.
pub open spec fn new_root() -> RootView {
    RootView {
        weeks: 0,
        now: 0,
        start_date: (2001int, 1int, 1int),
        manager: None,
        developers: Seq::empty(),
        labels: Seq::empty(),
    }
}

/// Whether some developer has the given name.
pub open spec fn has_developer(developers: Seq<DeveloperView>, name: Seq<char>) -> bool {
    exists|i: int| 0 <= i < developers.len() && developers[i].name == name
}

/// The settings with one attribute of `[global]` taken in, or why it cannot be.
pub open spec fn with_global(v: RootView, key: Seq<char>, value: Seq<char>) -> Result<
    RootView,
    ConfigError,
> {
    if key == "weeks"@ {
        match unsigned_in(value) {
            Some(weeks) => Ok(RootView { weeks, ..v }),
            None => Err(ConfigError::Weeks),
        }
    } else if key == "now"@ {
        match parsed_time(value) {
            Ok((week, day, quarter)) => Ok(
                RootView { now: index_of(week, day, quarter) as u32, ..v },
            ),
            Err(e) => Err(ConfigError::Now(e)),
        }
    } else if key == "manager"@ {
        Ok(RootView { manager: Some(value), ..v })
    } else if key == "label"@ {
        match label_of_groups(regex_groups(LABEL_PATTERN@, value)) {
            Ok((when, text)) => Ok(
                RootView { labels: v.labels.push(LabelView { when: when as u32, text }), ..v },
            ),
            Err(e) => Err(ConfigError::Label(e)),
        }
    } else if key == "start-date"@ {
        match parsed_date(value) {
            Ok(date) => Ok(RootView { start_date: date, ..v }),
            Err(e) => Err(ConfigError::StartDate(e)),
        }
    } else {
        Err(ConfigError::UnknownGlobal)
    }
}

/// The settings with one line of `[devs]` taken in: a developer's name and
/// the period over which the developer is there, all of it free.
pub open spec fn with_developer(v: RootView, name: Seq<char>, value: Seq<char>) -> Result<
    RootView,
    ConfigError,
> {
    match parsed_period(value) {
        Err(e) => Err(ConfigError::DeveloperPeriod(e)),
        Ok((first, last)) => if has_developer(v.developers, name) {
            Err(ConfigError::Developer(DeveloperError::Redefined))
        } else if 20 * v.weeks > u32::MAX {
            Err(ConfigError::Developer(DeveloperError::ChartTooLong))
        } else if last >= 20 * v.weeks {
            Err(
                ConfigError::Developer(
                    DeveloperError::Range(
                        RowError::CellOutOfRange {
                            cell: if first >= 20 * v.weeks {
                                first as u32
                            } else {
                                (20 * v.weeks) as u32
                            },
                            width: (20 * v.weeks) as u32,
                        },
                    ),
                ),
            )
        } else {
            Ok(
                RootView {
                    developers: v.developers.push(
                        DeveloperView {
                            name,
                            cells: Seq::new((20 * v.weeks) as nat, |c: int| first <= c <= last),
                            period: (first, last),
                            unallocated: 0,
                        },
                    ),
                    ..v
                },
            )
        },
    }
}

/// Whether the settings name a manager who is neither a developer nor stands
/// for work given outside.
pub open spec fn manager_missing(v: RootView) -> bool {
    match v.manager {
        Some(m) => m != OUTSOURCE@ && !has_developer(v.developers, m),
        None => false,
    }
}

/// Reading the attribute lines from line `at` on, each taken in by `[global]`
/// (or by `[devs]`, where `devs` is set): the settings after the last line
/// read, the line at which reading stopped, and what went wrong, if anything.
/// An attribute that cannot be taken in stops the reading after it.
pub open spec fn read_attributes(v: RootView, lines: Seq<LineView>, at: int, devs: bool) -> (
    RootView,
    int,
    Option<ConfigError>,
)
    decreases lines.len() - at,
{
    if 0 <= at < lines.len() {
        match lines[at] {
            LineView::Attribute { key, value } => {
                let taken = if devs {
                    with_developer(v, key, value)
                } else {
                    with_global(v, key, value)
                };
                match taken {
                    Ok(next) => read_attributes(next, lines, at + 1, devs),
                    Err(e) => (v, at + 1, Some(e)),
                }
            },
            _ => (v, at, None),
        }
    } else {
        (v, at, None)
    }
}

/// Reading a section of chart-wide settings that starts at line `at`: the
/// node `[global]` or `[devs]`, then its attributes. After `[devs]` the
/// manager, if there is one, has to be a developer or stand for work given
/// outside.
pub open spec fn read_section(v: RootView, lines: Seq<LineView>, at: int) -> (
    RootView,
    int,
    Option<ConfigError>,
) {
    if 0 <= at < lines.len() {
        match lines[at] {
            LineView::Node { name, .. } => if name == "[global]"@ {
                read_attributes(v, lines, at + 1, false)
            } else if name == "[devs]"@ {
                let (after, stop, error) = read_attributes(v, lines, at + 1, true);
                if error is None && manager_missing(after) {
                    (after, stop, Some(ConfigError::ManagerUnknown))
                } else {
                    (after, stop, error)
                }
            } else {
                (v, at + 1, Some(ConfigError::NotASection))
            },
            _ => (v, at + 1, Some(ConfigError::NotASection)),
        }
    } else {
        (v, at, Some(ConfigError::NotASection))
    }
}

/// Reading a section that starts with a node reads at least that node.
pub proof fn lemma_read_section_advances(v: RootView, lines: Seq<LineView>, at: int)
    requires
        0 <= at < lines.len(),
    ensures
        read_section(v, lines, at).1 > at,
{
    lemma_read_attributes_advances(v, lines, at + 1, false);
    lemma_read_attributes_advances(v, lines, at + 1, true);
}

/// Reading a section does not go beyond the last line.
pub proof fn lemma_read_section_stops(v: RootView, lines: Seq<LineView>, at: int)
    requires
        0 <= at < lines.len(),
    ensures
        read_section(v, lines, at).1 <= lines.len(),
{
    lemma_read_attributes_advances(v, lines, at + 1, false);
    lemma_read_attributes_advances(v, lines, at + 1, true);
}

pub proof fn lemma_read_attributes_advances(v: RootView, lines: Seq<LineView>, at: int, devs: bool)
    ensures
        read_attributes(v, lines, at, devs).1 >= at,
        at <= lines.len() ==> read_attributes(v, lines, at, devs).1 <= lines.len(),
    decreases lines.len() - at,
{
    if 0 <= at < lines.len() {
        match lines[at] {
            LineView::Attribute { key, value } => {
                let taken = if devs {
                    with_developer(v, key, value)
                } else {
                    with_global(v, key, value)
                };
                match taken {
                    Ok(next) => {
                        lemma_read_attributes_advances(next, lines, at + 1, devs);
                    },
                    Err(e) => {},
                }
            },
            _ => {},
        }
    }
}

/// Why the manager's time could not be booked.
#[derive(Debug, Clone, Copy, PartialEq, Eq, Structural)]
pub enum ManagementError {
    /// The row to book into is shorter than the chart.
    RowTooShort,
    /// So many quarters of management found no free cell of the manager's.
    Unallocated { quarters: u64 },
}

/// What the left border of a week's column shows.
#[derive(Debug, Clone, Copy, PartialEq, Eq, Structural)]
pub enum BorderType {
    Plain,
    Start,
    Now,
    Label,
}

/// A chart time as group 1, the text after the colon and its white space as group 2.
pub const LABEL_PATTERN: &'static str = r"^(?:(?P<date>\d+(?:/\d){0,2}):\s*)(?P<text>.*)$";

/// The name that stands for work given outside: it counts as a developer,
/// but has no row of free cells.
pub const OUTSOURCE: &'static str = "outsource";

/// The label that the groups of the label pattern stand for: the quarter at
/// which its time starts, and its text.
pub open spec fn label_of_groups(groups: Option<Seq<Option<Seq<char>>>>) -> Result<
    (int, Seq<char>),
    LabelError,
> {
    match groups {
        Some(g) => if g.len() == 3 && g[1] is Some && g[2] is Some {
            match parsed_time(g[1]->0) {
                Ok((week, day, quarter)) => Ok((index_of(week, day, quarter), g[2]->0)),
                Err(e) => Err(LabelError::Time(e)),
            }
        } else {
            Err(LabelError::Syntax)
        },
        None => Err(LabelError::Syntax),
    }
}

/// The first label from index `from` on that stands at one of the quarters
/// `lo ..= hi`.
pub open spec fn label_in(labels: Seq<LabelData>, lo: int, hi: int, from: int) -> Option<int>
    decreases labels.len() - from,
{
    if from < 0 || from >= labels.len() {
        None
    } else if lo <= labels[from].when <= hi {
        Some(from)
    } else {
        label_in(labels, lo, hi, from + 1)
    }
}

/// The first developer from index `from` on with the given name.
pub open spec fn developer_named(developers: Seq<Developer>, name: Seq<char>, from: int) -> Option<
    int,
>
    decreases developers.len() - from,
{
    if from < 0 || from >= developers.len() {
        None
    } else if developers[from].name@ == name {
        Some(from)
    } else {
        developer_named(developers, name, from + 1)
    }
}

/// How many of the first `upto` developers, the manager left out, have cell
/// `q` free.
pub open spec fn managed_at(developers: Seq<Developer>, manager: Option<int>, q: int, upto: int) -> int
    decreases upto,
{
    if upto <= 0 {
        0
    } else {
        managed_at(developers, manager, q, upto - 1) + if manager != Some(upto - 1)
            && developers[upto - 1].data.cells.has(q) {
            1int
        } else {
            0int
        }
    }
}

/// Whether the manager is free at cell `q`; without a manager, nothing
/// stands in the way.
pub open spec fn manager_has(developers: Seq<Developer>, manager: Option<int>, q: int) -> bool {
    match manager {
        Some(m) => developers[m].data.cells.has(q),
        None => true,
    }
}

/// Whether the manager is free at each of the cells `lo .. hi`.
pub open spec fn manager_free_in(
    developers: Seq<Developer>,
    manager: Option<int>,
    lo: int,
    hi: int,
) -> bool
    decreases hi - lo,
{
    if hi <= lo {
        true
    } else {
        manager_free_in(developers, manager, lo, hi - 1) && manager_has(
            developers,
            manager,
            hi - 1,
        )
    }
}

/// The quarters of other developers' free time in `lo .. hi`.
pub open spec fn managed_quarters(
    developers: Seq<Developer>,
    manager: Option<int>,
    lo: int,
    hi: int,
) -> int
    decreases hi - lo,
{
    if hi <= lo {
        0
    } else {
        managed_quarters(developers, manager, lo, hi - 1) + managed_at(
            developers,
            manager,
            hi - 1,
            developers.len() as int,
        )
    }
}

/// How many quarters of the manager's time a week needs for the quarters
/// `lo .. hi` of it: a fifth of the quarters that the others have free,
/// rounded up, and no more than a `u32` holds; but nothing where the
/// manager is not free at one of them.
pub open spec fn week_demand(
    developers: Seq<Developer>,
    manager: Option<int>,
    lo: int,
    hi: int,
) -> int {
    let needed = (managed_quarters(developers, manager, lo, hi) + 4) / 5;
    if !manager_free_in(developers, manager, lo, hi) {
        0
    } else if needed > u32::MAX {
        u32::MAX as int
    } else {
        needed
    }
}

/// What week `w` asks of the manager, in a chart where today is `now`: the
/// demand of its quarters from today on.
pub open spec fn demand_of_week(
    developers: Seq<Developer>,
    manager: int,
    now: int,
    w: int,
) -> int {
    week_demand(developers, Some(manager), greatest(now, 20 * w), 20 * w + 20)
}

/// Whether booking the manager's time takes cell `c` from the manager: the
/// cell lies in the week of today or a later one, and a fill of that week's
/// demand from the week's first cell takes it.
pub open spec fn management_takes(
    developers: Seq<Developer>,
    manager: int,
    row: Seq<bool>,
    now: int,
    quarters: int,
    c: int,
) -> bool {
    now / 20 <= c / 20 && 0 <= c < quarters && fill_takes(
        developers[manager].data.cells@,
        row,
        demand_of_week(developers, manager, now, c / 20),
        20 * (c / 20),
        c,
    )
}

/// How many quarters of demand the weeks `from .. to` leave unmet: for each
/// week, what it asks beyond the cells of it that can move.
pub open spec fn management_shortfall(
    developers: Seq<Developer>,
    manager: int,
    row: Seq<bool>,
    now: int,
    from: int,
    to: int,
) -> int
    decreases to - from,
{
    if to <= from {
        0
    } else {
        let demand = demand_of_week(developers, manager, now, to - 1);
        let free = transferable_in(
            developers[manager].data.cells@,
            row,
            20 * (to - 1),
            20 * (to - 1) + 20,
        );
        management_shortfall(developers, manager, row, now, from, to - 1) + (demand - least(
            demand,
            free,
        ))
    }
}

/// The demand of some quarters is the same for two sets of developers whose
/// rows agree on those quarters.
pub proof fn lemma_demand_same(
    a: Seq<Developer>,
    b: Seq<Developer>,
    manager: Option<int>,
    lo: int,
    hi: int,
)
    requires
        a.len() == b.len(),
        manager matches Some(m) ==> 0 <= m < a.len(),
        forall|i: int, q: int|
            0 <= i < a.len() && lo <= q < hi ==> a[i].data.cells.has(q) == b[i].data.cells.has(q),
    ensures
        managed_quarters(a, manager, lo, hi) == managed_quarters(b, manager, lo, hi),
        manager_free_in(a, manager, lo, hi) == manager_free_in(b, manager, lo, hi),
        week_demand(a, manager, lo, hi) == week_demand(b, manager, lo, hi),
    decreases hi - lo,
{
    if hi > lo {
        lemma_demand_same(a, b, manager, lo, hi - 1);
        lemma_managed_at_same(a, b, manager, hi - 1, a.len() as int);
    }
}

pub proof fn lemma_managed_at_same(
    a: Seq<Developer>,
    b: Seq<Developer>,
    manager: Option<int>,
    q: int,
    upto: int,
)
    requires
        a.len() == b.len(),
        0 <= upto <= a.len(),
        forall|i: int| 0 <= i < a.len() ==> a[i].data.cells.has(q) == b[i].data.cells.has(q),
    ensures
        managed_at(a, manager, q, upto) == managed_at(b, manager, q, upto),
    decreases upto,
{
    if upto > 0 {
        lemma_managed_at_same(a, b, manager, q, upto - 1);
    }
}

/// A fill of week `w` takes the same cells from rows that agree on the
/// cells of that week, and none outside the week.
pub proof fn lemma_week_take_same(
    src: Seq<bool>,
    dst: Seq<bool>,
    src2: Seq<bool>,
    dst2: Seq<bool>,
    count: int,
    w: int,
    c: int,
)
    requires
        0 <= w,
        forall|x: int|
            20 * w <= x < 20 * w + 20 ==> transferable(src, dst, x) == transferable(src2, dst2, x),
    ensures
        (c <= 20 * w + 19 && fill_takes(src, dst, count, 20 * w, c)) == (c / 20 == w && fill_takes(
            src2,
            dst2,
            count,
            20 * w,
            c,
        )),
{
    if 20 * w <= c <= 20 * w + 19 {
        lemma_transferable_in_same_upto(src, dst, src2, dst2, 20 * w, c);
    }
}

proof fn lemma_transferable_in_same_upto(
    src: Seq<bool>,
    dst: Seq<bool>,
    src2: Seq<bool>,
    dst2: Seq<bool>,
    lo: int,
    hi: int,
)
    requires
        forall|x: int| lo <= x < lo
            + 20 ==> transferable(src, dst, x) == transferable(src2, dst2, x),
        hi < lo + 20,
    ensures
        transferable_in(src, dst, lo, hi) == transferable_in(src2, dst2, lo, hi),
{
    lemma_transferable_in_same(src, dst, src2, dst2, lo, hi);
}

/// A name is found among the developers exactly where one of them has it.
pub proof fn lemma_has_developer(developers: Seq<Developer>, name: Seq<char>)
    ensures
        developer_named(developers, name, 0) is Some <==> has_developer(
            Seq::new(developers.len(), |i: int| developers[i]@),
            name,
        ),
{
    let views = Seq::new(developers.len(), |i: int| developers[i]@);
    lemma_developer_named(developers, name, 0);
    match developer_named(developers, name, 0) {
        Some(i) => {
            assert(views[i].name == name);
        },
        None => {
            assert forall|i: int| 0 <= i < views.len() implies views[i].name != name by {
                assert(developers[i].name@ != name);
            }
        },
    }
}

pub proof fn lemma_managed_at_bounds(
    developers: Seq<Developer>,
    manager: Option<int>,
    q: int,
    upto: int,
)
    requires
        0 <= upto,
    ensures
        0 <= managed_at(developers, manager, q, upto) <= upto,
    decreases upto,
{
    if upto > 0 {
        lemma_managed_at_bounds(developers, manager, q, upto - 1);
    }
}

pub proof fn lemma_developer_named(developers: Seq<Developer>, name: Seq<char>, from: int)
    ensures
        match developer_named(developers, name, from) {
            Some(i) => 0 <= from <= i < developers.len() && developers[i].name@ == name
                && forall|j: int| from <= j < i ==> developers[j].name@ != name,
            None => forall|j: int|
                0 <= from <= j < developers.len() ==> developers[j].name@ != name,
        },
    decreases developers.len() - from,
{
    if 0 <= from < developers.len() && developers[from].name@ != name {
        lemma_developer_named(developers, name, from + 1);
    }
}

impl DeveloperData {
    /// A developer with exactly the cells of `period` free, in a chart of
    /// `cells` cells. A period that reaches beyond the chart is refused.
    pub fn new(cells: u32, period: &ChartPeriod) -> (r: Result<DeveloperData, RowError>)
        ensures
            match r {
                Ok(d) => {
                    &&& period.last() < cells
                    &&& d.cells@.len() == cells
                    &&& forall|c: int|
                        0 <= c < cells ==> #[trigger] d.cells@[c] == period.contains(c)
                    &&& d.period == *period
                    &&& d.unallocated == 0
                },
                Err(e) => period.last() >= cells && e == (RowError::CellOutOfRange {
                    cell: if period.first() >= cells {
                        period.first() as u32
                    } else {
                        cells
                    },
                    width: cells,
                }),
            },
    {
        let mut data = DeveloperData { cells: ChartRow::new(cells), period: *period, unallocated: 0 };
        match data.cells.set_range(period) {
            Ok(()) => Ok(data),
            Err(e) => Err(e),
        }
    }
}

impl LabelData {
    /// Makes the label that the groups of the label pattern stand for.
    pub fn from_groups(groups: Option<Vec<Option<String>>>) -> (r: Result<LabelData, LabelError>)
        ensures
            match r {
                Ok(l) => label_of_groups(groups_view(groups)) == Ok::<
                    (int, Seq<char>),
                    LabelError,
                >((l.when as int, l.text@)),
                Err(e) => label_of_groups(groups_view(groups)) == Err::<
                    (int, Seq<char>),
                    LabelError,
                >(e),
            },
    {
        match groups {
            Some(g) => {
                if g.len() != 3 {
                    return Err(LabelError::Syntax);
                }
                assert(groups_view(groups)->0[1] == match g@[1] {
                    Some(s) => Some(s@),
                    None => None,
                });
                assert(groups_view(groups)->0[2] == match g@[2] {
                    Some(s) => Some(s@),
                    None => None,
                });
                match (&g[1], &g[2]) {
                    (Some(date), Some(text)) => {
                        match ChartTime::from_str(date.as_str()) {
                            Ok(t) => Ok(LabelData { when: t.to_u32(), text: text.clone() }),
                            Err(e) => Err(LabelError::Time(e)),
                        }
                    },
                    _ => Err(LabelError::Syntax),
                }
            },
            None => Err(LabelError::Syntax),
        }
    }

    /// Reads `TIME: TEXT`.
    pub fn new(defn: &str) -> (r: Result<LabelData, LabelError>)
        ensures
            match r {
                Ok(l) => label_of_groups(regex_groups(LABEL_PATTERN@, defn@)) == Ok::<
                    (int, Seq<char>),
                    LabelError,
                >((l.when as int, l.text@)),
                Err(e) => label_of_groups(regex_groups(LABEL_PATTERN@, defn@)) == Err::<
                    (int, Seq<char>),
                    LabelError,
                >(e),
            },
    {
        LabelData::from_groups(regex_captures(LABEL_PATTERN, defn))
    }
}

/// The chart-wide settings.
#[derive(Debug)]
pub struct RootConfigData {
    pub weeks: u32,
    pub now: u32,
    pub start_date: ChartDate,
    pub manager: Option<String>,
    pub developers: Vec<Developer>,
    pub labels: Vec<LabelData>,
}

impl RootConfigData {
    /// How many quarters the chart has.
    pub open spec fn quarters(&self) -> int {
        20 * self.weeks
    }

    /// The chart has at least one week, no more quarters than a `u32` counts,
    /// and today lies in it.
    pub open spec fn chart_valid(&self) -> bool {
        self.now < self.quarters() <= u32::MAX
    }

    /// The index of the developer with the given name.
    pub open spec fn developer_index(&self, name: Seq<char>) -> Option<int> {
        developer_named(self.developers@, name, 0)
    }

    /// The manager's name, if the chart has one.
    pub open spec fn manager_name(&self) -> Option<Seq<char>> {
        match self.manager {
            Some(m) => Some(m@),
            None => None,
        }
    }

    /// A chart without weeks, developers, labels or manager, that starts on
    /// the first day of 2001.
    pub fn new() -> (r: RootConfigData)
        ensures
            r.weeks == 0,
            r.now == 0,
            (r.start_date.year(), r.start_date.month(), r.start_date.day()) == (
                2001int,
                1int,
                1int,
            ),
            r.manager is None,
            r.developers@.len() == 0,
            r.labels@.len() == 0,
            r@ == new_root(),
    {
        let r = RootConfigData::new_inner();
        assert(r@ =~= new_root());
        r
    }

    fn new_inner() -> (r: RootConfigData)
        ensures
            r.weeks == 0,
            r.now == 0,
            (r.start_date.year(), r.start_date.month(), r.start_date.day()) == (
                2001int,
                1int,
                1int,
            ),
            r.manager is None,
            r.developers@.len() == 0,
            r.labels@.len() == 0,
    {
        RootConfigData {
            weeks: 0,
            now: 0,
            start_date: ChartDate::new(),
            manager: None,
            labels: Vec::new(),
            developers: Vec::new(),
        }
    }

    /// Whether the chart can be scheduled: see `chart_valid`.
    pub fn is_chart_valid(&self) -> (r: bool)
        ensures
            r == self.chart_valid(),
    {
        self.weeks <= u32::MAX / 20 && self.now / 20 < self.weeks
    }

    /// Reads a label, `TIME: TEXT`, and adds it after the others.
    pub fn add_label(&mut self, defn: &str) -> (r: Result<(), LabelError>)
        ensures
            final(self).weeks == old(self).weeks,
            final(self).now == old(self).now,
            final(self).start_date == old(self).start_date,
            final(self).manager == old(self).manager,
            final(self).developers == old(self).developers,
            match label_of_groups(regex_groups(LABEL_PATTERN@, defn@)) {
                Ok((when, text)) => r is Ok && final(self).labels@.len() == old(self).labels@.len()
                    + 1
                        && final(self).labels@.drop_last() == old(self).labels@
                        && final(self).labels@.last().when == when
                        && final(self).labels@.last().text@ == text,
                Err(e) => r == Err::<(), LabelError>(e) && final(self).labels == old(self).labels,
            },
    {
        match LabelData::new(defn) {
            Ok(label) => {
                self.labels.push(label);
                assert(self.labels@.drop_last() =~= old(self).labels@);
                Ok(())
            },
            Err(e) => Err(e),
        }
    }

    /// The text of the first label that stands within the span of `when`.
    pub fn get_label(&self, when: &ChartTime) -> (r: Option<String>)
        ensures
            match label_in(self.labels@, when.index(), when.end_index(), 0) {
                Some(i) => r matches Some(t) && t@ == self.labels@[i].text@,
                None => r is None,
            },
    {
        let lo = when.to_u32();
        let hi = when.end_as_u32();
        let mut i: usize = 0;
        while i < self.labels.len()
            invariant
                i <= self.labels@.len(),
                lo == when.index(),
                hi == when.end_index(),
                label_in(self.labels@, lo as int, hi as int, 0) == label_in(
                    self.labels@,
                    lo as int,
                    hi as int,
                    i as int,
                ),
            decreases self.labels@.len() - i,
        {
            if self.labels[i].when >= lo && self.labels[i].when <= hi {
                return Some(self.labels[i].text.clone());
            }
            i = i + 1;
        }
        None
    }

    pub fn get_weeks(&self) -> (r: u32)
        ensures
            r == self.weeks,
    {
        self.weeks
    }

    pub fn set_weeks(&mut self, weeks: u32)
        ensures
            *final(self) == (RootConfigData { weeks, ..*old(self) }),
    {
        self.weeks = weeks;
    }

    pub fn get_start_date(&self) -> (r: ChartDate)
        ensures
            r == self.start_date,
    {
        self.start_date
    }

    pub fn set_start_date(&mut self, start_date: &ChartDate)
        ensures
            *final(self) == (RootConfigData { start_date: *start_date, ..*old(self) }),
    {
        self.start_date = *start_date;
    }

    pub fn get_manager(&self) -> (r: Option<String>)
        ensures
            r == self.manager,
    {
        match &self.manager {
            Some(m) => Some(m.clone()),
            None => None,
        }
    }

    pub fn set_manager(&mut self, manager: &str)
        ensures
            final(self).manager_name() == Some(manager@),
            final(self).weeks == old(self).weeks,
            final(self).now == old(self).now,
            final(self).start_date == old(self).start_date,
            final(self).developers == old(self).developers,
            final(self).labels == old(self).labels,
    {
        self.manager = Some(String::from_str(manager));
    }

    pub fn get_now(&self) -> (r: u32)
        ensures
            r == self.now,
    {
        self.now
    }

    pub fn set_now(&mut self, now: u32)
        ensures
            *final(self) == (RootConfigData { now, ..*old(self) }),
    {
        self.now = now;
    }

    /// The week in which today lies, counted from 1.
    pub fn get_now_week(&self) -> (r: u32)
        ensures
            r == 1 + self.now / 20,
    {
        1 + self.now / 20
    }

    /// Whether a cell lies in the chart.
    pub fn is_valid_cell(&self, cell: u32) -> (r: bool)
        ensures
            r == (cell < self.quarters()),
    {
        (cell as u64) < 20 * (self.weeks as u64)
    }

    /// Where the developer with the given name stands among the developers.
    pub fn find_developer(&self, name: &str) -> (r: Option<usize>)
        ensures
            match r {
                Some(i) => self.developer_index(name@) == Some(i as int) && i
                    < self.developers@.len(),
                None => self.developer_index(name@) is None,
            },
    {
        let mut i: usize = 0;
        while i < self.developers.len()
            invariant
                i <= self.developers@.len(),
                developer_named(self.developers@, name@, 0) == developer_named(
                    self.developers@,
                    name@,
                    i as int,
                ),
            decreases self.developers@.len() - i,
        {
            if same_text(self.developers[i].name.as_str(), name) {
                return Some(i);
            }
            i = i + 1;
        }
        None
    }

    /// Whether work can be given to the name: it is a developer of the chart,
    /// or stands for work given outside.
    pub fn is_valid_developer(&self, name: &str) -> (r: bool)
        ensures
            r == (name@ == OUTSOURCE@ || self.developer_index(name@) is Some),
    {
        same_text(name, OUTSOURCE) || self.find_developer(name).is_some()
    }

    /// The period over which a developer is there.
    pub fn get_dev_period(&self, name: &str) -> (r: Option<ChartPeriod>)
        ensures
            match self.developer_index(name@) {
                Some(i) => r == Some(self.developers@[i].data.period),
                None => r is None,
            },
    {
        match self.find_developer(name) {
            Some(i) => Some(self.developers[i].data.period),
            None => None,
        }
    }

    /// The label of a week's column: `Now` for the week of today, else the
    /// first label that stands in the week.
    pub open spec fn week_label(&self, week: u32) -> Option<Seq<char>> {
        if week == 1 + self.now / 20 {
            Some("Now"@)
        } else if fields_valid(week as int, None, None) {
            match label_in(self.labels@, (week - 1) * 20, (week - 1) * 20 + 19, 0) {
                Some(i) => Some(self.labels@[i].text@),
                None => None,
            }
        } else {
            None
        }
    }

    /// What the left border of a week's column shows: today, else the start
    /// of the chart, else a label that has a text.
    pub open spec fn week_border(&self, week: u32) -> BorderType {
        if week == 1 + self.now / 20 {
            BorderType::Now
        } else if week == 1 {
            BorderType::Start
        } else if self.week_label(week) is Some && self.week_label(week)->0.len() != 0 {
            BorderType::Label
        } else {
            BorderType::Plain
        }
    }

    pub fn weekly_label(&self, week: u32) -> (r: Option<String>)
        ensures
            match r {
                Some(t) => self.week_label(week) == Some(t@),
                None => self.week_label(week) is None,
            },
    {
        if week == self.get_now_week() {
            Some(String::from_str("Now"))
        } else {
            match ChartTime::from_week(week) {
                Some(t) => self.get_label(&t),
                None => None,
            }
        }
    }

    pub fn weekly_left_border(&self, week: u32) -> (r: BorderType)
        ensures
            r == self.week_border(week),
    {
        if week == self.get_now_week() {
            BorderType::Now
        } else if week == 1 {
            BorderType::Start
        } else {
            match self.weekly_label(week) {
                Some(t) => if t.as_str().is_empty() {
                    BorderType::Plain
                } else {
                    BorderType::Label
                },
                None => BorderType::Plain,
            }
        }
    }

    /// The whole chart as a period.
    pub fn chart_period(&self) -> (r: ChartPeriod)
        requires
            self.chart_valid(),
        ensures
            r.ends() == (0int, self.quarters() - 1),
            r.valid(),
    {
        match ChartPeriod::new(0, self.weeks * 20 - 1) {
            Ok(p) => p,
            Err(_) => vstd::pervasive::unreached(),
        }
    }

    /// The cells from which work of `dev` can draw: where `dev` is a developer
    /// of the chart, the part of the developer's period that lies in the
    /// chart; else the whole chart.
    pub open spec fn resource_ends(&self, dev: Option<Seq<char>>) -> Option<(int, int)> {
        match dev {
            Some(d) => match self.developer_index(d) {
                Some(i) => {
                    let p = self.developers@[i].data.period;
                    if p.first() <= self.quarters() - 1 {
                        Some((p.first(), least(p.last(), self.quarters() - 1)))
                    } else {
                        None
                    }
                },
                None => Some((0int, self.quarters() - 1)),
            },
            None => Some((0int, self.quarters() - 1)),
        }
    }

    /// Over how many quarters work of `dev` can be spread: the length of
    /// `resource_ends`, 0 where there is none.
    pub open spec fn duration_of(&self, dev: Option<Seq<char>>) -> int {
        match self.resource_ends(dev) {
            Some((first, last)) => last - first + 1,
            None => 0int,
        }
    }

    /// See `resource_ends`.
    pub fn resource_period(&self, dev: &Option<String>) -> (r: Option<ChartPeriod>)
        requires
            self.chart_valid(),
        ensures
            crate::chartperiod::ends_of(r) == self.resource_ends(
                match *dev {
                    Some(d) => Some(d@),
                    None => None,
                },
            ),
            r matches Some(p) ==> p.valid(),
    {
        let chart = self.chart_period();
        match dev {
            Some(d) => match self.get_dev_period(d.as_str()) {
                Some(p) => {
                    proof {
                        p.lemma_wf();
                        use_type_invariant(&p);
                    }
                    p.intersect(&chart)
                },
                None => Some(chart),
            },
            None => Some(chart),
        }
    }

    /// See `duration_of`.
    pub fn get_plan_dev_duration(&self, dev: &Option<String>) -> (r: u32)
        requires
            self.chart_valid(),
        ensures
            r == self.duration_of(
                match *dev {
                    Some(d) => Some(d@),
                    None => None,
                },
            ),
    {
        match self.resource_period(dev) {
            Some(p) => p.length(),
            None => 0,
        }
    }

    /// Records that `failed` quarters of work found no free cell of a
    /// developer's. The count stops at the largest `u32`.
    pub fn record_unallocated(&mut self, index: usize, failed: u32)
        requires
            index < old(self).developers@.len(),
        ensures
            final(self).weeks == old(self).weeks,
            final(self).now == old(self).now,
            final(self).start_date == old(self).start_date,
            final(self).manager == old(self).manager,
            final(self).labels == old(self).labels,
            final(self).developers@.len() == old(self).developers@.len(),
            forall|i: int|
                0 <= i < old(self).developers@.len() && i != index ==> final(self).developers@[i]
                    == old(self).developers@[i],
            final(self).developers@[index as int].name == old(self).developers@[index as int].name,
            final(self).developers@[index as int].data.cells == old(self).developers@[index as int].data.cells,
            final(self).developers@[index as int].data.period == old(self).developers@[index as int].data.period,
            final(self).developers@[index as int].data.unallocated == least(
                old(self).developers@[index as int].data.unallocated + failed,
                u32::MAX as int,
            ),
    {
        let dev = &mut self.developers[index];
        if dev.data.unallocated > u32::MAX - failed {
            dev.data.unallocated = u32::MAX;
        } else {
            dev.data.unallocated = dev.data.unallocated + failed;
        }
    }

    /// Takes in one attribute of `[global]`.
    pub fn add_global(&mut self, key: &str, value: &str) -> (r: Result<(), ConfigError>)
        ensures
            match with_global(old(self)@, key@, value@) {
                Ok(v) => r is Ok && final(self)@ == v,
                Err(e) => r == Err::<(), ConfigError>(e) && final(self)@ == old(self)@,
            },
    {
        if same_text(key, "weeks") {
            match parse_unsigned(value) {
                Some(weeks) => {
                    self.set_weeks(weeks);
                    assert(self@ =~= (RootView { weeks, ..old(self)@ }));
                    Ok(())
                },
                None => Err(ConfigError::Weeks),
            }
        } else if same_text(key, "now") {
            match ChartTime::from_str(value) {
                Ok(t) => {
                    self.set_now(t.to_u32());
                    assert(self@ =~= (RootView { now: t.index() as u32, ..old(self)@ }));
                    Ok(())
                },
                Err(e) => Err(ConfigError::Now(e)),
            }
        } else if same_text(key, "manager") {
            self.set_manager(value);
            assert(self@ =~= (RootView { manager: Some(value@), ..old(self)@ }));
            Ok(())
        } else if same_text(key, "label") {
            match self.add_label(value) {
                Ok(()) => {
                    proof {
                        let (when, text) = label_of_groups(
                            regex_groups(LABEL_PATTERN@, value@),
                        )->Ok_0;
                        let label = LabelView { when: when as u32, text };
                        assert(self.labels@.drop_last() == old(self).labels@);
                        assert(self@.labels =~= old(self)@.labels.push(label)) by {
                            assert forall|i: int| 0 <= i < old(self).labels@.len() implies self@.labels[i]
                                == old(self)@.labels[i] by {
                                assert(self.labels@[i] == self.labels@.drop_last()[i]);
                            }
                            assert(self@.labels[self.labels@.len() - 1] =~= label);
                        }
                        assert(self@ =~= (RootView {
                            labels: old(self)@.labels.push(label),
                            ..old(self)@
                        }));
                    }
                    Ok(())
                },
                Err(e) => Err(ConfigError::Label(e)),
            }
        } else if same_text(key, "start-date") {
            match ChartDate::from_str(value) {
                Ok(date) => {
                    self.set_start_date(&date);
                    assert(self@ =~= (RootView {
                        start_date: (date.year(), date.month(), date.day()),
                        ..old(self)@
                    }));
                    Ok(())
                },
                Err(e) => Err(ConfigError::StartDate(e)),
            }
        } else {
            Err(ConfigError::UnknownGlobal)
        }
    }

    /// Takes in one line of `[devs]`: a developer's name and period.
    pub fn add_developer_line(&mut self, name: &str, value: &str) -> (r: Result<(), ConfigError>)
        ensures
            match with_developer(old(self)@, name@, value@) {
                Ok(v) => r is Ok && final(self)@ == v,
                Err(e) => r == Err::<(), ConfigError>(e) && final(self)@ == old(self)@,
            },
    {
        let period = match ChartPeriod::from_str(value) {
            Ok(p) => p,
            Err(e) => { return Err(ConfigError::DeveloperPeriod(e)); },
        };
        proof {
            lemma_has_developer(self.developers@, name@);
        }
        match self.add_developer(name, &period) {
            Ok(()) => {
                proof {
                    let (first, last) = period.ends();
                    let added = DeveloperView {
                        name: name@,
                        cells: Seq::new(
                            (20 * old(self).weeks) as nat,
                            |c: int| first <= c <= last,
                        ),
                        period: (first, last),
                        unallocated: 0,
                    };
                    assert(self.developers@.drop_last() == old(self).developers@);
                    assert(self@.developers =~= old(self)@.developers.push(added)) by {
                        assert forall|i: int|
                            0 <= i < old(self).developers@.len() implies self@.developers[i] == old(self)@.developers[i] by {
                            assert(self.developers@[i] == self.developers@.drop_last()[i]);
                        }
                        let cells = self.developers@.last().data.cells@;
                        assert(cells.len() == added.cells.len());
                        assert forall|c: int| 0 <= c < cells.len() implies cells[c]
                            == added.cells[c] by {
                            assert(cells[c] == period.contains(c));
                        }
                        assert(cells =~= added.cells);
                        assert(self@.developers[self.developers@.len() - 1] =~= added);
                    }
                    assert(self@ =~= (RootView {
                        developers: old(self)@.developers.push(added),
                        ..old(self)@
                    }));
                }
                Ok(())
            },
            Err(e) => {
                assert(self@ =~= old(self)@);
                Err(ConfigError::Developer(e))
            },
        }
    }

    /// Reads the attribute lines that come next, as lines of `[global]` or,
    /// where `devs` is set, of `[devs]`.
    fn read_attribute_lines(&mut self, config: &mut ConfigLines, devs: bool) -> (r: Result<
        (),
        ConfigError,
    >)
        ensures
            final(config).lines() == old(config).lines(),
            final(self)@ == read_attributes(
                old(self)@,
                old(config).lines(),
                old(config).position() as int,
                devs,
            ).0,
            final(config).position() == read_attributes(
                old(self)@,
                old(config).lines(),
                old(config).position() as int,
                devs,
            ).1,
            match read_attributes(
                old(self)@,
                old(config).lines(),
                old(config).position() as int,
                devs,
            ).2 {
                None => r is Ok,
                Some(e) => r == Err::<(), ConfigError>(e),
            },
    {
        loop
            invariant
                config.lines() == old(config).lines(),
                read_attributes(
                    old(self)@,
                    old(config).lines(),
                    old(config).position() as int,
                    devs,
                ) == read_attributes(self@, config.lines(), config.position() as int, devs),
            decreases config.remaining().len(),
        {
            match config.peek_line() {
                Some(Line::Attribute(a)) => {
                    let _ = config.get_line();
                    let taken = if devs {
                        self.add_developer_line(a.key.as_str(), a.value.as_str())
                    } else {
                        self.add_global(a.key.as_str(), a.value.as_str())
                    };
                    match taken {
                        Ok(()) => {},
                        Err(e) => {
                            return Err(e);
                        },
                    }
                },
                _ => {
                    return Ok(());
                },
            }
        }
    }

    /// Reads `[global]` or `[devs]` and the attributes below it.
    pub fn read_config(&mut self, config: &mut ConfigLines) -> (r: Result<(), ConfigError>)
        ensures
            final(config).lines() == old(config).lines(),
            final(self)@ == read_section(
                old(self)@,
                old(config).lines(),
                old(config).position() as int,
            ).0,
            final(config).position() == read_section(
                old(self)@,
                old(config).lines(),
                old(config).position() as int,
            ).1,
            match read_section(old(self)@, old(config).lines(), old(config).position() as int).2 {
                None => r is Ok,
                Some(e) => r == Err::<(), ConfigError>(e),
            },
    {
        match config.get_line() {
            Some(Line::Node(n)) => {
                if same_text(n.name.as_str(), "[global]") {
                    self.read_attribute_lines(config, false)
                } else if same_text(n.name.as_str(), "[devs]") {
                    match self.read_attribute_lines(config, true) {
                        Ok(()) => {
                            proof {
                                if self.manager is Some {
                                    lemma_has_developer(self.developers@, self.manager->0@);
                                }
                            }
                            let known = match &self.manager {
                                Some(m) => self.is_valid_developer(m.as_str()),
                                None => true,
                            };
                            if known {
                                Ok(())
                            } else {
                                Err(ConfigError::ManagerUnknown)
                            }
                        },
                        Err(e) => Err(e),
                    }
                } else {
                    Err(ConfigError::NotASection)
                }
            },
            _ => Err(ConfigError::NotASection),
        }
    }

    /// The index of the developer who is the manager; none where no manager
    /// is named or no developer bears the manager's name.
    pub open spec fn managing(&self) -> Option<int> {
        match self.manager {
            Some(m) => self.developer_index(m@),
            None => None,
        }
    }

    /// Where the manager stands among the developers.
    pub fn manager_index(&self) -> (r: Option<usize>)
        ensures
            match r {
                Some(i) => self.managing() == Some(i as int) && i < self.developers@.len(),
                None => self.managing() is None,
            },
    {
        match &self.manager {
            Some(m) => self.find_developer(m.as_str()),
            None => None,
        }
    }

    /// How many developers other than the manager have cell `q` free.
    fn count_managed(&self, manager: usize, q: u32) -> (r: usize)
        ensures
            r == managed_at(
                self.developers@,
                Some(manager as int),
                q as int,
                self.developers@.len() as int,
            ),
    {
        let mut count: usize = 0;
        let mut i: usize = 0;
        while i < self.developers.len()
            invariant
                i <= self.developers@.len(),
                count <= i,
                count == managed_at(self.developers@, Some(manager as int), q as int, i as int),
            decreases self.developers@.len() - i,
        {
            if i != manager && self.developers[i].data.cells.is_set(q) {
                count = count + 1;
            }
            i = i + 1;
        }
        count
    }

    /// What the quarters `lo .. hi` ask of the manager.
    fn demand_for(&self, manager: usize, lo: u32, hi: u32) -> (r: u32)
        requires
            manager < self.developers@.len(),
            lo <= hi,
            hi - lo <= 20,
        ensures
            r == week_demand(self.developers@, Some(manager as int), lo as int, hi as int),
    {
        let n: usize = self.developers.len();
        let mut sum: u128 = 0;
        let mut free: bool = true;
        let mut q: u32 = lo;
        while q < hi
            invariant
                manager < self.developers@.len(),
                n == self.developers@.len(),
                lo <= q <= hi,
                hi - lo <= 20,
                free == manager_free_in(
                    self.developers@,
                    Some(manager as int),
                    lo as int,
                    q as int,
                ),
                sum == managed_quarters(
                    self.developers@,
                    Some(manager as int),
                    lo as int,
                    q as int,
                ),
                sum <= (q - lo) * self.developers@.len(),
            decreases hi - q,
        {
            proof {
                lemma_managed_at_bounds(
                    self.developers@,
                    Some(manager as int),
                    q as int,
                    self.developers@.len() as int,
                );
                assert((q + 1 - lo) * self.developers@.len() == (q - lo) * self.developers@.len()
                    + self.developers@.len()) by (nonlinear_arith);
                assert((q - lo) * self.developers@.len() <= 20 * self.developers@.len())
                    by (nonlinear_arith)
                    requires
                        0 <= q - lo <= 20,
                ;
            }
            if !self.developers[manager].data.cells.is_set(q) {
                free = false;
            }
            sum = sum + self.count_managed(manager, q) as u128;
            q = q + 1;
        }
        proof {
            assert((hi - lo) * self.developers@.len() <= 20 * self.developers@.len())
                by (nonlinear_arith)
                requires
                    0 <= hi - lo <= 20,
            ;
        }
        let needed: u128 = (sum + 4) / 5;
        if !free {
            0
        } else if needed > u32::MAX as u128 {
            u32::MAX
        } else {
            needed as u32
        }
    }

    /// Books the manager's time for managing the others: for the week of
    /// today and each later week of the chart, a fifth of a quarter for each
    /// quarter that another developer has free, rounded up to whole quarters,
    /// and taken from the lowest free cells of the manager in that week. Only
    /// the quarters from today on count towards what a week asks, and a week
    /// asks nothing where the manager is not free at one of them.
    ///
    /// Without a manager nothing is booked. A row shorter than the chart is
    /// refused before anything is booked. What the weeks ask beyond the
    /// manager's free cells is reported, after all that could be booked was.
    pub fn transfer_management_resource(&mut self, row: &mut ChartRow) -> (r: Result<
        (),
        ManagementError,
    >)
        requires
            old(self).chart_valid(),
        ensures
            management_booked(old(self), final(self), old(row)@, final(row)@, r),
    {
        let m = match self.manager_index() {
            Some(m) => m,
            None => {
                return Ok(());
            },
        };
        let quarters: u32 = self.weeks * 20;
        if row.get_num_cells() < quarters {
            return Err(ManagementError::RowTooShort);
        }
        let ghost devs0 = self.developers@;
        let ghost row0 = row@;
        let ghost mgr0 = self.developers@[m as int].data.cells@;
        let now = self.now;
        let weeks = self.weeks;
        let mut failures: u64 = 0;
        let mut w: u32 = now / 20;
        while w < weeks
            invariant
                devs0 == old(self).developers@,
                row0 == old(row)@,
                mgr0 == devs0[m as int].data.cells@,
                m < devs0.len(),
                now == old(self).now,
                weeks == old(self).weeks,
                quarters == 20 * weeks,
                now < quarters,
                self.weeks == old(self).weeks,
                self.now == old(self).now,
                self.start_date == old(self).start_date,
                self.manager == old(self).manager,
                self.labels == old(self).labels,
                self.developers@.len() == devs0.len(),
                forall|i: int|
                    0 <= i < devs0.len() && i != m ==> self.developers@[i] == devs0[i],
                self.developers@[m as int].name == devs0[m as int].name,
                self.developers@[m as int].data.period == devs0[m as int].data.period,
                self.developers@[m as int].data.unallocated == devs0[m as int].data.unallocated,
                self.developers@[m as int].data.cells@.len() == mgr0.len(),
                row@.len() == row0.len(),
                row0.len() >= quarters,
                now / 20 <= w <= weeks,
                forall|c: int|
                    0 <= c < mgr0.len() ==> self.developers@[m as int].data.cells@[c] == (mgr0[c]
                        && !(c / 20 < w && management_takes(
                        devs0,
                        m as int,
                        row0,
                        now as int,
                        quarters as int,
                        c,
                    ))),
                forall|c: int|
                    0 <= c < row0.len() ==> row@[c] == (row0[c] || (c / 20 < w
                        && management_takes(
                        devs0,
                        m as int,
                        row0,
                        now as int,
                        quarters as int,
                        c,
                    ))),
                failures == management_shortfall(
                    devs0,
                    m as int,
                    row0,
                    now as int,
                    now as int / 20,
                    w as int,
                ),
                failures <= (w - now / 20) * 0xffff_ffff,
            decreases weeks - w,
        {
            let first: u32 = w * 20;
            let last: u32 = first + 19;
            let lo: u32 = if now > first {
                now
            } else {
                first
            };
            let ghost devs_now = self.developers@;
            let ghost mgr_now = self.developers@[m as int].data.cells@;
            let ghost row_now = row@;
            let demand = self.demand_for(m, lo, first + 20);
            proof {
                assert forall|i: int, q: int|
                    0 <= i < devs0.len() && lo <= q < first + 20 implies devs_now[i].data.cells.has(
                    q,
                ) == devs0[i].data.cells.has(q) by {
                    if i == m {
                        assert(q / 20 == w);
                    }
                }
                lemma_demand_same(devs_now, devs0, Some(m as int), lo as int, first + 20);
                assert(demand == demand_of_week(devs0, m as int, now as int, w as int));
                assert forall|c: int| first <= c < first + 20 implies crate::transfer::transferable(
                    mgr_now,
                    row_now,
                    c,
                ) == crate::transfer::transferable(mgr0, row0, c) by {
                    assert(c / 20 == w);
                }
            }
            let period = match ChartPeriod::new(first, last) {
                Ok(p) => p,
                Err(_) => { return Err(ManagementError::RowTooShort); },
            };
            let result = self.developers[m].data.cells.fill_transfer_to(row, demand, &period);
            let t = match result {
                Ok(t) => t,
                Err(_) => { return Err(ManagementError::RowTooShort); },
            };
            proof {
                lemma_transferable_in_same(mgr_now, row_now, mgr0, row0, first as int, first + 20);
                assert forall|c: int| 0 <= c < row0.len() implies row@[c] == (row0[c] || (c / 20 < w
                    + 1 && management_takes(
                    devs0,
                    m as int,
                    row0,
                    now as int,
                    quarters as int,
                    c,
                ))) by {
                    lemma_week_take_same(mgr_now, row_now, mgr0, row0, demand as int, w as int, c);
                }
                assert forall|c: int|
                    0 <= c < mgr0.len() implies self.developers@[m as int].data.cells@[c] == (
                mgr0[c] && !(c / 20 < w + 1 && management_takes(
                    devs0,
                    m as int,
                    row0,
                    now as int,
                    quarters as int,
                    c,
                ))) by {
                    lemma_week_take_same(mgr_now, row_now, mgr0, row0, demand as int, w as int, c);
                }
                assert((w + 1 - now / 20) * 0xffff_ffff == (w - now / 20) * 0xffff_ffff
                    + 0xffff_ffff) by (nonlinear_arith);
                assert((w + 1 - now / 20) * 0xffff_ffff <= 0xffff_ffff * 0xffff_ffff)
                    by (nonlinear_arith)
                    requires
                        0 <= w + 1 - now / 20 <= 0xffff_ffff,
                ;
            }
            failures = failures + t.failed as u64;
            w = w + 1;
        }
        if failures != 0 {
            Err(ManagementError::Unallocated { quarters: failures })
        } else {
            Ok(())
        }
    }

    /// The free cells of a developer, to be changed in place.
    pub fn get_dev_cells(&mut self, name: &str) -> (r: Option<&mut ChartRow>)
        ensures
            match old(self).developer_index(name@) {
                Some(i) => {
                    &&& r matches Some(row)
                    &&& *r->0 == old(self).developers@[i].data.cells
                    &&& final(self).developers@[i].data.cells == *final(r->0)
                    &&& final(self).developers@[i].data.unallocated == old(self).developers@[i].data.unallocated
                    &&& final(self).developers@[i].name == old(self).developers@[i].name
                    &&& final(self).developers@[i].data.period == old(self).developers@[i].data.period
                    &&& final(self).developers@.len() == old(self).developers@.len()
                    &&& forall|j: int|
                        0 <= j < old(self).developers@.len()
                            && j != i ==> final(self).developers@[j] == old(self).developers@[j]
                    &&& final(self).weeks == old(self).weeks
                    &&& final(self).now == old(self).now
                    &&& final(self).start_date == old(self).start_date
                    &&& final(self).manager == old(self).manager
                    &&& final(self).labels == old(self).labels
                },
                None => r is None && *final(self) == *old(self),
            },
    {
        match self.find_developer(name) {
            Some(i) => Some(&mut self.developers[i].data.cells),
            None => None,
        }
    }

    /// Adds a developer who is there over `period`, with all of that time free.
    pub fn add_developer(&mut self, name: &str, period: &ChartPeriod) -> (r: Result<
        (),
        DeveloperError,
    >)
        ensures
            final(self).weeks == old(self).weeks,
            final(self).now == old(self).now,
            final(self).start_date == old(self).start_date,
            final(self).manager == old(self).manager,
            final(self).labels == old(self).labels,
            match r {
                Ok(()) => {
                    &&& old(self).developer_index(name@) is None
                    &&& period.last() < old(self).quarters() <= u32::MAX
                    &&& final(self).developers@.len() == old(self).developers@.len() + 1
                    &&& final(self).developers@.drop_last() == old(self).developers@
                    &&& final(self).developers@.last().name@ == name@
                    &&& final(self).developers@.last().data.period == *period
                    &&& final(self).developers@.last().data.unallocated == 0
                    &&& final(self).developers@.last().data.cells@.len() == old(self).quarters()
                    &&& forall|c: int|
                        0 <= c < old(self).quarters() ==> #[trigger] final(self).developers@.last().data.cells@[c] == period.contains(c)
                },
                Err(e) => {
                    &&& final(self).developers == old(self).developers
                    &&& match e {
                        DeveloperError::Redefined => old(self).developer_index(name@) is Some,
                        DeveloperError::ChartTooLong => old(self).developer_index(name@) is None
                            && old(self).quarters() > u32::MAX,
                        DeveloperError::Range(row) => old(self).developer_index(name@) is None
                            && old(self).quarters() <= u32::MAX
                                && period.last() >= old(self).quarters()
                                && row == (RowError::CellOutOfRange {
                            cell: if period.first() >= old(self).quarters() {
                                period.first() as u32
                            } else {
                                old(self).quarters() as u32
                            },
                            width: old(self).quarters() as u32,
                        }),
                    }
                },
            },
    {
        if self.find_developer(name).is_some() {
            return Err(DeveloperError::Redefined);
        }
        if self.weeks > u32::MAX / 20 {
            return Err(DeveloperError::ChartTooLong);
        }
        match DeveloperData::new(self.weeks * 20, period) {
            Ok(data) => {
                self.developers.push(Developer { name: String::from_str(name), data });
                assert(self.developers@.drop_last() =~= old(self).developers@);
                Ok(())
            },
            Err(e) => Err(DeveloperError::Range(e)),
        }
    }
}

} // verus!
