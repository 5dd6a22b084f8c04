//! The chart as the page shows it: one row for each developer and for each
//! task, with a cell for each week.

use vstd::prelude::*;
use vstd::string::*;
use crate::chartperiod::ChartPeriod;
use crate::chartrow::count_in;
use crate::data::{capped, ceil_div, shared, text_of, NodeConfigData, ResourcingStrategy};
use crate::messages::{big_string, big_text, days_string, days_text};
use crate::nodes::ConfigTree;
use crate::root::{BorderType, RootConfigData};
use crate::text::{decimal_string, decimal_text};

verus! {

/// A row of the chart, ready for the page. The cells are pairs of a style
/// and a text.
#[derive(Debug)]
pub struct TemplateRow {
    pub what: String,
    pub who: String,
    pub line_num: u32,
    pub done: String,
    pub left: String,
    pub plan: String,
    pub gain: String,
    pub even: bool,
    pub notes: Vec<String>,
    pub notes_html: String,
    pub cells: Vec<(String, String)>,
}

/// The whole chart, ready for the page: the header of each week as a pair
/// of a style and a text, the labels as triples of a number of columns, a
/// style and a text, a row for each developer and a row for each task.
#[derive(Debug)]
pub struct TemplateContext {
    pub cell_headers: Vec<(String, String)>,
    pub cell_labels: Vec<(u32, String, String)>,
    pub resource_rows: Vec<TemplateRow>,
    pub rows: Vec<TemplateRow>,
    pub chart_width: u32,
    pub chart_height: u32,
}

/// What the error page shows.
#[derive(Debug)]
pub struct ErrorTemplate {
    pub error: String,
}

/// A row of the chart as plain values.
#[verifier::ext_equal]
pub struct RowView {
    pub what: Seq<char>,
    pub who: Seq<char>,
    pub line_num: u32,
    pub done: Seq<char>,
    pub left: Seq<char>,
    pub plan: Seq<char>,
    pub gain: Seq<char>,
    pub even: bool,
    pub notes: Seq<Seq<char>>,
    pub notes_html: Seq<char>,
    pub cells: Seq<(Seq<char>, Seq<char>)>,
}

impl View for TemplateRow {
    type V = RowView;

    open spec fn view(&self) -> RowView {
        RowView {
            what: self.what@,
            who: self.who@,
            line_num: self.line_num,
            done: self.done@,
            left: self.left@,
            plan: self.plan@,
            gain: self.gain@,
            even: self.even,
            notes: Seq::new(self.notes@.len(), |i: int| self.notes@[i]@),
            notes_html: self.notes_html@,
            cells: Seq::new(self.cells@.len(), |i: int| (self.cells@[i].0@, self.cells@[i].1@)),
        }
    }
}

/// The views of some rows.
pub open spec fn row_views(rows: Seq<TemplateRow>) -> Seq<RowView> {
    Seq::new(rows.len(), |i: int| rows[i]@)
}

/// So many spaces that do not break.
pub open spec fn hard_space_text(n: nat) -> Seq<char>
    decreases n,
{
    if n == 0 {
        Seq::empty()
    } else {
        hard_space_text((n - 1) as nat) + "&nbsp;"@
    }
}

/// A text with each of its spaces made one that does not break.
pub open spec fn hard_spaced(s: Seq<char>) -> Seq<char>
    decreases s.len(),
{
    if s.len() == 0 {
        Seq::empty()
    } else if s.last() == ' ' {
        hard_spaced(s.drop_last()) + "&nbsp;"@
    } else {
        hard_spaced(s.drop_last()).push(s.last())
    }
}

/// The name of a row: three spaces for each level, but at least one, and
/// the name, all spaces made such that they do not break.
pub open spec fn what_text(indent: u32, name: Seq<char>) -> Seq<char> {
    hard_space_text(
        if indent == 0 {
            1nat
        } else {
            (3 * indent) as nat
        },
    ) + hard_spaced(name)
}

/// What is written after the whole days, in the width of two digits.
pub open spec fn quarter_html(part: int) -> Seq<char> {
    if part == 1 {
        ".25"@
    } else if part == 2 {
        ".5&nbsp;"@
    } else if part == 3 {
        ".75"@
    } else {
        "&nbsp;&nbsp;&nbsp;"@
    }
}

/// Quarters as days, as a cell shows them: nothing for none, else the whole
/// days and the part of a day, with a `-` before them where they are
/// below zero.
pub open spec fn quarters_html(quarters: int) -> Seq<char> {
    if quarters == 0 {
        ""@
    } else if quarters > 0 {
        big_text((quarters / 4) as nat) + quarter_html(quarters % 4)
    } else {
        "-"@ + big_text(((-quarters) / 4) as nat) + quarter_html((-quarters) % 4)
    }
}

/// See `quarters_html`.
pub fn format_quarters(quarters: i64) -> (r: String)
    ensures
        r@ == quarters_html(quarters as int),
{
    if quarters == 0 {
        return String::from_str("");
    }
    let size: u64 = if quarters > 0 {
        quarters as u64
    } else {
        (-(quarters + 1)) as u64 + 1
    };
    let mut s = if quarters > 0 {
        big_string(size / 4)
    } else {
        let mut m = String::from_str("-");
        m.append(big_string(size / 4).as_str());
        m
    };
    let part = size % 4;
    if part == 1 {
        s.append(".25");
    } else if part == 2 {
        s.append(".5&nbsp;");
    } else if part == 3 {
        s.append(".75");
    } else {
        s.append("&nbsp;&nbsp;&nbsp;");
    }
    s
}

/// The notes of a row as the page shows them: nothing where there are none,
/// else the line of the node and the notes, each on a line of its own.
pub open spec fn notes_text(line_num: u32, notes: Seq<Seq<char>>, upto: int) -> Seq<char>
    decreases upto,
{
    if notes.len() == 0 {
        Seq::empty()
    } else if upto <= 0 {
        "Node at line "@ + decimal_text(line_num as nat)
    } else {
        notes_text(line_num, notes, upto - 1) + "<br>"@ + notes[upto - 1]
    }
}

/// The style of the cells of a week's column.
pub open spec fn style_text(border: BorderType) -> Seq<char> {
    match border {
        BorderType::Plain => "grid"@,
        BorderType::Start => "grid border"@,
        BorderType::Now => "grid start"@,
        BorderType::Label => "grid label"@,
    }
}

impl TemplateRow {
    /// A row without cells, for the node of the given name at the given
    /// level and line.
    pub fn new(indent: u32, line_num: u32, name: &str) -> (r: TemplateRow)
        ensures
            r@ == (RowView {
                what: what_text(indent, name@),
                who: ""@,
                line_num,
                done: " "@,
                left: " "@,
                plan: " "@,
                gain: " "@,
                even: false,
                notes: Seq::empty(),
                notes_html: ""@,
                cells: Seq::empty(),
            }),
    {
        let width: u64 = if indent == 0 {
            1
        } else {
            3 * (indent as u64)
        };
        let mut what = String::new();
        let mut k: u64 = 0;
        while k < width
            invariant
                k <= width,
                what@ == hard_space_text(k as nat),
            decreases width - k,
        {
            what.append("&nbsp;");
            k = k + 1;
        }
        let n = name.unicode_len();
        let ghost lead = what@;
        let mut i: usize = 0;
        assert(name@.subrange(0, 0) =~= Seq::<char>::empty());
        while i < n
            invariant
                i <= n,
                n == name@.len(),
                what@ == lead + hard_spaced(name@.subrange(0, i as int)),
            decreases n - i,
        {
            proof {
                let upto = name@.subrange(0, i + 1);
                assert(upto.drop_last() =~= name@.subrange(0, i as int));
                assert(upto.last() == name@[i as int]);
            }
            let ghost before = what@;
            if name.get_char(i) == ' ' {
                what.append("&nbsp;");
                assert(what@ =~= lead + (hard_spaced(name@.subrange(0, i as int)) + "&nbsp;"@));
            } else {
                what.append(name.substring_char(i, i + 1));
                assert(name@.subrange(i as int, i + 1) =~= seq![name@[i as int]]);
                assert(what@ =~= lead + hard_spaced(name@.subrange(0, i as int)).push(
                    name@[i as int],
                ));
            }
            i = i + 1;
        }
        assert(name@.subrange(0, n as int) =~= name@);
        let r = TemplateRow {
            what,
            who: String::from_str(""),
            done: String::from_str(" "),
            gain: String::from_str(" "),
            line_num,
            left: String::from_str(" "),
            plan: String::from_str(" "),
            even: false,
            cells: Vec::new(),
            notes: Vec::new(),
            notes_html: String::new(),
        };
        proof {
            reveal_strlit("");
            assert(r@.notes =~= Seq::<Seq<char>>::empty());
            assert(r@.cells =~= Seq::<(Seq<char>, Seq<char>)>::empty());
            assert(r@.notes_html =~= ""@);
        }
        r
    }

    pub fn set_who(&mut self, who: &str)
        ensures
            final(self)@ == (RowView { who: who@, ..old(self)@ }),
    {
        self.who = String::from_str(who);
        assert(self@ =~= (RowView { who: who@, ..old(self)@ }));
    }

    /// Adds the cell of the next week: so many quarters, shown as days, in
    /// the style of that week's column.
    pub fn add_cell(&mut self, root: &RootConfigData, val: u32)
        ensures
            final(self)@ == (RowView {
                cells: old(self)@.cells.push(
                    (
                        style_text(root.week_border(capped(old(self)@.cells.len() as int + 1))),
                        quarters_html(val as int),
                    ),
                ),
                ..old(self)@
            }),
    {
        let n = self.cells.len();
        let week: u32 = if n >= u32::MAX as usize {
            u32::MAX
        } else {
            (n + 1) as u32
        };
        let style = TemplateContext::cell_border_style(root, week);
        let text = format_quarters(val as i64);
        self.cells.push((style, text));
        assert(self@.cells =~= old(self)@.cells.push(
            (
                style_text(root.week_border(capped(old(self)@.cells.len() as int + 1))),
                quarters_html(val as int),
            ),
        ));
        assert(self@.notes =~= old(self)@.notes);
    }

    pub fn add_note(&mut self, val: &str)
        ensures
            final(self)@ == (RowView { notes: old(self)@.notes.push(val@), ..old(self)@ }),
    {
        self.notes.push(String::from_str(val));
        assert(self@.notes =~= old(self)@.notes.push(val@));
        assert(self@.cells =~= old(self)@.cells);
    }

    /// The work done, in quarters.
    pub fn set_done(&mut self, done: u32)
        ensures
            final(self)@ == (RowView { done: quarters_html(done as int), ..old(self)@ }),
    {
        self.done = format_quarters(done as i64);
        assert(self@ =~= (RowView { done: quarters_html(done as int), ..old(self)@ }));
    }

    /// The plan that was given up, in quarters.
    pub fn set_gain(&mut self, gain: i64)
        ensures
            final(self)@ == (RowView { gain: quarters_html(gain as int), ..old(self)@ }),
    {
        self.gain = format_quarters(gain);
        assert(self@ =~= (RowView { gain: quarters_html(gain as int), ..old(self)@ }));
    }

    /// What is left to do, in quarters.
    pub fn set_left(&mut self, left: i64)
        ensures
            final(self)@ == (RowView { left: quarters_html(left as int), ..old(self)@ }),
    {
        self.left = format_quarters(left);
        assert(self@ =~= (RowView { left: quarters_html(left as int), ..old(self)@ }));
    }

    /// The plan, in quarters.
    pub fn set_plan(&mut self, plan: u32)
        ensures
            final(self)@ == (RowView { plan: quarters_html(plan as int), ..old(self)@ }),
    {
        self.plan = format_quarters(plan as i64);
        assert(self@ =~= (RowView { plan: quarters_html(plan as int), ..old(self)@ }));
    }

    /// Writes the notes as the page shows them.
    pub fn prepare_html(&mut self)
        ensures
            final(self)@ == (RowView {
                notes_html: notes_text(
                    old(self).line_num,
                    old(self)@.notes,
                    old(self)@.notes.len() as int,
                ),
                ..old(self)@
            }),
    {
        let mut html = String::new();
        if self.notes.len() > 0 {
            html.append("Node at line ");
            html.append(decimal_string(self.line_num).as_str());
            assert(html@ =~= notes_text(self.line_num, self@.notes, 0));
            let mut i: usize = 0;
            while i < self.notes.len()
                invariant
                    i <= self.notes@.len(),
                    self.notes@.len() > 0,
                    html@ == notes_text(self.line_num, self@.notes, i as int),
                decreases self.notes@.len() - i,
            {
                html.append("<br>");
                html.append(self.notes[i].as_str());
                i = i + 1;
            }
        }
        self.notes_html = html;
        assert(self@ =~= (RowView {
            notes_html: notes_text(
                old(self).line_num,
                old(self)@.notes,
                old(self)@.notes.len() as int,
            ),
            ..old(self)@
        }));
    }
}

/// The text of a label that may be missing.
pub open spec fn note_text(label: Option<Seq<char>>) -> Seq<char> {
    match label {
        Some(t) => t,
        None => ""@,
    }
}

/// The header of each of the first `upto` weeks: its style and its number.
pub open spec fn header_cells(root: &RootConfigData, upto: int) -> Seq<(Seq<char>, Seq<char>)> {
    Seq::new(
        upto as nat,
        |i: int| (style_text(root.week_border((i + 1) as u32)), decimal_text((i + 1) as nat)),
    )
}

/// The labels over the first `upto` weeks: the spans that are closed, each
/// with its number of columns, its style and its text; the style and the
/// text of the span that is open, if one is; and how many columns have
/// followed the column that opened it. A week whose border is not plain
/// closes the span before it and opens one.
pub open spec fn label_spans(root: &RootConfigData, upto: int) -> (
    Seq<(u32, Seq<char>, Seq<char>)>,
    Option<(Seq<char>, Seq<char>)>,
    int,
)
    decreases upto,
{
    if upto <= 0 {
        (Seq::empty(), None, 0)
    } else {
        let before = label_spans(root, upto - 1);
        let week = upto as u32;
        if root.week_border(week) != BorderType::Plain {
            (
                match before.1 {
                    Some((style, text)) => before.0.push(((before.2 + 1) as u32, style, text)),
                    None => before.0,
                },
                Some((style_text(root.week_border(week)), note_text(root.week_label(week)))),
                0,
            )
        } else {
            (before.0, before.1, before.2 + 1)
        }
    }
}

/// The labels over all the weeks of the chart, the last span closed.
pub open spec fn label_cells(root: &RootConfigData) -> Seq<(u32, Seq<char>, Seq<char>)> {
    let spans = label_spans(root, root.weeks as int);
    match spans.1 {
        Some((style, text)) => spans.0.push(((spans.2 + 1) as u32, style, text)),
        None => spans.0,
    }
}

/// The views of some labels.
pub open spec fn label_views(labels: Seq<(u32, String, String)>) -> Seq<
    (u32, Seq<char>, Seq<char>),
> {
    Seq::new(labels.len(), |i: int| (labels[i].0, labels[i].1@, labels[i].2@))
}

/// The views of some cells.
pub open spec fn cell_views(cells: Seq<(String, String)>) -> Seq<(Seq<char>, Seq<char>)> {
    Seq::new(cells.len(), |i: int| (cells[i].0@, cells[i].1@))
}

/// The cells of a row of the chart: for each week, in the style of its
/// column, the cells of the row that are set in it, as days.
pub open spec fn week_cells(root: &RootConfigData, cells: Seq<bool>, upto: int) -> Seq<
    (Seq<char>, Seq<char>),
> {
    Seq::new(
        upto as nat,
        |w: int|
            (
                style_text(root.week_border(capped(w + 1))),
                quarters_html(count_in(cells, 20 * w, 20 * w + 20)),
            ),
    )
}

/// The row of a developer: the name, the free cells week by week, and how
/// many are free in all.
pub open spec fn resource_row(root: &RootConfigData, index: int, even: bool) -> RowView {
    let dev = root.developers@[index];
    RowView {
        what: what_text(0, dev.name@),
        who: ""@,
        line_num: 0,
        done: " "@,
        left: quarters_html(count_in(dev.data.cells@, 0, dev.data.cells@.len() as int)),
        plan: " "@,
        gain: " "@,
        even,
        notes: Seq::empty(),
        notes_html: ""@,
        cells: week_cells(root, dev.data.cells@, (dev.data.cells@.len() as int + 19) / 20),
    }
}

/// The plan of a task as the chart shows it, as of the quarter `when`: the
/// plan itself, or, for a task whose plan is spread over the developer's
/// whole time, the plan as it stands at `when`.
pub open spec fn shown_plan(node: &NodeConfigData, root: &RootConfigData, when: int, plan: u32) -> u32 {
    if node.resourcing == Some(ResourcingStrategy::SmearProRata) {
        node.pro_rata(root, when, plan as int)
    } else {
        plan
    }
}

/// The row of a task: its name, indented by its level; its developer; its
/// cells week by week; what was done before today; and, where it has a
/// plan as of today, the plan, what was given up of the plan at the start
/// of the chart, what is left to do, and a note where the task holds more
/// cells than the plan has. The notes of the task follow.
pub open spec fn task_row(
    node: &NodeConfigData,
    root: &RootConfigData,
    name: Seq<char>,
    line_num: u32,
    level: u32,
    even: bool,
) -> RowView {
    let held = count_in(node.cells@, 0, node.cells@.len() as int);
    let done = count_in(node.cells@, 0, root.now as int);
    let own_notes = Seq::new(node.notes@.len(), |i: int| node.notes@[i]@);
    let base = RowView {
        what: what_text(level, name),
        who: note_text(node.effective_dev(root, name)),
        line_num,
        done: quarters_html(done),
        left: " "@,
        plan: " "@,
        gain: " "@,
        even,
        notes: own_notes,
        notes_html: ""@,
        cells: week_cells(root, node.cells@, (node.cells@.len() as int + 19) / 20),
    };
    match node.now_plan {
        None => base,
        Some(p) => {
            let plan = shown_plan(node, root, root.now as int, p);
            RowView {
                plan: quarters_html(plan as int),
                gain: match node.initial_plan {
                    Some(old_p) => quarters_html(shown_plan(node, root, 0, old_p) - plan),
                    None => " "@,
                },
                left: if plan != done {
                    quarters_html(plan - done)
                } else {
                    " "@
                },
                notes: if held > plan {
                    seq!["Overspent by "@ + days_text((held - plan) as nat)] + own_notes
                } else {
                    own_notes
                },
                ..base
            }
        },
    }
}

impl TemplateContext {
    /// The style of the cells of a week's column.
    pub fn cell_border_style(root: &RootConfigData, week: u32) -> (r: String)
        ensures
            r@ == style_text(root.week_border(week)),
    {
        match root.weekly_left_border(week) {
            BorderType::Plain => String::from_str("grid"),
            BorderType::Start => String::from_str("grid border"),
            BorderType::Now => String::from_str("grid start"),
            BorderType::Label => String::from_str("grid label"),
        }
    }

    /// A chart without rows, with the header and the labels of each week.
    pub fn new(root: &RootConfigData) -> (r: TemplateContext)
        ensures
            r.chart_width == 9999,
            r.chart_height == 2000,
            r.rows@.len() == 0,
            r.resource_rows@.len() == 0,
            cell_views(r.cell_headers@) == header_cells(root, root.weeks as int),
            label_views(r.cell_labels@) == label_cells(root),
    {
        let weeks = root.get_weeks();
        let mut headers: Vec<(String, String)> = Vec::new();
        let mut labels: Vec<(u32, String, String)> = Vec::new();
        let mut colspan: u32 = 0;
        let mut open: Option<(String, String)> = None;
        let mut done: u32 = 0;
        assert(cell_views(headers@) =~= header_cells(root, 0));
        assert(label_views(labels@) =~= label_spans(root, 0).0);
        while done < weeks
            invariant
                done <= weeks,
                weeks == root.weeks,
                colspan <= done,
                open is Some ==> colspan < done,
                cell_views(headers@) == header_cells(root, done as int),
                label_views(labels@) == label_spans(root, done as int).0,
                colspan == label_spans(root, done as int).2,
                match open {
                    Some((style, text)) => label_spans(root, done as int).1 == Some(
                        (style@, text@),
                    ),
                    None => label_spans(root, done as int).1 is None,
                },
            decreases weeks - done,
        {
            let week: u32 = done + 1;
            let ghost headers_before = cell_views(headers@);
            let ghost labels_before = label_views(labels@);
            let style = TemplateContext::cell_border_style(root, week);
            headers.push((style, decimal_string(week)));
            assert(cell_views(headers@) =~= headers_before.push(
                (style_text(root.week_border(week)), decimal_text(week as nat)),
            ));
            assert(cell_views(headers@) =~= header_cells(root, week as int));
            match root.weekly_left_border(week) {
                BorderType::Plain => {
                    colspan = colspan + 1;
                },
                _ => {
                    match open {
                        Some((style, text)) => {
                            labels.push((colspan + 1, style, text));
                            assert(label_views(labels@) =~= labels_before.push(
                                ((colspan + 1) as u32, style@, text@),
                            ));
                        },
                        None => {},
                    }
                    let text = match root.weekly_label(week) {
                        Some(t) => t,
                        None => String::from_str(""),
                    };
                    open = Some((TemplateContext::cell_border_style(root, week), text));
                    colspan = 0;
                },
            }
            done = week;
        }
        let ghost labels_before = label_views(labels@);
        match open {
            Some((style, text)) => {
                labels.push((colspan + 1, style, text));
                assert(label_views(labels@) =~= labels_before.push(
                    ((colspan + 1) as u32, style@, text@),
                ));
            },
            None => {},
        }
        TemplateContext {
            cell_headers: headers,
            cell_labels: labels,
            resource_rows: Vec::new(),
            rows: Vec::new(),
            chart_width: 9999,
            chart_height: 2000,
        }
    }

    /// Adds the row of a task under those that are there; every other row is
    /// marked as even.
    pub fn add_row(&mut self, row: TemplateRow)
        ensures
            row_views(final(self).rows@) == row_views(old(self).rows@).push(
                RowView { even: old(self).rows@.len() % 2 == 1, ..row@ },
            ),
            *final(self) == (TemplateContext { rows: final(self).rows, ..*old(self) }),
    {
        let mut row = row;
        row.even = self.rows.len() % 2 == 1;
        assert(row@ =~= (RowView { even: old(self).rows@.len() % 2 == 1, ..row@ }));
        self.rows.push(row);
        assert(row_views(self.rows@) =~= row_views(old(self).rows@).push(row@));
    }

    /// Adds the row of a developer under those that are there; every other
    /// row is marked as even.
    pub fn add_resource_row(&mut self, row: TemplateRow)
        ensures
            row_views(final(self).resource_rows@) == row_views(old(self).resource_rows@).push(
                RowView { even: old(self).resource_rows@.len() % 2 == 1, ..row@ },
            ),
            *final(self) == (TemplateContext {
                resource_rows: final(self).resource_rows,
                ..*old(self)
            }),
    {
        let mut row = row;
        row.even = self.resource_rows.len() % 2 == 1;
        assert(row@ =~= (RowView { even: old(self).resource_rows@.len() % 2 == 1, ..row@ }));
        self.resource_rows.push(row);
        assert(row_views(self.resource_rows@) =~= row_views(old(self).resource_rows@).push(row@));
    }

    /// Writes the notes of each task's row as the page shows them.
    pub fn prepare_html(&mut self)
        ensures
            final(self).rows@.len() == old(self).rows@.len(),
            forall|i: int|
                0 <= i < old(self).rows@.len() ==> (#[trigger] final(self).rows@[i])@ == (RowView {
                    notes_html: notes_text(
                        old(self).rows@[i].line_num,
                        old(self).rows@[i]@.notes,
                        old(self).rows@[i]@.notes.len() as int,
                    ),
                    ..old(self).rows@[i]@
                }),
            *final(self) == (TemplateContext { rows: final(self).rows, ..*old(self) }),
    {
        let n = self.rows.len();
        let mut i: usize = 0;
        while i < n
            invariant
                i <= n,
                n == self.rows@.len(),
                n == old(self).rows@.len(),
                *self == (TemplateContext { rows: self.rows, ..*old(self) }),
                forall|k: int| i <= k < n ==> self.rows@[k] == old(self).rows@[k],
                forall|k: int|
                    0 <= k < i ==> (#[trigger] self.rows@[k])@ == (RowView {
                        notes_html: notes_text(
                            old(self).rows@[k].line_num,
                            old(self).rows@[k]@.notes,
                            old(self).rows@[k]@.notes.len() as int,
                        ),
                        ..old(self).rows@[k]@
                    }),
            decreases n - i,
        {
            self.rows[i].prepare_html();
            i = i + 1;
        }
    }
}

/// Fills a row with the cells of a row of the chart, week by week.
fn add_week_cells(row: &mut TemplateRow, root: &RootConfigData, cells: &crate::chartrow::ChartRow)
    requires
        old(row)@.cells.len() == 0,
    ensures
        final(row)@ == (RowView {
            cells: week_cells(root, cells@, (cells@.len() as int + 19) / 20),
            ..old(row)@
        }),
{
    let numbers = cells.get_weekly_numbers();
    let mut w: usize = 0;
    assert(row@.cells =~= week_cells(root, cells@, 0));
    while w < numbers.len()
        invariant
            w <= numbers@.len(),
            numbers@.len() == (cells@.len() + 19) / 20,
            forall|k: int|
                0 <= k < numbers@.len() ==> numbers@[k] == count_in(cells@, 20 * k, 20 * k + 20),
            row@ == (RowView { cells: week_cells(root, cells@, w as int), ..old(row)@ }),
        decreases numbers@.len() - w,
    {
        row.add_cell(root, numbers[w]);
        assert(row@.cells =~= week_cells(root, cells@, w + 1));
        w = w + 1;
    }
}

impl RootConfigData {
    /// Adds a row for each developer: the free cells week by week, and how
    /// many are free in all.
    pub fn generate_dev_weekly_output(&self, context: &mut TemplateContext)
        ensures
            final(context).resource_rows@.len() == old(context).resource_rows@.len()
                + self.developers@.len(),
            forall|i: int|
                0 <= i < old(context).resource_rows@.len() ==> row_views(
                    final(context).resource_rows@,
                )[i] == row_views(old(context).resource_rows@)[i],
            forall|j: int|
                old(context).resource_rows@.len() <= j < old(context).resource_rows@.len()
                    + self.developers@.len() ==> #[trigger] row_views(
                    final(context).resource_rows@,
                )[j] == resource_row(self, j - old(context).resource_rows@.len(), j % 2 == 1),
            *final(context) == (TemplateContext {
                resource_rows: final(context).resource_rows,
                ..*old(context)
            }),
    {
        let ghost start = row_views(context.resource_rows@);
        let mut i: usize = 0;
        while i < self.developers.len()
            invariant
                i <= self.developers@.len(),
                start == row_views(old(context).resource_rows@),
                *context == (TemplateContext {
                    resource_rows: context.resource_rows,
                    ..*old(context)
                }),
                row_views(context.resource_rows@).len() == start.len() + i,
                forall|k: int|
                    0 <= k < start.len() ==> row_views(context.resource_rows@)[k] == start[k],
                forall|j: int|
                    start.len() <= j < start.len() + i ==> #[trigger] row_views(
                        context.resource_rows@,
                    )[j] == resource_row(self, j - start.len(), j % 2 == 1),
            decreases self.developers@.len() - i,
        {
            let dev = &self.developers[i];
            let mut row = TemplateRow::new(0, 0, dev.name.as_str());
            add_week_cells(&mut row, self, &dev.data.cells);
            row.set_left(dev.data.cells.count() as i64);
            let ghost before = row_views(context.resource_rows@);
            context.add_resource_row(row);
            proof {
                let now = row_views(context.resource_rows@);
                assert(now[start.len() + i] =~= resource_row(
                    self,
                    i as int,
                    (start.len() + i) % 2 == 1,
                ));
                assert forall|k: int| 0 <= k < start.len() + i implies now[k] == before[k] by {}
            }
            i = i + 1;
        }
    }
}

impl NodeConfigData {
    /// Adds the row of the task: see `task_row`.
    pub fn generate_weekly_output(
        &self,
        root_data: &RootConfigData,
        node_name: String,
        line_num: u32,
        level: u32,
        context: &mut TemplateContext,
    ) -> (r: Result<(), crate::data::ScheduleError>)
        requires
            root_data.chart_valid(),
        ensures
            r is Ok,
            row_views(final(context).rows@) == row_views(old(context).rows@).push(
                task_row(
                    self,
                    root_data,
                    node_name@,
                    line_num,
                    level,
                    old(context).rows@.len() % 2 == 1,
                ),
            ),
            *final(context) == (TemplateContext { rows: final(context).rows, ..*old(context) }),
    {
        let mut row = TemplateRow::new(level, line_num, node_name.as_str());
        add_week_cells(&mut row, root_data, &self.cells);
        let now = root_data.get_now();
        let done: u32 = if now == 0 {
            0
        } else {
            match ChartPeriod::new(0, now - 1) {
                Ok(p) => self.cells.count_range(&p),
                Err(_) => 0,
            }
        };
        row.set_done(done);
        match self.get_dev(root_data, node_name.as_str()) {
            Some(dev) => {
                row.set_who(dev.as_str());
            },
            None => {
                proof {
                    reveal_strlit("");
                }
                assert(row@.who =~= ""@);
            },
        }
        let ghost own_notes = Seq::new(self.notes@.len(), |i: int| self.notes@[i]@);
        match self.now_plan {
            Some(p) => {
                let plan: u32 = match self.resourcing {
                    Some(ResourcingStrategy::SmearProRata) => self.pro_rata_plan_at_date(
                        now,
                        p,
                        root_data,
                    ),
                    _ => p,
                };
                row.set_plan(plan);
                match self.initial_plan {
                    Some(old_p) => {
                        let old_plan: u32 = match self.resourcing {
                            Some(ResourcingStrategy::SmearProRata) => self.pro_rata_plan_at_date(
                                0,
                                old_p,
                                root_data,
                            ),
                            _ => old_p,
                        };
                        row.set_gain(old_plan as i64 - plan as i64);
                    },
                    None => {},
                }
                let held = self.cells.count();
                if held > plan {
                    let mut note = String::from_str("Overspent by ");
                    note.append(days_string((held - plan) as u64).as_str());
                    row.add_note(note.as_str());
                }
                if plan != done {
                    row.set_left(plan as i64 - done as i64);
                }
            },
            None => {},
        }
        let ghost first_notes = row@.notes;
        let ghost before_notes = row@;
        let mut i: usize = 0;
        while i < self.notes.len()
            invariant
                i <= self.notes@.len(),
                own_notes == Seq::new(self.notes@.len(), |k: int| self.notes@[k]@),
                row@ == (RowView { notes: first_notes + own_notes.subrange(0, i as int), ..before_notes }),
            decreases self.notes@.len() - i,
        {
            row.add_note(self.notes[i].as_str());
            assert(first_notes + own_notes.subrange(0, i + 1) =~= (first_notes
                + own_notes.subrange(0, i as int)).push(self.notes@[i as int]@));
            i = i + 1;
        }
        proof {
            assert(own_notes.subrange(0, own_notes.len() as int) =~= own_notes);
            assert(Seq::<Seq<char>>::empty() + own_notes =~= own_notes);
            assert(row@ =~= task_row(self, root_data, node_name@, line_num, level, false));
        }
        context.add_row(row);
        Ok(())
    }
}

/// The rows of the first `upto` tasks of a tree, under `rows`.
pub open spec fn task_rows(tree: &ConfigTree, rows: Seq<RowView>, upto: int) -> Seq<RowView>
    decreases upto,
{
    if upto <= 0 {
        rows
    } else {
        let before = task_rows(tree, rows, upto - 1);
        let node = tree.nodes@[upto - 1];
        before.push(
            task_row(
                &node.node_data,
                &tree.root_data,
                node.name@,
                node.line_num,
                node.level,
                before.len() % 2 == 1,
            ),
        )
    }
}

/// Adds a row for each task of the tree, in the order of the tree.
pub fn generate_weekly_output(tree: &ConfigTree, context: &mut TemplateContext)
    requires
        tree.root_data.chart_valid(),
    ensures
        row_views(final(context).rows@) == task_rows(
            tree,
            row_views(old(context).rows@),
            tree.nodes@.len() as int,
        ),
        *final(context) == (TemplateContext { rows: final(context).rows, ..*old(context) }),
{
    let mut i: usize = 0;
    while i < tree.nodes.len()
        invariant
            i <= tree.nodes@.len(),
            tree.root_data.chart_valid(),
            *context == (TemplateContext { rows: context.rows, ..*old(context) }),
            row_views(context.rows@) == task_rows(tree, row_views(old(context).rows@), i as int),
        decreases tree.nodes@.len() - i,
    {
        let node = &tree.nodes[i];
        let _ = node.node_data.generate_weekly_output(
            &tree.root_data,
            node.name.clone(),
            node.line_num,
            node.level,
            context,
        );
        i = i + 1;
    }
}

/// The chart of a tree whose tasks have their cells: the headers and labels
/// of the weeks, a row for each developer, a row for each task, and the
/// notes as the page shows them.
pub fn generate_chart(tree: &ConfigTree) -> (r: TemplateContext)
    requires
        tree.root_data.chart_valid(),
    ensures
        r.chart_width == 9999,
        r.chart_height == 2000,
        cell_views(r.cell_headers@) == header_cells(&tree.root_data, tree.root_data.weeks as int),
        label_views(r.cell_labels@) == label_cells(&tree.root_data),
        r.resource_rows@.len() == tree.root_data.developers@.len(),
        forall|i: int|
            0 <= i < tree.root_data.developers@.len() ==> #[trigger] row_views(
                r.resource_rows@,
            )[i] == resource_row(&tree.root_data, i, i % 2 == 1),
        r.rows@.len() == tree.nodes@.len(),
        forall|i: int|
            0 <= i < tree.nodes@.len() ==> (#[trigger] r.rows@[i])@ == (RowView {
                notes_html: notes_text(
                    tree.nodes@[i].line_num,
                    task_rows(tree, Seq::empty(), tree.nodes@.len() as int)[i].notes,
                    task_rows(tree, Seq::empty(), tree.nodes@.len() as int)[i].notes.len() as int,
                ),
                ..task_rows(tree, Seq::empty(), tree.nodes@.len() as int)[i]
            }),
{
    let mut context = TemplateContext::new(&tree.root_data);
    tree.root_data.generate_dev_weekly_output(&mut context);
    assert(row_views(context.rows@) =~= Seq::<RowView>::empty());
    generate_weekly_output(tree, &mut context);
    proof {
        lemma_task_rows(tree, Seq::empty(), tree.nodes@.len() as int);
        assert forall|i: int| 0 <= i < context.rows@.len() implies context.rows@[i]@ == task_rows(
            tree,
            Seq::empty(),
            tree.nodes@.len() as int,
        )[i] && context.rows@[i].line_num == tree.nodes@[i].line_num by {
            assert(row_views(context.rows@)[i] == context.rows@[i]@);
        }
    }
    context.prepare_html();
    context
}

/// There is a row for each task, and it bears the line of its task.
pub proof fn lemma_task_rows(tree: &ConfigTree, rows: Seq<RowView>, upto: int)
    requires
        0 <= upto <= tree.nodes@.len(),
    ensures
        task_rows(tree, rows, upto).len() == rows.len() + upto,
        forall|j: int|
            rows.len() <= j < rows.len() + upto ==> (#[trigger] task_rows(
                tree,
                rows,
                upto,
            )[j]).line_num == tree.nodes@[j - rows.len()].line_num,
        forall|i: int| 0 <= i < rows.len() ==> task_rows(tree, rows, upto)[i] == rows[i],
    decreases upto,
{
    if upto > 0 {
        lemma_task_rows(tree, rows, upto - 1);
    }
}

/// The error page for a text.
pub fn generate_error_page(text: &str) -> (r: ErrorTemplate)
    ensures
        r.error@ == crate::messages::error_html(text@),
{
    ErrorTemplate { error: crate::messages::generate_error_html(text) }
}

} // verus!
